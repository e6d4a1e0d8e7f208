//! The place of every driver of a session, lap by lap.
//!
//! Laps and place records are grouped by driver and put in order of time. A
//! sweep over both then gives each lap the place that was in effect when the
//! lap began. The graphs come out by the place in which each driver ended.

use crate::records::{DriverLapGraph, LapPosition, LapRecord, PositionRecord};
use crate::sorting::{
    key_of, lemma_slot_is, lemma_sorted_images, lemma_sorted_is_ordered,
    lemma_sorted_is_permutation, ordered_by, slot_by, stable_sort, stable_sorted,
    stable_sorted_by, Keyed,
};
use vstd::prelude::*;

verus! {

/// The places of one driver, lap by lap, as a value of specifications.
pub struct LapGraph {
    pub driver_number: u32,
    pub data: Seq<LapPosition>,
}

impl View for DriverLapGraph {
    type V = LapGraph;

    open spec fn view(&self) -> LapGraph {
        LapGraph { driver_number: self.driver_number, data: self.data@ }
    }
}

/// The graph of `graph`, as a function.
pub open spec fn graph_view() -> spec_fn(DriverLapGraph) -> LapGraph {
    |graph: DriverLapGraph| graph@
}

/// The place in which a graph ends; zero for a graph without a lap.
pub open spec fn final_place(graph: LapGraph) -> int {
    if graph.data.len() == 0 {
        0
    } else {
        graph.data.last().position as int
    }
}

/// `final_place`, as a function.
pub open spec fn by_final_place() -> spec_fn(LapGraph) -> int {
    |graph: LapGraph| final_place(graph)
}

impl Keyed for DriverLapGraph {
    open spec fn key(&self) -> int {
        final_place(self@)
    }

    fn not_after(&self, other: &Self) -> (yes: bool) {
        let own: u32 = if self.data.len() == 0 {
            0
        } else {
            self.data[self.data.len() - 1].position
        };
        let theirs: u32 = if other.data.len() == 0 {
            0
        } else {
            other.data[other.data.len() - 1].position
        };
        own <= theirs
    }
}

impl Keyed for PositionRecord {
    open spec fn key(&self) -> int {
        self.date as int
    }

    fn not_after(&self, other: &Self) -> (yes: bool) {
        self.date <= other.date
    }
}

/// The instant by which a lap is ordered: its start; a lap without a start
/// comes before every lap with one.
pub open spec fn lap_instant(lap: LapRecord) -> int {
    match lap.date_start {
        Some(start) => start as int,
        None => i64::MIN - 1,
    }
}

impl Keyed for LapRecord {
    open spec fn key(&self) -> int {
        lap_instant(*self)
    }

    fn not_after(&self, other: &Self) -> (yes: bool) {
        match (self.date_start, other.date_start) {
            (Some(own), Some(theirs)) => own <= theirs,
            (None, _) => true,
            (Some(_), None) => false,
        }
    }
}

/// The test whether a lap is one of `driver` and has a start.
pub open spec fn is_started_lap_of(driver: u32) -> spec_fn(LapRecord) -> bool {
    |lap: LapRecord| lap.driver_number == driver && lap.date_start.is_some()
}

/// The test whether a place record is one of `driver`.
pub open spec fn is_place_of(driver: u32) -> spec_fn(PositionRecord) -> bool {
    |record: PositionRecord| record.driver_number == driver
}

/// The laps of `driver` that have a start, by start.
pub open spec fn laps_of(laps: Seq<LapRecord>, driver: u32) -> Seq<LapRecord> {
    stable_sorted(laps.filter(is_started_lap_of(driver)))
}

/// The place records of `driver`, by time.
pub open spec fn places_of(positions: Seq<PositionRecord>, driver: u32) -> Seq<PositionRecord> {
    stable_sorted(positions.filter(is_place_of(driver)))
}

/// The place in effect at `at`, from place records in order of time: that of
/// the last record not after `at`; that of the first record where `at` lies
/// before every record.
pub open spec fn place_at(places: Seq<PositionRecord>, at: int) -> u32 {
    let behind = slot_by(places, key_of::<PositionRecord>(), at);
    if behind == 0 {
        places[0].position
    } else {
        places[behind - 1].position
    }
}

/// The graph of one driver from their laps and place records, both in order
/// of time: the place in which the driver set out, as lap 1, then the place
/// in effect at the start of each lap.
pub open spec fn graph_data(laps: Seq<LapRecord>, places: Seq<PositionRecord>) -> Seq<
    LapPosition,
> {
    Seq::new(
        laps.len() + 1,
        |i: int|
            if i == 0 {
                LapPosition { lap: 1, position: places[0].position }
            } else {
                LapPosition {
                    lap: laps[i - 1].lap_number,
                    position: place_at(places, lap_instant(laps[i - 1])),
                }
            },
    )
}

/// The graph of `driver`; none for a driver without any place record.
pub open spec fn driver_graph(
    laps: Seq<LapRecord>,
    positions: Seq<PositionRecord>,
    driver: u32,
) -> Option<LapGraph> {
    let places = places_of(positions, driver);
    if places.len() == 0 {
        None
    } else {
        Some(LapGraph { driver_number: driver, data: graph_data(laps_of(laps, driver), places) })
    }
}

/// The drivers that `laps` names, each once, in the order in which they
/// first appear.
pub open spec fn drivers_of(laps: Seq<LapRecord>) -> Seq<u32>
    decreases laps.len(),
{
    if laps.len() == 0 {
        Seq::empty()
    } else {
        let before = drivers_of(laps.drop_last());
        if before.contains(laps.last().driver_number) {
            before
        } else {
            before.push(laps.last().driver_number)
        }
    }
}

/// The graphs of the first `count` of `drivers`, in their order; drivers
/// without any place record are left out.
pub open spec fn graphs_for(
    laps: Seq<LapRecord>,
    positions: Seq<PositionRecord>,
    drivers: Seq<u32>,
    count: int,
) -> Seq<LapGraph>
    decreases count,
{
    if count <= 0 {
        Seq::empty()
    } else {
        match driver_graph(laps, positions, drivers[count - 1]) {
            Some(graph) => graphs_for(laps, positions, drivers, count - 1).push(graph),
            None => graphs_for(laps, positions, drivers, count - 1),
        }
    }
}

/// The position graphs of a session: the graph of every driver that has a
/// lap and a place record, by the place in which the graph ends; graphs that
/// end in the same place stand in the order in which their drivers first
/// appear among the laps.
pub open spec fn position_graphs_of(
    laps: Seq<LapRecord>,
    positions: Seq<PositionRecord>,
) -> Seq<LapGraph> {
    let drivers = drivers_of(laps);
    stable_sorted_by(graphs_for(laps, positions, drivers, drivers.len() as int), by_final_place())
}

/// Every graph begins with the place in which its driver set out.
pub proof fn lemma_graphs_have_a_seed(
    laps: Seq<LapRecord>,
    positions: Seq<PositionRecord>,
    drivers: Seq<u32>,
    count: int,
)
    ensures
        forall|i: int|
            0 <= i < graphs_for(laps, positions, drivers, count).len() ==> (#[trigger] graphs_for(
                laps,
                positions,
                drivers,
                count,
            )[i]).data.len() > 0,
    decreases count,
{
    if count > 0 {
        lemma_graphs_have_a_seed(laps, positions, drivers, count - 1);
        let before = graphs_for(laps, positions, drivers, count - 1);
        let after = graphs_for(laps, positions, drivers, count);
        assert forall|i: int| 0 <= i < after.len() implies (#[trigger] after[i]).data.len()
            > 0 by {
            if i < before.len() {
                assert(after[i] == before[i]);
            } else {
                let graph = driver_graph(laps, positions, drivers[count - 1]).unwrap();
                assert(after[i] == graph);
                assert(graph.data.len() == laps_of(laps, drivers[count - 1]).len() + 1);
            }
        }
    }
}

/// The position graphs stand by the place in which they end, lowest first.
pub proof fn lemma_graphs_by_final_place(laps: Seq<LapRecord>, positions: Seq<PositionRecord>)
    ensures
        ordered_by(position_graphs_of(laps, positions), by_final_place()),
{
    let drivers = drivers_of(laps);
    lemma_sorted_is_ordered(
        graphs_for(laps, positions, drivers, drivers.len() as int),
        by_final_place(),
    );
}

/// Among the drivers that laps name, none appears twice, and every driver
/// of a lap appears.
pub proof fn lemma_drivers_of(laps: Seq<LapRecord>)
    ensures
        drivers_of(laps).no_duplicates(),
        forall|i: int|
            0 <= i < laps.len() ==> drivers_of(laps).contains((#[trigger] laps[i]).driver_number),
        forall|k: int|
            #![trigger drivers_of(laps)[k]]
            0 <= k < drivers_of(laps).len() ==> exists|i: int|
                0 <= i < laps.len() && (#[trigger] laps[i]).driver_number == drivers_of(laps)[k],
    decreases laps.len(),
{
    if laps.len() > 0 {
        let front = laps.drop_last();
        let before = drivers_of(front);
        let after = drivers_of(laps);
        let driver = laps.last().driver_number;
        lemma_drivers_of(front);
        assert forall|i: int| 0 <= i < front.len() implies #[trigger] laps[i] == front[i] by {}
        assert forall|i: int| 0 <= i < laps.len() implies after.contains(
            (#[trigger] laps[i]).driver_number,
        ) by {
            if i < front.len() {
                assert(laps[i] == front[i]);
                let at = choose|at: int| 0 <= at < before.len() && before[at] == front[i].driver_number;
                assert(after[at] == front[i].driver_number);
            } else {
                if before.contains(driver) {
                } else {
                    assert(after[after.len() - 1] == driver);
                }
            }
        }
        assert forall|k: int| #![trigger after[k]] 0 <= k < after.len() implies exists|i: int|
            0 <= i < laps.len() && (#[trigger] laps[i]).driver_number == after[k] by {
            if k < before.len() {
                let i = choose|i: int|
                    0 <= i < front.len() && (#[trigger] front[i]).driver_number == before[k];
                assert(laps[i].driver_number == after[k]);
            } else {
                assert(laps[laps.len() - 1].driver_number == after[k]);
            }
        }
    }
}

/// Whether `drivers` names `driver`.
fn names(drivers: &Vec<u32>, driver: u32) -> (found: bool)
    ensures
        found == drivers@.contains(driver),
{
    let mut i: usize = 0;
    while i < drivers.len()
        invariant
            i <= drivers.len(),
            forall|j: int| 0 <= j < i ==> drivers[j] != driver,
        decreases drivers.len() - i,
    {
        if drivers[i] == driver {
            return true;
        }
        i += 1;
    }
    false
}

/// The drivers that `laps` names, each once, in the order in which they
/// first appear.
pub fn drivers(laps: &Vec<LapRecord>) -> (found: Vec<u32>)
    ensures
        found@ == drivers_of(laps@),
{
    let mut found: Vec<u32> = Vec::new();
    let mut i: usize = 0;
    while i < laps.len()
        invariant
            i <= laps.len(),
            found@ == drivers_of(laps@.subrange(0, i as int)),
        decreases laps.len() - i,
    {
        proof {
            assert(laps@.subrange(0, i + 1).drop_last() =~= laps@.subrange(0, i as int));
        }
        if !names(&found, laps[i].driver_number) {
            found.push(laps[i].driver_number);
        }
        i += 1;
    }
    proof {
        assert(laps@.subrange(0, laps.len() as int) =~= laps@);
    }
    found
}

/// The laps of `driver` that have a start, by start.
pub fn driver_laps(laps: &Vec<LapRecord>, driver: u32) -> (own: Vec<LapRecord>)
    ensures
        own@ == laps_of(laps@, driver),
{
    let ghost wanted = is_started_lap_of(driver);
    let mut own: Vec<LapRecord> = Vec::new();
    let mut i: usize = 0;
    proof {
        assert(laps@.subrange(0, 0) =~= Seq::<LapRecord>::empty());
        assert(Seq::<LapRecord>::empty().filter(wanted) =~= Seq::<LapRecord>::empty()) by {
            reveal(Seq::filter);
        }
    }
    while i < laps.len()
        invariant
            i <= laps.len(),
            wanted == is_started_lap_of(driver),
            own@ == laps@.subrange(0, i as int).filter(wanted),
        decreases laps.len() - i,
    {
        proof {
            assert(laps@.subrange(0, i + 1) =~= laps@.subrange(0, i as int).push(laps@[i as int]));
            laps@.subrange(0, i as int).lemma_filter_push(laps@[i as int], wanted);
        }
        let lap = laps[i];
        if lap.driver_number == driver && lap.date_start.is_some() {
            own.push(lap);
        }
        i += 1;
    }
    proof {
        assert(laps@.subrange(0, laps.len() as int) =~= laps@);
    }
    stable_sort(own)
}

/// The place records of `driver`, by time.
pub fn driver_places(positions: &Vec<PositionRecord>, driver: u32) -> (own: Vec<PositionRecord>)
    ensures
        own@ == places_of(positions@, driver),
{
    let ghost wanted = is_place_of(driver);
    let mut own: Vec<PositionRecord> = Vec::new();
    let mut i: usize = 0;
    proof {
        assert(positions@.subrange(0, 0) =~= Seq::<PositionRecord>::empty());
        assert(Seq::<PositionRecord>::empty().filter(wanted) =~= Seq::<PositionRecord>::empty())
            by {
            reveal(Seq::filter);
        }
    }
    while i < positions.len()
        invariant
            i <= positions.len(),
            wanted == is_place_of(driver),
            own@ == positions@.subrange(0, i as int).filter(wanted),
        decreases positions.len() - i,
    {
        proof {
            assert(positions@.subrange(0, i + 1) =~= positions@.subrange(0, i as int).push(
                positions@[i as int],
            ));
            positions@.subrange(0, i as int).lemma_filter_push(positions@[i as int], wanted);
        }
        let record = positions[i];
        if record.driver_number == driver {
            own.push(record);
        }
        i += 1;
    }
    proof {
        assert(positions@.subrange(0, positions.len() as int) =~= positions@);
    }
    stable_sort(own)
}

/// Sweeps the laps and the place records of one driver, both in order of
/// time, and gives each lap the place in effect when it began.
fn sweep(laps: &Vec<LapRecord>, places: &Vec<PositionRecord>) -> (data: Vec<LapPosition>)
    requires
        places.len() > 0,
        ordered_by(laps@, key_of::<LapRecord>()),
        ordered_by(places@, key_of::<PositionRecord>()),
        forall|i: int| 0 <= i < laps.len() ==> (#[trigger] laps[i]).date_start.is_some(),
    ensures
        data@ == graph_data(laps@, places@),
{
    let mut data: Vec<LapPosition> = Vec::new();
    let mut behind: usize = 0;
    let mut place: u32 = places[0].position;
    data.push(LapPosition { lap: 1, position: place });
    let mut i: usize = 0;
    while i < laps.len()
        invariant
            i <= laps.len(),
            places.len() > 0,
            behind <= places.len(),
            ordered_by(laps@, key_of::<LapRecord>()),
            ordered_by(places@, key_of::<PositionRecord>()),
            forall|k: int| 0 <= k < laps.len() ==> (#[trigger] laps[k]).date_start.is_some(),
            forall|j: int, k: int|
                0 <= j < behind && i <= k < laps.len() ==> (#[trigger] places[j]).date
                    <= lap_instant(#[trigger] laps[k]),
            place == (if behind == 0 {
                places[0].position
            } else {
                places[behind - 1].position
            }),
            data.len() == i + 1,
            forall|k: int| 0 <= k <= i ==> data[k] == graph_data(laps@, places@)[k],
        decreases laps.len() - i,
    {
        let lap = laps[i];
        let start = lap.date_start.unwrap();
        while behind < places.len() && places[behind].date <= start
            invariant
                i < laps.len(),
                behind <= places.len(),
                start == lap_instant(laps[i as int]),
                ordered_by(laps@, key_of::<LapRecord>()),
                forall|j: int| 0 <= j < behind ==> (#[trigger] places[j]).date <= start,
                place == (if behind == 0 {
                    places[0].position
                } else {
                    places[behind - 1].position
                }),
            decreases places.len() - behind,
        {
            place = places[behind].position;
            behind += 1;
        }
        proof {
            assert forall|j: int| behind <= j < places.len() implies key_of::<PositionRecord>()(
                #[trigger] places@[j],
            ) > start by {
                assert(key_of::<PositionRecord>()(places@[behind as int]) <= key_of::<
                    PositionRecord,
                >()(places@[j]));
            }
            assert forall|j: int| 0 <= j < behind implies key_of::<PositionRecord>()(
                #[trigger] places@[j],
            ) <= start by {
                assert(places[j].date <= start);
            }
            lemma_slot_is(places@, key_of::<PositionRecord>(), start as int, behind as int);
            assert forall|j: int, k: int| 0 <= j < behind && i + 1 <= k < laps.len() implies (
            #[trigger] places[j]).date <= lap_instant(#[trigger] laps[k]) by {
                assert(key_of::<LapRecord>()(laps@[i as int]) <= key_of::<LapRecord>()(laps@[k]));
            }
        }
        data.push(LapPosition { lap: lap.lap_number, position: place });
        i += 1;
    }
    proof {
        assert(data@ =~= graph_data(laps@, places@));
    }
    data
}

/// The graph of `driver`; none for a driver without any place record.
pub fn driver_lap_graph(laps: &Vec<LapRecord>, positions: &Vec<PositionRecord>, driver: u32) -> (graph:
    Option<DriverLapGraph>)
    ensures
        match graph {
            Some(found) => driver_graph(laps@, positions@, driver) == Some(found@),
            None => driver_graph(laps@, positions@, driver).is_none(),
        },
{
    let places = driver_places(positions, driver);
    if places.len() == 0 {
        return None;
    }
    let own = driver_laps(laps, driver);
    proof {
        let started = laps@.filter(is_started_lap_of(driver));
        lemma_sorted_is_ordered(started, key_of::<LapRecord>());
        lemma_sorted_is_ordered(positions@.filter(is_place_of(driver)), key_of::<PositionRecord>());
        lemma_all_started(laps@, driver);
    }
    let data = sweep(&own, &places);
    Some(DriverLapGraph { driver_number: driver, data })
}

/// Every lap among the laps of a driver has a start.
pub proof fn lemma_all_started(laps: Seq<LapRecord>, driver: u32)
    ensures
        forall|i: int|
            0 <= i < laps_of(laps, driver).len() ==> (#[trigger] laps_of(
                laps,
                driver,
            )[i]).date_start.is_some(),
{
    let wanted = is_started_lap_of(driver);
    let started = laps.filter(wanted);
    let sorted = laps_of(laps, driver);
    lemma_sorted_is_permutation(started, key_of::<LapRecord>());
    assert forall|i: int| 0 <= i < sorted.len() implies (#[trigger] sorted[i]).date_start.is_some() by {
        sorted.to_multiset_ensures();
        started.to_multiset_ensures();
        assert(sorted.contains(sorted[i]));
        assert(started.to_multiset().count(sorted[i]) > 0);
        assert(started.contains(sorted[i]));
        started.lemma_filter_contains_rev(wanted, sorted[i]);
        laps.lemma_filter_contains_rev(wanted, sorted[i]);
    }
}

/// The position graphs of a session.
pub fn position_graphs(laps: &Vec<LapRecord>, positions: &Vec<PositionRecord>) -> (graphs: Vec<
    DriverLapGraph,
>)
    ensures
        graphs@.map_values(graph_view()) == position_graphs_of(laps@, positions@),
{
    let named = drivers(laps);
    let mut graphs: Vec<DriverLapGraph> = Vec::new();
    let mut i: usize = 0;
    proof {
        assert(graphs@.map_values(graph_view()) =~= Seq::<LapGraph>::empty());
    }
    while i < named.len()
        invariant
            i <= named.len(),
            named@ == drivers_of(laps@),
            graphs@.map_values(graph_view()) == graphs_for(laps@, positions@, named@, i as int),
        decreases named.len() - i,
    {
        let ghost before = graphs@;
        match driver_lap_graph(laps, positions, named[i]) {
            Some(graph) => {
                graphs.push(graph);
                proof {
                    assert(graphs@.map_values(graph_view()) =~= before.map_values(
                        graph_view(),
                    ).push(graph@));
                }
            },
            None => {},
        }
        i += 1;
    }
    let ghost unsorted = graphs@;
    let sorted = stable_sort(graphs);
    proof {
        lemma_sorted_images(unsorted, graph_view(), by_final_place(), key_of::<DriverLapGraph>());
    }
    sorted
}

} // verus!
