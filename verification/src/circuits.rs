//! The circuit on which each race is run.

use crate::text::str_eq;
use vstd::prelude::*;

verus! {

/// Whether a circuit with identifier `circuit` is the one that a race names
/// by `wanted`. A circuit without an identifier is none.
pub open spec fn is_circuit(circuit: Option<String>, wanted: Seq<char>) -> bool {
    match circuit {
        Some(id) => id@ == wanted,
        None => false,
    }
}

/// The index of the first of `circuits` that `wanted` names, if there is
/// one.
pub open spec fn circuit_index(circuits: Seq<Option<String>>, wanted: Seq<char>) -> Option<int>
    decreases circuits.len(),
{
    if circuits.len() == 0 {
        None
    } else {
        match circuit_index(circuits.drop_last(), wanted) {
            Some(index) => Some(index),
            None => if is_circuit(circuits.last(), wanted) {
                Some(circuits.len() - 1)
            } else {
                None
            },
        }
    }
}

/// The circuit found is one that the race names, and no circuit before it
/// is; none is found exactly when the race names none.
pub proof fn lemma_circuit_index(circuits: Seq<Option<String>>, wanted: Seq<char>)
    ensures
        match circuit_index(circuits, wanted) {
            Some(index) => 0 <= index < circuits.len() && is_circuit(circuits[index], wanted)
                && forall|j: int| 0 <= j < index ==> !is_circuit(#[trigger] circuits[j], wanted),
            None => forall|j: int|
                0 <= j < circuits.len() ==> !is_circuit(#[trigger] circuits[j], wanted),
        },
    decreases circuits.len(),
{
    if circuits.len() > 0 {
        let front = circuits.drop_last();
        lemma_circuit_index(front, wanted);
        assert forall|j: int| 0 <= j < front.len() implies #[trigger] circuits[j] == front[j] by {}
        match circuit_index(front, wanted) {
            Some(index) => {
                assert forall|j: int| 0 <= j < index implies !is_circuit(
                    #[trigger] circuits[j],
                    wanted,
                ) by {
                    assert(circuits[j] == front[j]);
                }
            },
            None => {
                assert forall|j: int| 0 <= j < front.len() implies !is_circuit(
                    #[trigger] circuits[j],
                    wanted,
                ) by {
                    assert(circuits[j] == front[j]);
                }
            },
        }
    }
}

/// The index of the first of `circuits` that `wanted` names.
pub fn find_circuit(circuits: &Vec<Option<String>>, wanted: &str) -> (found: Option<usize>)
    ensures
        match found {
            Some(index) => circuit_index(circuits@, wanted@) == Some(index as int) && index
                < circuits.len(),
            None => circuit_index(circuits@, wanted@).is_none(),
        },
{
    let mut i: usize = 0;
    proof {
        lemma_circuit_index(circuits@, wanted@);
    }
    while i < circuits.len()
        invariant
            i <= circuits.len(),
            forall|j: int| 0 <= j < i ==> !is_circuit(#[trigger] circuits[j], wanted@),
            match circuit_index(circuits@, wanted@) {
                Some(index) => 0 <= index < circuits.len() && is_circuit(circuits[index], wanted@)
                    && forall|j: int|
                    0 <= j < index ==> !is_circuit(#[trigger] circuits[j], wanted@),
                None => forall|j: int|
                    0 <= j < circuits.len() ==> !is_circuit(#[trigger] circuits[j], wanted@),
            },
        decreases circuits.len() - i,
    {
        match &circuits[i] {
            Some(id) => {
                if str_eq(id.as_str(), wanted) {
                    return Some(i);
                }
            },
            None => {},
        }
        i += 1;
    }
    None
}

/// For each race, by the identifier with which it names its circuit, the
/// index of the first circuit with that identifier.
pub open spec fn circuits_of(races: Seq<String>, circuits: Seq<Option<String>>) -> Seq<
    Option<int>,
> {
    Seq::new(races.len(), |i: int| circuit_index(circuits, races[i]@))
}

/// For each race the index of its circuit, if it has one among `circuits`.
pub fn match_circuits(races: &Vec<String>, circuits: &Vec<Option<String>>) -> (found: Vec<
    Option<usize>,
>)
    ensures
        found.len() == races.len(),
        forall|i: int|
            0 <= i < races.len() ==> match #[trigger] found[i] {
                Some(index) => circuits_of(races@, circuits@)[i] == Some(index as int) && index
                    < circuits.len(),
                None => circuits_of(races@, circuits@)[i].is_none(),
            },
{
    let mut found: Vec<Option<usize>> = Vec::new();
    let mut i: usize = 0;
    while i < races.len()
        invariant
            i <= races.len(),
            found.len() == i,
            forall|k: int|
                0 <= k < i ==> match #[trigger] found[k] {
                    Some(index) => circuits_of(races@, circuits@)[k] == Some(index as int) && index
                        < circuits.len(),
                    None => circuits_of(races@, circuits@)[k].is_none(),
                },
        decreases races.len() - i,
    {
        let circuit = find_circuit(circuits, races[i].as_str());
        found.push(circuit);
        i += 1;
    }
    found
}

} // verus!
