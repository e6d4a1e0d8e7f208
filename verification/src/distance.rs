//! Distances along a car's path, in whole provider units.
//!
//! The length of a step between two samples is the Euclidean length in three
//! dimensions, rounded down to a whole unit.

use crate::sorting::Keyed;
use vstd::prelude::*;

verus! {

/// A sample of a car's place at an instant.
#[derive(Clone, Copy, Debug, PartialEq, Eq, Structural)]
pub struct TimedLocation {
    pub at: i64,
    pub x: i32,
    pub y: i32,
    pub z: i32,
}

impl Keyed for TimedLocation {
    open spec fn key(&self) -> int {
        self.at as int
    }

    fn not_after(&self, other: &Self) -> (yes: bool) {
        self.at <= other.at
    }
}

/// Whether `root` is the square root of `n`, rounded down.
pub open spec fn is_floor_root(n: nat, root: nat) -> bool {
    root * root <= n < (root + 1) * (root + 1)
}

/// The square root of `n`, rounded down.
pub open spec fn floor_root(n: nat) -> nat {
    choose|root: nat| is_floor_root(n, root)
}

/// Every number has a rounded-down square root.
pub proof fn lemma_floor_root_exists(n: nat)
    ensures
        is_floor_root(n, floor_root(n)),
    decreases n,
{
    if n == 0 {
        assert(is_floor_root(0, 0)) by (nonlinear_arith);
    } else {
        lemma_floor_root_exists((n - 1) as nat);
        let below = floor_root((n - 1) as nat);
        if (below + 1) * (below + 1) <= n {
            assert((below + 1) * (below + 1) == n);
            assert(n < (below + 2) * (below + 2)) by (nonlinear_arith)
                requires
                    (below + 1) * (below + 1) == n,
            ;
            assert(is_floor_root(n, below + 1));
        } else {
            assert(is_floor_root(n, below));
        }
    }
}

/// A number has one rounded-down square root only.
pub proof fn lemma_floor_root_unique(n: nat, root: nat)
    requires
        is_floor_root(n, root),
    ensures
        floor_root(n) == root,
{
    let other = floor_root(n);
    if other < root {
        assert((other + 1) * (other + 1) <= root * root) by (nonlinear_arith)
            requires
                other + 1 <= root,
        ;
    } else if other > root {
        assert((root + 1) * (root + 1) <= other * other) by (nonlinear_arith)
            requires
                root + 1 <= other,
        ;
    }
}

/// The square root of `n`, rounded down.
pub fn floor_sqrt(n: u128) -> (root: u64)
    ensures
        root == floor_root(n as nat),
        is_floor_root(n as nat, root as nat),
{
    let mut low: u128 = 0;
    let mut high: u128 = 0x1_0000_0000_0000_0000;
    assert(n < high * high) by (nonlinear_arith)
        requires
            high == 0x1_0000_0000_0000_0000,
            n <= u128::MAX,
    ;
    while high - low > 1
        invariant
            low < high <= 0x1_0000_0000_0000_0000,
            low * low <= n < high * high,
        decreases high - low,
    {
        let middle: u128 = low + (high - low) / 2;
        assert(middle * middle <= u128::MAX) by (nonlinear_arith)
            requires
                middle < 0x1_0000_0000_0000_0000,
        ;
        if middle * middle <= n {
            low = middle;
        } else {
            high = middle;
        }
    }
    proof {
        lemma_floor_root_unique(n as nat, low as nat);
    }
    low as u64
}

/// The square of the straight-line distance between two samples.
pub open spec fn squared_gap(from: TimedLocation, to: TimedLocation) -> nat {
    ((to.x - from.x) * (to.x - from.x) + (to.y - from.y) * (to.y - from.y) + (to.z - from.z) * (
    to.z - from.z)) as nat
}

/// The straight-line distance between two samples, rounded down.
pub open spec fn gap(from: TimedLocation, to: TimedLocation) -> nat {
    floor_root(squared_gap(from, to))
}

/// The largest distance that two samples can lie apart.
pub const MAX_GAP: u64 = 0x2_0000_0000;

/// No two samples lie further apart than `MAX_GAP`.
pub proof fn lemma_gap_bound(from: TimedLocation, to: TimedLocation)
    ensures
        gap(from, to) < MAX_GAP,
{
    let n = squared_gap(from, to);
    let dx = to.x - from.x;
    let dy = to.y - from.y;
    let dz = to.z - from.z;
    assert(0 <= dx * dx <= 0x1_0000_0000_0000_0000) by (nonlinear_arith)
        requires
            -0x1_0000_0000 < dx < 0x1_0000_0000,
    ;
    assert(0 <= dy * dy <= 0x1_0000_0000_0000_0000) by (nonlinear_arith)
        requires
            -0x1_0000_0000 < dy < 0x1_0000_0000,
    ;
    assert(0 <= dz * dz <= 0x1_0000_0000_0000_0000) by (nonlinear_arith)
        requires
            -0x1_0000_0000 < dz < 0x1_0000_0000,
    ;
    assert(n <= 3 * 0x1_0000_0000_0000_0000);
    lemma_floor_root_exists(n);
    let root = floor_root(n);
    if root >= MAX_GAP {
        assert(root * root >= 0x4_0000_0000_0000_0000) by (nonlinear_arith)
            requires
                root >= 0x2_0000_0000,
        ;
    }
}

/// The straight-line distance between two samples, rounded down.
pub fn step_length(from: &TimedLocation, to: &TimedLocation) -> (length: u64)
    ensures
        length == gap(*from, *to),
        length < MAX_GAP,
{
    let dx: i128 = to.x as i128 - from.x as i128;
    let dy: i128 = to.y as i128 - from.y as i128;
    let dz: i128 = to.z as i128 - from.z as i128;
    assert(0 <= dx * dx <= 0x1_0000_0000_0000_0000) by (nonlinear_arith)
        requires
            -0x1_0000_0000 < dx < 0x1_0000_0000,
    ;
    assert(0 <= dy * dy <= 0x1_0000_0000_0000_0000) by (nonlinear_arith)
        requires
            -0x1_0000_0000 < dy < 0x1_0000_0000,
    ;
    assert(0 <= dz * dz <= 0x1_0000_0000_0000_0000) by (nonlinear_arith)
        requires
            -0x1_0000_0000 < dz < 0x1_0000_0000,
    ;
    let squared: i128 = dx * dx + dy * dy + dz * dz;
    proof {
        lemma_gap_bound(*from, *to);
    }
    floor_sqrt(squared as u128)
}

/// The distance covered along `path` from its first sample to sample `index`.
pub open spec fn travelled(path: Seq<TimedLocation>, index: int) -> nat
    decreases index,
{
    if index <= 0 {
        0
    } else {
        travelled(path, index - 1) + gap(path[index - 1], path[index])
    }
}

/// The distance covered along a path grows by less than `MAX_GAP` a step.
pub proof fn lemma_travelled_bound(path: Seq<TimedLocation>, index: int)
    requires
        0 <= index,
    ensures
        travelled(path, index) <= index * (MAX_GAP - 1),
    decreases index,
{
    if index > 0 {
        lemma_travelled_bound(path, index - 1);
        lemma_gap_bound(path[index - 1], path[index]);
    }
}

/// The distance covered along `path` up to each of its samples.
pub fn distances(path: &Vec<TimedLocation>) -> (covered: Vec<u128>)
    ensures
        covered.len() == path.len(),
        forall|i: int| 0 <= i < path.len() ==> covered[i] == travelled(path@, i),
{
    let mut covered: Vec<u128> = Vec::new();
    if path.len() == 0 {
        return covered;
    }
    covered.push(0);
    let mut total: u128 = 0;
    let mut i: usize = 1;
    while i < path.len()
        invariant
            1 <= i <= path.len(),
            covered.len() == i,
            total == travelled(path@, i - 1),
            forall|j: int| 0 <= j < i ==> covered[j] == travelled(path@, j),
        decreases path.len() - i,
    {
        let step = step_length(&path[i - 1], &path[i]);
        proof {
            lemma_travelled_bound(path@, i - 1);
        }
        total = total + step as u128;
        covered.push(total);
        i += 1;
    }
    covered
}

} // verus!
