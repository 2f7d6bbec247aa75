//! Argmax over a row of model scores.
//!
//! The inference runtime produces one row of scores per sequence position.
//! Inside the library a score is an `i64` key whose order agrees with the
//! order of the runtime's raw scores, so selecting the best vocabulary id is
//! a question of integer comparison alone.

use vstd::prelude::*;

verus! {

/// The value `r` is the index of the leftmost maximum of `row`: every entry
/// is at most `row[r]`, and every entry strictly before `r` is strictly
/// below it.
pub open spec fn is_leftmost_max(row: Seq<i64>, r: int) -> bool {
    &&& 0 <= r < row.len()
    &&& forall|j: int| 0 <= j < row.len() ==> row[j] <= row[r]
    &&& forall|j: int| 0 <= j < r ==> row[j] < row[r]
}

/// Index of the leftmost maximum of a non-empty row: scanning left to right,
/// only a strictly greater score moves the running maximum, so among equal
/// maxima the lowest index wins.
pub fn argmax(row: &Vec<i64>) -> (r: usize)
    requires
        row@.len() > 0,
    ensures
        is_leftmost_max(row@, r as int),
{
    let mut max_idx: usize = 0;
    let mut i: usize = 1;
    while i < row.len()
        invariant
            0 <= max_idx < i <= row@.len(),
            forall|j: int| 0 <= j < i ==> row@[j] <= row@[max_idx as int],
            forall|j: int| 0 <= j < max_idx ==> row@[j] < row@[max_idx as int],
        decreases row@.len() - i,
    {
        if row[i] > row[max_idx] {
            max_idx = i;
        }
        i = i + 1;
    }
    max_idx
}

/// The leftmost maximum is unique: any two indices that both satisfy
/// `is_leftmost_max` coincide, so `argmax` is deterministic in its
/// specification, not only in its code.
pub proof fn lemma_leftmost_max_unique(row: Seq<i64>, r1: int, r2: int)
    requires
        is_leftmost_max(row, r1),
        is_leftmost_max(row, r2),
    ensures
        r1 == r2,
{
    if r1 < r2 {
        assert(row[r1] < row[r2]);
        assert(row[r2] <= row[r1]);
    } else if r2 < r1 {
        assert(row[r2] < row[r1]);
        assert(row[r1] <= row[r2]);
    }
}

} // verus!
