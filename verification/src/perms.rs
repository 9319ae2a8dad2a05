//! Enumeration of ordered k-tuples of distinct positions, the raw material
//! both for generating the series universe and for the schedule search.

use itertools::Itertools;
use vstd::prelude::*;

verus! {

/// The falling factorial n * (n - 1) * ... * (n - k + 1): the number of
/// ordered k-tuples of distinct elements drawn from n.
pub open spec fn falling(n: int, k: int) -> nat
    decreases k,
{
    if k <= 0 {
        1
    } else if n <= 0 {
        0
    } else {
        (n * falling(n - 1, k - 1)) as nat
    }
}

/// The full sequence of k-tuples of distinct positions below n, in the
/// fixed order in which the enumeration yields them.
pub uninterp spec fn index_perms(n: usize, k: usize) -> Seq<Seq<usize>>;

/// The first `cap` k-permutations of the positions 0..n.
///
/// Relies on itertools::Itertools::permutations: it yields every
/// k-permutation of its (here pairwise distinct) input elements exactly
/// once, in a deterministic order that depends on n and k alone, and
/// n! / (n - k)! tuples in all (none when k > n).
#[verifier::external_body]
pub fn k_permutations_up_to(n: usize, k: usize, cap: usize) -> (r: Vec<Vec<usize>>)
    ensures
        r@.len() == if cap as int <= falling(n as int, k as int) {
            cap as int
        } else {
            falling(n as int, k as int) as int
        },
        r@.len() == if cap as int <= index_perms(n, k).len() {
            cap as int
        } else {
            index_perms(n, k).len() as int
        },
        forall|i: int| 0 <= i < r@.len() ==> r@[i]@ == index_perms(n, k)[i],
        forall|i: int| 0 <= i < r@.len() ==> r@[i]@.len() == k as int,
        forall|i: int, t: int|
            0 <= i < r@.len() && 0 <= t < k as int ==> r@[i]@[t] < n,
        forall|i: int, t1: int, t2: int|
            0 <= i < r@.len() && 0 <= t1 < t2 < k as int ==> r@[i]@[t1] != r@[i]@[t2],
        forall|i1: int, i2: int| 0 <= i1 < i2 < r@.len() ==> r@[i1]@ != r@[i2]@,
{
    (0..n).permutations(k).take(cap).collect()
}

} // verus!
