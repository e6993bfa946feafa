//! Sequence utilities: the truncating pairwise zip of two vectors.

use vstd::prelude::*;

verus! {

/// The length of the zip of two sequences: the smaller of the two input
/// lengths.
pub open spec fn zip_len(lhs: Seq<u64>, rhs: Seq<u64>) -> int {
    if lhs.len() <= rhs.len() {
        lhs.len() as int
    } else {
        rhs.len() as int
    }
}

/// Returns the "zip" of two vectors: the pair `(lhs[i], rhs[i])` for every
/// index `i` held by both inputs. For instance, `zip(vec![1, 2, 3],
/// vec![4, 5])` equals `vec![(1, 4), (2, 5)]`; the `3` is dropped because
/// it has no partner.
pub fn zip(lhs: Vec<u64>, rhs: Vec<u64>) -> (pairs: Vec<(u64, u64)>)
    ensures
        pairs@.len() == zip_len(lhs@, rhs@),
        forall|i: int| 0 <= i < pairs@.len() ==> pairs@[i] == (lhs@[i], rhs@[i]),
{
    let n = if lhs.len() < rhs.len() {
        lhs.len()
    } else {
        rhs.len()
    };
    let mut pairs: Vec<(u64, u64)> = Vec::new();
    let mut i: usize = 0;
    while i < n
        invariant
            0 <= i <= n,
            n == zip_len(lhs@, rhs@),
            pairs@.len() == i,
            forall|j: int| 0 <= j < i ==> pairs@[j] == (lhs@[j], rhs@[j]),
        decreases n - i,
    {
        pairs.push((lhs[i], rhs[i]));
        i = i + 1;
    }
    pairs
}

} // verus!
