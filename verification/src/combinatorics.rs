//! Combinatorics: one row of Pascal's triangle, i.e. the binomial
//! coefficients `C(n, 0), ..., C(n, n)`.

use crate::matrix::pow2;
use crate::scalar::sum_of;
use vstd::arithmetic::div_mod::lemma_div_multiples_vanish;
use vstd::arithmetic::mul::lemma_mul_is_commutative;
use vstd::arithmetic::mul::lemma_mul_is_distributive_add;
use vstd::arithmetic::mul::lemma_mul_is_distributive_add_other_way;
use vstd::arithmetic::mul::lemma_mul_upper_bound;
use vstd::prelude::*;

verus! {

/// The binomial coefficient `C(n, k)`, by Pascal's rule: the edges of the
/// triangle are one, everything beyond the row is zero, and every inner
/// entry is the sum of the two entries above it.
pub open spec fn binom(n: nat, k: nat) -> nat
    decreases n,
{
    if k == 0 {
        1
    } else if k > n {
        0
    } else {
        binom((n - 1) as nat, (k - 1) as nat) + binom((n - 1) as nat, k)
    }
}

/// The last entry of each row of Pascal's triangle is one.
proof fn lemma_binom_last(n: nat)
    ensures
        binom(n, n) == 1,
    decreases n,
{
    reveal_with_fuel(binom, 3);
    if n > 0 {
        lemma_binom_last((n - 1) as nat);
    }
}

/// The second entry of each row of Pascal's triangle is the row index.
proof fn lemma_binom_one(n: nat)
    requires
        n >= 1,
    ensures
        binom(n, 1) == n,
    decreases n,
{
    reveal_with_fuel(binom, 3);
    if n > 1 {
        lemma_binom_one((n - 1) as nat);
    }
}

/// The second-to-last entry of each row of Pascal's triangle is the row
/// index.
proof fn lemma_binom_next_to_last(n: nat)
    requires
        n >= 1,
    ensures
        binom(n, (n - 1) as nat) == n,
    decreases n,
{
    reveal_with_fuel(binom, 3);
    if n > 1 {
        lemma_binom_next_to_last((n - 1) as nat);
        lemma_binom_last((n - 1) as nat);
    }
}

/// The absorption identity of binomial coefficients:
/// `k * C(n, k) == (n - k + 1) * C(n, k - 1)` for `1 <= k <= n`. It makes
/// the division in the multiplicative recurrence
/// `C(n, k) == C(n, k - 1) * (n - k + 1) / k` exact.
proof fn lemma_binom_absorption(n: nat, k: nat)
    requires
        1 <= k <= n,
    ensures
        k * binom(n, k) == (n - k + 1) * binom(n, (k - 1) as nat),
    decreases n,
{
    let prev = (n - 1) as nat;
    if k == 1 {
        lemma_binom_one(n);
    } else if k == n {
        lemma_binom_last(n);
        lemma_binom_next_to_last(n);
    } else {
        // 2 <= k <= n - 1, so both inductive calls stay inside the row above.
        let x = binom(prev, (k - 1) as nat);
        lemma_binom_absorption(prev, k);
        lemma_binom_absorption(prev, (k - 1) as nat);
        // k * C(n, k) == k * C(n-1, k-1) + k * C(n-1, k) == n * C(n-1, k-1)
        lemma_mul_is_distributive_add(k as int, x as int, binom(prev, k) as int);
        lemma_mul_is_distributive_add_other_way(x as int, k as int, (n - k) as int);
        // (n-k+1) * C(n, k-1) == (n-k+1) * C(n-1, k-2) + (n-k+1) * C(n-1, k-1)
        //                     == n * C(n-1, k-1)
        lemma_mul_is_distributive_add(
            (n - k + 1) as int,
            binom(prev, (k - 2) as nat) as int,
            x as int,
        );
        lemma_mul_is_distributive_add_other_way(x as int, (k - 1) as int, (n - k + 1) as int);
    }
}

/// Returns the row `C(n, 0), C(n, 1), ..., C(n, n)` of Pascal's triangle.
/// Each entry follows from the previous one by the multiplicative
/// recurrence `C(n, k) == C(n, k - 1) * (n - k + 1) / k`, computed with a
/// 128-bit intermediate so that no partial product overflows; the caller
/// guarantees that the entries themselves fit in 64 bits.
pub fn chooses(n: u64) -> (row: Vec<u64>)
    requires
        forall|k: nat| k <= n ==> #[trigger] binom(n as nat, k) <= u64::MAX,
    ensures
        row@.len() == n + 1,
        forall|k: int| 0 <= k <= n ==> row@[k] == binom(n as nat, k as nat),
{
    let mut ans: Vec<u64> = Vec::new();
    let mut current_choose: u64 = 1;
    ans.push(current_choose);
    if n == 0 {
        return ans;
    }

    let mut k: u128 = 1;
    while k <= n as u128
        invariant
            1 <= k <= n as int + 1,
            ans@.len() == k,
            current_choose == binom(n as nat, (k - 1) as nat),
            forall|i: int| 0 <= i < k ==> ans@[i] == binom(n as nat, i as nat),
            forall|k2: nat| k2 <= n ==> #[trigger] binom(n as nat, k2) <= u64::MAX,
        decreases n as int + 1 - k as int,
    {
        proof {
            lemma_binom_absorption(n as nat, k as nat);
            lemma_mul_upper_bound(
                current_choose as int,
                u64::MAX as int,
                (n as int - k as int + 1),
                u64::MAX as int,
            );
            lemma_div_multiples_vanish(binom(n as nat, k as nat) as int, k as int);
        }
        let ghost cur0 = current_choose as int;
        let ghost kk = k as int;
        let numerator: u128 = current_choose as u128 * (n as u128 - k + 1);
        proof {
            lemma_mul_is_commutative(cur0, n as int - kk + 1);
            assert(numerator == kk * (binom(n as nat, kk as nat) as int));
        }
        let denominator: u128 = k;
        current_choose = (numerator / denominator) as u64;
        ans.push(current_choose);
        k = k + 1;
    }
    ans
}

/// The sum of the first `i + 1` entries of row `n` of Pascal's triangle.
pub open spec fn row_sum(n: nat, i: nat) -> nat
    decreases i,
{
    if i == 0 {
        binom(n, 0)
    } else {
        row_sum(n, (i - 1) as nat) + binom(n, i)
    }
}

/// Splitting a partial row sum along Pascal's rule: a partial sum of row
/// `n` is the same partial sum of row `n - 1` plus that sum shifted by
/// one entry.
proof fn lemma_row_sum_split(n: nat, i: nat)
    requires
        n >= 1,
        1 <= i <= n,
    ensures
        row_sum(n, i) == row_sum((n - 1) as nat, i) + row_sum((n - 1) as nat, (i - 1) as nat),
    decreases i,
{
    reveal_with_fuel(binom, 2);
    reveal_with_fuel(row_sum, 3);
    if i > 1 {
        lemma_row_sum_split(n, (i - 1) as nat);
    }
}

/// One full row of Pascal's triangle sums to a power of two:
/// `C(n, 0) + ... + C(n, n) == 2^n`.
pub proof fn lemma_row_sum_pow2(n: nat)
    ensures
        row_sum(n, n) == pow2(n),
    decreases n,
{
    if n >= 1 {
        let m = (n - 1) as nat;
        lemma_row_sum_pow2(m);
        lemma_row_sum_split(n, n);
        assert(binom(m, n) == 0);
        assert(row_sum(m, n) == row_sum(m, m) + binom(m, n));
    }
}

/// A prefix of a row of binomial coefficients sums to the matching
/// partial row sum.
proof fn lemma_sum_prefix(row: Seq<u64>, n: nat, i: nat)
    requires
        row.len() == n + 1,
        i <= n,
        forall|k: int| 0 <= k <= n ==> row[k] == binom(n, k as nat),
    ensures
        sum_of(row.take(i as int + 1)) == row_sum(n, i),
    decreases i,
{
    if i == 0 {
        assert(row.take(1).drop_last() =~= row.take(0));
        assert(sum_of(row.take(0)) == 0);
    } else {
        lemma_sum_prefix(row, n, (i - 1) as nat);
        assert(row.take(i as int + 1).drop_last() =~= row.take(i as int));
    }
}

/// The entries of the row returned by `chooses` sum to two to the row
/// index: `sum(chooses(n)) == 2^n`.
pub proof fn lemma_chooses_sum(row: Seq<u64>, n: nat)
    requires
        row.len() == n + 1,
        forall|k: int| 0 <= k <= n ==> row[k] == binom(n, k as nat),
    ensures
        sum_of(row) == pow2(n),
{
    lemma_sum_prefix(row, n, n);
    lemma_row_sum_pow2(n);
    assert(row.take(n as int + 1) =~= row);
}

} // verus!
