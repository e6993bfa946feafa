//! Scalar utilities: capitalization, array summation, power-of-three
//! search, and greatest common divisor.

use vstd::prelude::*;

verus! {

/// The sum of a sequence of unsigned integers, accumulated left to right.
pub open spec fn sum_of(s: Seq<u64>) -> int
    decreases s.len(),
{
    if s.len() == 0 {
        0
    } else {
        sum_of(s.drop_last()) + s.last()
    }
}

/// Appending one element to a prefix adds exactly that element to its sum.
proof fn lemma_sum_take_succ(s: Seq<u64>, i: int)
    requires
        0 <= i < s.len(),
    ensures
        sum_of(s.take(i + 1)) == sum_of(s.take(i)) + s[i],
{
    assert(s.take(i + 1).drop_last() =~= s.take(i));
}

/// A prefix of a sequence of unsigned integers never sums to more than the
/// whole sequence.
proof fn lemma_sum_take_bound(s: Seq<u64>, i: int)
    requires
        0 <= i <= s.len(),
    ensures
        sum_of(s.take(i)) <= sum_of(s),
    decreases s.len() - i,
{
    if i == s.len() {
        assert(s.take(i) =~= s);
    } else {
        lemma_sum_take_succ(s, i);
        lemma_sum_take_bound(s, i + 1);
    }
}

/// Returns the sum of the given array, starting from zero and accumulating
/// left to right. The caller guarantees the absence of integer overflow.
pub fn sum_array(input: &[u64]) -> (sum: u64)
    requires
        sum_of(input@) <= u64::MAX,
    ensures
        sum == sum_of(input@),
{
    let mut sum: u64 = 0;
    let mut i: usize = 0;
    while i < input.len()
        invariant
            0 <= i <= input@.len(),
            sum_of(input@) <= u64::MAX,
            sum == sum_of(input@.take(i as int)),
        decreases input@.len() - i,
    {
        proof {
            lemma_sum_take_succ(input@, i as int);
            lemma_sum_take_bound(input@, i + 1);
        }
        sum = sum + input[i];
        i = i + 1;
    }
    proof {
        assert(input@.take(input@.len() as int) =~= input@);
    }
    sum
}

/// The uppercase form of a character: ASCII lowercase letters move down
/// by the distance between the two alphabets, everything else is itself.
pub open spec fn to_upper(c: char) -> char {
    if 'a' <= c && c <= 'z' {
        ((c as u8 - 32) as u8) as char
    } else {
        c
    }
}

fn upper_char(c: char) -> (r: char)
    ensures
        r == to_upper(c),
{
    if 'a' <= c && c <= 'z' {
        ((c as u8) - 32) as char
    } else {
        c
    }
}

/// Relies on `String::push`: appends exactly one character at the end of
/// the string.
#[verifier::external_body]
fn push_char(s: &mut String, c: char)
    ensures
        final(s)@ == old(s)@.push(c),
{
    s.push(c);
}

/// Capitalizes ASCII letters, leaving all other characters intact. The
/// result has exactly one character for each input character.
pub fn capitalize(input: String) -> (r: String)
    ensures
        r@.len() == input@.len(),
        forall|i: int| 0 <= i < input@.len() ==> r@[i] == to_upper(input@[i]),
{
    let mut out = String::new();
    let n = input.as_str().unicode_len();
    let mut i: usize = 0;
    while i < n
        invariant
            0 <= i <= n,
            n == input@.len(),
            out@.len() == i,
            forall|j: int| 0 <= j < i ==> out@[j] == to_upper(input@[j]),
        decreases n - i,
    {
        let c = input.as_str().get_char(i);
        push_char(&mut out, upper_char(c));
        i = i + 1;
    }
    out
}

/// The m-th power of three.
pub open spec fn pow3(m: nat) -> nat
    decreases m,
{
    if m == 0 {
        1
    } else {
        3 * pow3((m - 1) as nat)
    }
}

/// The largest power of three that fits in 64 bits: `pow3(40)`.
pub const MAX_POW3: u64 = 12157665459056928801;

/// `pow3(40)` is the named constant `MAX_POW3`.
pub proof fn lemma_pow3_forty()
    ensures
        pow3(40) == MAX_POW3,
{
    reveal_with_fuel(pow3, 41);
}

/// Powers of three grow with the exponent.
pub proof fn lemma_pow3_increases(i: nat, j: nat)
    requires
        i <= j,
    ensures
        pow3(i) <= pow3(j),
    decreases j,
{
    if i < j {
        lemma_pow3_increases(i, (j - 1) as nat);
    }
}

/// Given a non-negative integer `n`, returns the smallest integer of the
/// form `3^m` that is greater than or equal to `n`. For instance,
/// `up3(6) == 9`, `up3(9) == 9`, `up3(10) == 27`. The caller guarantees
/// that the answer fits in 64 bits, i.e. that `n` is at most `pow3(40)`.
pub fn up3(n: u64) -> (r: u64)
    requires
        n <= MAX_POW3,
    ensures
        r >= n,
        exists|m: nat| r == #[trigger] pow3(m) && (m == 0 || pow3((m - 1) as nat) < n),
{
    let mut power_of_three: u64 = 1;
    let ghost mut m: nat = 0;

    while power_of_three < n
        invariant
            n <= MAX_POW3,
            power_of_three >= 1,
            power_of_three == pow3(m),
            m == 0 || pow3((m - 1) as nat) < n,
        decreases (if power_of_three < n { n - power_of_three } else { 0int }),
    {
        proof {
            lemma_pow3_forty();
            if m >= 40 {
                lemma_pow3_increases(40, m);
            }
            assert(m < 40);
            lemma_pow3_increases(m + 1, 40);
        }
        power_of_three = power_of_three * 3;
        proof {
            m = m + 1;
        }
    }
    power_of_three
}

/// The greatest common divisor of two non-negative integers, by the
/// Euclidean recurrence: `spec_gcd(a, 0) == a`, and otherwise the divisor
/// steps to the remainder.
pub open spec fn spec_gcd(a: nat, b: nat) -> nat
    decreases b,
{
    if b == 0 {
        a
    } else {
        spec_gcd(b, (a % b) as nat)
    }
}

/// The greatest common divisor of anything and zero is that thing; in
/// particular `spec_gcd(0, 0) == 0`.
pub proof fn lemma_gcd_zero(a: nat)
    ensures
        spec_gcd(a, 0) == a,
{
}

/// The greatest common divisor does not depend on the order of its
/// arguments.
pub proof fn lemma_gcd_symmetric(a: nat, b: nat)
    ensures
        spec_gcd(a, b) == spec_gcd(b, a),
{
    if b == 0 && a == 0 {
    } else if b == 0 {
        assert(spec_gcd(b, a) == spec_gcd(a, (b % a) as nat));
        assert(b % a == 0);
    } else if a == 0 {
        assert(spec_gcd(a, b) == spec_gcd(b, (a % b) as nat));
        assert(a % b == 0);
    } else if a == b {
        assert(a % b == 0);
    } else if a < b {
        vstd::arithmetic::div_mod::lemma_small_mod(a, b);
        assert(spec_gcd(a, b) == spec_gcd(b, a));
    } else {
        vstd::arithmetic::div_mod::lemma_small_mod(b, a);
        assert(spec_gcd(b, a) == spec_gcd(a, b));
    }
}

/// Returns the greatest common divisor of two non-negative integers, by
/// the Euclidean algorithm on the larger operand first.
pub fn gcd(lhs: u64, rhs: u64) -> (g: u64)
    ensures
        g == spec_gcd(lhs as nat, rhs as nat),
{
    let mut tlhs = lhs;
    let mut trhs = rhs;

    if tlhs < trhs {
        let tmp = tlhs;
        tlhs = trhs;
        trhs = tmp;
        proof {
            lemma_gcd_symmetric(lhs as nat, rhs as nat);
        }
    }

    while trhs != 0
        invariant
            spec_gcd(tlhs as nat, trhs as nat) == spec_gcd(lhs as nat, rhs as nat),
        decreases trhs,
    {
        let temp = tlhs % trhs;
        tlhs = trhs;
        trhs = temp;
    }

    tlhs
}

} // verus!
