//! 2x2 integer matrix algebra: identity construction, matrix and vector
//! multiplication, fast (square-and-multiply) exponentiation, and the
//! Fibonacci numbers computed from powers of the matrix `[[1, 1], [1, 0]]`.

use vstd::arithmetic::mul::lemma_mul_is_associative;
use vstd::arithmetic::mul::lemma_mul_is_distributive_add;
use vstd::arithmetic::mul::lemma_mul_is_distributive_add_other_way;
use vstd::arithmetic::mul::lemma_mul_nonnegative;
use vstd::prelude::*;

verus! {

/// Mathematical model of a 2x2 matrix: four unbounded integer entries
/// laid out as `[[a, b], [c, d]]`.
pub ghost struct SpecMat2 {
    pub a: int,
    pub b: int,
    pub c: int,
    pub d: int,
}

/// Mathematical model of a 2x1 vector: two unbounded integer entries laid
/// out as `[a, b]`.
pub ghost struct SpecVec2 {
    pub a: int,
    pub b: int,
}

/// The 2x2 identity matrix `[[1, 0], [0, 1]]`.
pub open spec fn spec_identity() -> SpecMat2 {
    SpecMat2 { a: 1, b: 0, c: 0, d: 1 }
}

/// The standard 2x2 matrix product.
pub open spec fn spec_mat_mul(x: SpecMat2, y: SpecMat2) -> SpecMat2 {
    SpecMat2 {
        a: x.a * y.a + x.b * y.c,
        b: x.a * y.b + x.b * y.d,
        c: x.c * y.a + x.d * y.c,
        d: x.c * y.b + x.d * y.d,
    }
}

/// The standard application of a 2x2 matrix to a 2x1 vector.
pub open spec fn spec_mat_apply(m: SpecMat2, v: SpecVec2) -> SpecVec2 {
    SpecVec2 { a: m.a * v.a + m.b * v.b, b: m.c * v.a + m.d * v.b }
}

/// The n-th power of a 2x2 matrix; the zeroth power is the identity.
pub open spec fn spec_mat_pow(m: SpecMat2, n: nat) -> SpecMat2
    decreases n,
{
    if n == 0 {
        spec_identity()
    } else {
        spec_mat_mul(spec_mat_pow(m, (n - 1) as nat), m)
    }
}

/// All four entries of the matrix fit in an unsigned 64-bit field.
pub open spec fn mat_fits_u64(m: SpecMat2) -> bool {
    &&& 0 <= m.a <= u64::MAX
    &&& 0 <= m.b <= u64::MAX
    &&& 0 <= m.c <= u64::MAX
    &&& 0 <= m.d <= u64::MAX
}

/// Both entries of the vector fit in an unsigned 64-bit field.
pub open spec fn vec_fits_u64(v: SpecVec2) -> bool {
    &&& 0 <= v.a <= u64::MAX
    &&& 0 <= v.b <= u64::MAX
}

/// 2x2 matrix of unsigned 64-bit entries, laid out as `[[a, b], [c, d]]`.
#[derive(Debug, Clone, Copy, PartialEq, Eq, Structural)]
pub struct Mat2 {
    pub a: u64,
    pub b: u64,
    pub c: u64,
    pub d: u64,
}

/// 2x1 vector of unsigned 64-bit entries, laid out as `[a, b]`.
#[derive(Debug, Clone, Copy, PartialEq, Eq, Structural)]
pub struct Vec2 {
    pub a: u64,
    pub b: u64,
}

impl View for Mat2 {
    type V = SpecMat2;

    open spec fn view(&self) -> SpecMat2 {
        SpecMat2 { a: self.a as int, b: self.b as int, c: self.c as int, d: self.d as int }
    }
}

impl View for Vec2 {
    type V = SpecVec2;

    open spec fn view(&self) -> SpecVec2 {
        SpecVec2 { a: self.a as int, b: self.b as int }
    }
}

/// Multiplying two matrices with non-negative entries gives non-negative
/// partial products everywhere.
proof fn lemma_mul_entries_nonneg(x: SpecMat2, y: SpecMat2)
    requires
        mat_fits_u64(x),
        mat_fits_u64(y),
    ensures
        x.a * y.a >= 0,
        x.b * y.c >= 0,
        x.a * y.b >= 0,
        x.b * y.d >= 0,
        x.c * y.a >= 0,
        x.d * y.c >= 0,
        x.c * y.b >= 0,
        x.d * y.d >= 0,
{
    lemma_mul_nonnegative(x.a, y.a);
    lemma_mul_nonnegative(x.b, y.c);
    lemma_mul_nonnegative(x.a, y.b);
    lemma_mul_nonnegative(x.b, y.d);
    lemma_mul_nonnegative(x.c, y.a);
    lemma_mul_nonnegative(x.d, y.c);
    lemma_mul_nonnegative(x.c, y.b);
    lemma_mul_nonnegative(x.d, y.d);
}

impl Mat2 {
    /// Creates an identity matrix.
    pub fn new() -> (r: Self)
        ensures
            r@ == spec_identity(),
    {
        Self { a: 1, b: 0, c: 0, d: 1 }
    }

    /// The standard 2x2 matrix product, computed with 128-bit
    /// intermediates. The caller guarantees that each entry of the final
    /// product fits in 64 bits.
    pub fn mul(self, rhs: Mat2) -> (r: Mat2)
        requires
            mat_fits_u64(spec_mat_mul(self@, rhs@)),
        ensures
            r@ == spec_mat_mul(self@, rhs@),
    {
        proof {
            lemma_mul_entries_nonneg(self@, rhs@);
        }
        let new_a = (self.a as u128 * rhs.a as u128) + (self.b as u128 * rhs.c as u128);
        let new_b = (self.a as u128 * rhs.b as u128) + (self.b as u128 * rhs.d as u128);
        let new_c = (self.c as u128 * rhs.a as u128) + (self.d as u128 * rhs.c as u128);
        let new_d = (self.c as u128 * rhs.b as u128) + (self.d as u128 * rhs.d as u128);
        Mat2 { a: new_a as u64, b: new_b as u64, c: new_c as u64, d: new_d as u64 }
    }

    /// Applies the matrix to a vector, computed in the native 64-bit
    /// width. The caller guarantees that both entries of the result fit
    /// in 64 bits.
    pub fn apply_to_vector(self, rhs: Vec2) -> (r: Vec2)
        requires
            vec_fits_u64(spec_mat_apply(self@, rhs@)),
        ensures
            r@ == spec_mat_apply(self@, rhs@),
    {
        proof {
            lemma_mul_nonnegative(self@.a, rhs@.a);
            lemma_mul_nonnegative(self@.b, rhs@.b);
            lemma_mul_nonnegative(self@.c, rhs@.a);
            lemma_mul_nonnegative(self@.d, rhs@.b);
        }
        let a = self.a * rhs.a + self.b * rhs.b;
        let b = self.c * rhs.a + self.d * rhs.b;
        Vec2 { a, b }
    }
}

impl Vec2 {
    /// Gets the upper value of the vector: the larger of its two entries.
    pub fn get_upper(self) -> (r: u64)
        ensures
            r == (if self@.a >= self@.b {
                self@.a
            } else {
                self@.b
            }),
    {
        if self.a >= self.b {
            self.a
        } else {
            self.b
        }
    }
}

/// Multiplying by the identity on the left changes nothing.
pub proof fn lemma_mat_mul_identity_left(x: SpecMat2)
    ensures
        spec_mat_mul(spec_identity(), x) == x,
{
}

/// Multiplying by the identity on the right changes nothing.
pub proof fn lemma_mat_mul_identity_right(x: SpecMat2)
    ensures
        spec_mat_mul(x, spec_identity()) == x,
{
}

/// One entry of a triple matrix product, grouped either way: the row
/// `(p, q)` of the left factor, the middle factor `[[r11, r12], [r21,
/// r22]]`, and the column `(s, t)` of the right factor associate.
proof fn lemma_row_column_associative(
    p: int,
    q: int,
    r11: int,
    r12: int,
    r21: int,
    r22: int,
    s: int,
    t: int,
)
    ensures
        (p * r11 + q * r21) * s + (p * r12 + q * r22) * t == p * (r11 * s + r12 * t) + q * (r21 * s
            + r22 * t),
{
    lemma_mul_is_distributive_add_other_way(s, p * r11, q * r21);
    lemma_mul_is_distributive_add_other_way(t, p * r12, q * r22);
    lemma_mul_is_distributive_add(p, r11 * s, r12 * t);
    lemma_mul_is_distributive_add(q, r21 * s, r22 * t);
    lemma_mul_is_associative(p, r11, s);
    lemma_mul_is_associative(p, r12, t);
    lemma_mul_is_associative(q, r21, s);
    lemma_mul_is_associative(q, r22, t);
}

/// The 2x2 matrix product is associative.
pub proof fn lemma_mat_mul_associative(x: SpecMat2, y: SpecMat2, z: SpecMat2)
    ensures
        spec_mat_mul(spec_mat_mul(x, y), z) == spec_mat_mul(x, spec_mat_mul(y, z)),
{
    lemma_row_column_associative(x.a, x.b, y.a, y.b, y.c, y.d, z.a, z.c);
    lemma_row_column_associative(x.a, x.b, y.a, y.b, y.c, y.d, z.b, z.d);
    lemma_row_column_associative(x.c, x.d, y.a, y.b, y.c, y.d, z.a, z.c);
    lemma_row_column_associative(x.c, x.d, y.a, y.b, y.c, y.d, z.b, z.d);
}

/// The zeroth power of any matrix is the identity.
pub proof fn lemma_mat_pow_zero(m: SpecMat2)
    ensures
        spec_mat_pow(m, 0) == spec_identity(),
{
}

/// The first power of any matrix is the matrix itself.
pub proof fn lemma_mat_pow_one(m: SpecMat2)
    ensures
        spec_mat_pow(m, 1) == m,
{
    lemma_mat_pow_zero(m);
    lemma_mat_mul_identity_left(m);
}

/// Powers of one matrix compose additively: the power at `s + t` is the
/// product of the powers at `s` and at `t`.
pub proof fn lemma_mat_pow_add(m: SpecMat2, s: nat, t: nat)
    ensures
        spec_mat_pow(m, s + t) == spec_mat_mul(spec_mat_pow(m, s), spec_mat_pow(m, t)),
    decreases t,
{
    if t == 0 {
        lemma_mat_mul_identity_right(spec_mat_pow(m, s));
    } else {
        lemma_mat_pow_add(m, s, (t - 1) as nat);
        lemma_mat_mul_associative(spec_mat_pow(m, s), spec_mat_pow(m, (t - 1) as nat), m);
    }
}

/// The k-th power of two.
pub open spec fn pow2(k: nat) -> nat
    decreases k,
{
    if k == 0 {
        1
    } else {
        2 * pow2((k - 1) as nat)
    }
}

/// Powers of two grow with the exponent.
proof fn lemma_pow2_monotonic(i: nat, j: nat)
    requires
        i <= j,
    ensures
        pow2(i) <= pow2(j),
    decreases j,
{
    if i < j {
        lemma_pow2_monotonic(i, (j - 1) as nat);
    }
}

/// The smallest power of two strictly greater than `n`. Square-and-multiply
/// exponentiation with exponent `n` never forms a power of the base beyond
/// this bound.
pub open spec fn next_pow2(n: nat) -> nat
    decreases n,
{
    if n == 0 {
        1
    } else {
        2 * next_pow2(n / 2)
    }
}

/// `next_pow2(n)` lies strictly above `n`.
pub proof fn lemma_next_pow2_above(n: nat)
    ensures
        next_pow2(n) > n,
    decreases n,
{
    if n > 0 {
        lemma_next_pow2_above(n / 2);
    }
}

/// `next_pow2(n)` is a power of two; returns its exponent.
proof fn lemma_next_pow2_pow(n: nat) -> (k: nat)
    ensures
        next_pow2(n) == pow2(k),
    decreases n,
{
    if n == 0 {
        0
    } else {
        let k0 = lemma_next_pow2_pow(n / 2);
        k0 + 1
    }
}

/// A power of two at most `n` doubles to a power of two at most
/// `next_pow2(n)`.
proof fn lemma_pow2_step_bound(j: nat, n: nat)
    requires
        pow2(j) <= n,
    ensures
        2 * pow2(j) <= next_pow2(n),
{
    let k = lemma_next_pow2_pow(n);
    lemma_next_pow2_above(n);
    if k <= j {
        lemma_pow2_monotonic(k, j);
        assert(false);
    }
    lemma_pow2_monotonic(j + 1, k);
}

impl Mat2 {
    /// Calculates the power of the matrix by binary (square-and-multiply)
    /// exponentiation; the zeroth power is the identity. The caller
    /// guarantees that every power of the matrix the algorithm can form —
    /// any exponent up to `next_pow2(power)` — fits in 64 bits.
    pub fn power(self, power: u64) -> (r: Mat2)
        requires
            forall|i: nat|
                i <= next_pow2(power as nat) ==> mat_fits_u64(#[trigger] spec_mat_pow(self@, i)),
        ensures
            r@ == spec_mat_pow(self@, power as nat),
    {
        if power == 0 {
            return Mat2::new();
        }
        let mut base = self;
        let mut result = Mat2::new();
        let mut p = power;
        let ghost mut r_exp: nat = 0;
        let ghost mut j: nat = 0;
        proof {
            lemma_mat_pow_one(self@);
        }

        while p > 0
            invariant
                base@ == spec_mat_pow(self@, pow2(j)),
                result@ == spec_mat_pow(self@, r_exp),
                r_exp + pow2(j) * p == power,
                forall|i: nat|
                    i <= next_pow2(power as nat) ==> mat_fits_u64(
                        #[trigger] spec_mat_pow(self@, i),
                    ),
            decreases p,
        {
            let ghost b = pow2(j);
            let ghost p0 = p as nat;
            let ghost half = p0 / 2;
            proof {
                assert(b <= b * p0) by (nonlinear_arith)
                    requires
                        1 <= p0,
                        0 <= b,
                ;
                lemma_next_pow2_above(power as nat);
            }
            if p % 2 == 1 {
                proof {
                    lemma_mat_pow_add(self@, r_exp, b);
                }
                result = result.mul(base);
                proof {
                    r_exp = r_exp + b;
                }
            }
            p = p / 2;
            proof {
                lemma_pow2_step_bound(j, power as nat);
                lemma_mat_pow_add(self@, b, b);
            }
            base = base.mul(base);
            proof {
                j = j + 1;
                let ghost rem = p0 % 2;
                lemma_mul_is_distributive_add(b as int, 2 * (half as int), rem as int);
                lemma_mul_is_associative(b as int, 2, half as int);
                assert(b * p0 == b * (2 * half) + b * rem);
                assert(rem == 1 ==> b * rem == b) by (nonlinear_arith);
                assert(rem == 0 ==> b * rem == 0) by (nonlinear_arith);
            }
        }
        result
    }
}

/// The Fibonacci numbers in the convention that starts from zero:
/// `0, 1, 1, 2, 3, 5, 8, ...`.
pub open spec fn spec_fib(n: nat) -> nat
    decreases n,
{
    if n == 0 {
        0
    } else if n == 1 {
        1
    } else {
        spec_fib((n - 1) as nat) + spec_fib((n - 2) as nat)
    }
}

/// The matrix `[[1, 1], [1, 0]]` whose powers hold the Fibonacci numbers.
pub open spec fn fib_matrix() -> SpecMat2 {
    SpecMat2 { a: 1, b: 1, c: 1, d: 0 }
}

/// Fibonacci numbers grow with the index.
proof fn lemma_fib_monotonic(i: nat, j: nat)
    requires
        i <= j,
    ensures
        spec_fib(i) <= spec_fib(j),
    decreases j,
{
    if i < j && j >= 2 {
        lemma_fib_monotonic(i, (j - 1) as nat);
    }
}

/// The n-th power of the Fibonacci matrix holds the Fibonacci numbers of
/// index `n + 1` down to `n - 1`.
proof fn lemma_fib_matrix_pow(n: nat)
    requires
        n >= 1,
    ensures
        spec_mat_pow(fib_matrix(), n) == (SpecMat2 {
            a: spec_fib(n + 1) as int,
            b: spec_fib(n) as int,
            c: spec_fib(n) as int,
            d: spec_fib((n - 1) as nat) as int,
        }),
    decreases n,
{
    if n == 1 {
        lemma_mat_pow_one(fib_matrix());
    } else {
        lemma_fib_matrix_pow((n - 1) as nat);
    }
}

/// Calculates the Fibonacci number in the convention that starts from one:
/// the result for `n` is `spec_fib(n + 1)`, so the results for
/// `n = 0, 1, 2, 3, ...` are `1, 1, 2, 3, ...`. The caller guarantees
/// that every Fibonacci number the algorithm can form fits in 64 bits.
pub fn fibonacci(n: u64) -> (r: u64)
    requires
        spec_fib(next_pow2(n as nat) + 1) <= u64::MAX,
    ensures
        r == spec_fib(n as nat + 1),
{
    let base = Mat2 { a: 1, b: 1, c: 1, d: 0 };
    proof {
        assert(base@ == fib_matrix());
        lemma_next_pow2_above(n as nat);
        assert forall|i: nat| i <= next_pow2(n as nat) implies mat_fits_u64(
            #[trigger] spec_mat_pow(fib_matrix(), i),
        ) by {
            if i >= 1 {
                lemma_fib_matrix_pow(i);
                lemma_fib_monotonic(i + 1, next_pow2(n as nat) + 1);
                lemma_fib_monotonic(i, i + 1);
                lemma_fib_monotonic((i - 1) as nat, i);
            }
        }
    }
    let powered = base.power(n);
    let start = Vec2 { a: 1, b: 0 };
    let applied = powered.apply_to_vector(start);
    proof {
        if n >= 1 {
            lemma_fib_matrix_pow(n as nat);
            lemma_fib_monotonic(n as nat, n as nat + 1);
        }
    }
    applied.get_upper()
}

} // verus!
