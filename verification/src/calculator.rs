//! Arithmetic on 32-bit signed integers.
//!
//! Sums, differences and products wrap modulo 2^32; division truncates toward
//! zero and reports a zero divisor as an error value.

use vstd::math::abs;
use vstd::prelude::*;

verus! {

/// The 32-bit signed integer that is congruent to `x` modulo 2^32.
pub open spec fn wrap_i32(x: int) -> int {
    let r = x % 0x1_0000_0000;
    if r >= 0x8000_0000 {
        r - 0x1_0000_0000
    } else {
        r
    }
}

/// The quotient of `a` by `b` rounded toward zero.
pub open spec fn truncating_quotient(a: int, b: int) -> int
    recommends
        b != 0,
{
    let magnitude = (abs(a) / abs(b)) as int;
    if (a >= 0) == (b > 0) {
        magnitude
    } else {
        -magnitude
    }
}

/// Whether `q` divides `a` by `b` with rounding toward zero: the remainder
/// that `q` leaves is smaller in magnitude than `b`, and is zero or has the
/// sign of `a`.
pub open spec fn rounds_toward_zero(a: int, b: int, q: int) -> bool {
    let r = a - q * b;
    abs(r) < abs(b) && (r == 0 || (r > 0) == (a > 0))
}

/// The text of the one error that [`divide`] reports.
pub open spec fn division_by_zero() -> Seq<char> {
    "Cannot divide by zero"@
}

/// Adds two numbers; the sum wraps modulo 2^32.
pub fn add(a: i32, b: i32) -> (sum: i32)
    ensures
        sum == wrap_i32(a + b),
{
    a.wrapping_add(b)
}

/// Subtracts `b` from `a`; the difference wraps modulo 2^32.
pub fn subtract(a: i32, b: i32) -> (difference: i32)
    ensures
        difference == wrap_i32(a - b),
{
    a.wrapping_sub(b)
}

/// Multiplies two numbers; the product wraps modulo 2^32.
pub fn multiply(a: i32, b: i32) -> (product: i32)
    ensures
        product == wrap_i32(a * b),
{
    a.wrapping_mul(b)
}

/// Divides `a` by `b`, rounding toward zero.
///
/// A zero divisor gives the error [`division_by_zero`], and nothing else gives
/// an error. The one quotient that no `i32` holds, that of `i32::MIN` by `-1`,
/// wraps like the other operations do.
pub fn divide(a: i32, b: i32) -> (quotient: Result<i32, String>)
    ensures
        b == 0 ==> quotient is Err && quotient->Err_0@ == division_by_zero(),
        b != 0 ==> quotient is Ok && quotient->Ok_0 == wrap_i32(
            truncating_quotient(a as int, b as int),
        ),
        b != 0 && !(a == i32::MIN && b == -1) ==> quotient->Ok_0 == truncating_quotient(
            a as int,
            b as int,
        ) && rounds_toward_zero(a as int, b as int, quotient->Ok_0 as int),
        a == i32::MIN && b == -1 ==> quotient->Ok_0 == i32::MIN,
{
    proof {
        if b != 0 {
            lemma_truncating_quotient_rounds_toward_zero(a as int, b as int);
        }
    }
    if b == 0 {
        Err("Cannot divide by zero".to_string())
    } else if a == i32::MIN && b == -1 {
        proof {
            lemma_quotient_of_min_by_minus_one();
        }
        Ok(i32::MIN)
    } else {
        let q: i32 = a / b;
        proof {
            lemma_quotient_fits(a, b);
            if b < 0 {
                lemma_negative_divisor(abs(a as int) as int, abs(b as int) as int);
            }
        }
        Ok(q)
    }
}

/// A value that an `i32` holds is left as it is by [`wrap_i32`].
pub proof fn lemma_wrap_i32_fits(x: int)
    requires
        i32::MIN <= x <= i32::MAX,
    ensures
        wrap_i32(x) == x,
{
}

/// Whatever `x` is, an `i32` holds [`wrap_i32`] of it, and the two differ by a
/// multiple of 2^32.
pub proof fn lemma_wrap_i32_congruent(x: int)
    ensures
        i32::MIN <= wrap_i32(x) <= i32::MAX,
        (x - wrap_i32(x)) % 0x1_0000_0000 == 0,
{
}

/// Every truncating quotient of two `i32` values is itself an `i32`, but for
/// that of `i32::MIN` by `-1`.
pub proof fn lemma_quotient_fits(a: i32, b: i32)
    requires
        b != 0,
        !(a == i32::MIN && b == -1),
    ensures
        i32::MIN <= truncating_quotient(a as int, b as int) <= i32::MAX,
        wrap_i32(truncating_quotient(a as int, b as int)) == truncating_quotient(
            a as int,
            b as int,
        ),
{
    lemma_magnitude(abs(a as int) as int, abs(b as int) as int);
}

/// The quotient of `i32::MIN` by `-1` is 2^31, which wraps to `i32::MIN`.
pub proof fn lemma_quotient_of_min_by_minus_one()
    ensures
        truncating_quotient(i32::MIN as int, -1) == 0x8000_0000,
        wrap_i32(truncating_quotient(i32::MIN as int, -1)) == i32::MIN,
{
    assert(0x8000_0000int / 1 == 0x8000_0000) by (nonlinear_arith);
}

/// The truncating quotient rounds toward zero, and no other number does.
pub proof fn lemma_truncating_quotient_rounds_toward_zero(a: int, b: int)
    requires
        b != 0,
    ensures
        rounds_toward_zero(a, b, truncating_quotient(a, b)),
        forall|q: int| rounds_toward_zero(a, b, q) ==> q == truncating_quotient(a, b),
{
    lemma_truncating_quotient_remainder(a, b);
    let t = truncating_quotient(a, b);
    assert forall|q: int| rounds_toward_zero(a, b, q) implies q == t by {
        assert(q == t) by (nonlinear_arith)
            requires
                b != 0,
                rounds_toward_zero(a, b, q),
                rounds_toward_zero(a, b, t),
        ;
    }
}

/// The remainder that the truncating quotient leaves.
proof fn lemma_truncating_quotient_remainder(a: int, b: int)
    requires
        b != 0,
    ensures
        rounds_toward_zero(a, b, truncating_quotient(a, b)),
{
    let m = abs(a) as int;
    let d = abs(b) as int;
    lemma_magnitude(m, d);
    let q = m / d;
    assert(truncating_quotient(a, b) * b == if a >= 0 { q * d } else { -(q * d) })
        by (nonlinear_arith)
        requires
            q == abs(a) / abs(b),
            d == abs(b),
            b != 0,
    ;
}

/// Of a dividend that is not negative, the quotient by `-d` is the negated
/// quotient by `d`.
proof fn lemma_negative_divisor(m: int, d: int)
    requires
        m >= 0,
        d > 0,
    ensures
        m / (-d) == -(m / d),
{
    let n = -d;
    let (q, r) = (m / d, m % d);
    let (p, s) = (m / n, m % n);
    assert(m == d * q + r && 0 <= r < d && m == n * p + s && 0 <= s < d) by (nonlinear_arith)
        requires
            d > 0,
            n == -d,
            q == m / d,
            r == m % d,
            p == m / n,
            s == m % n,
    ;
    assert(p == -q) by (nonlinear_arith)
        requires
            d > 0,
            n == -d,
            d * q + r == n * p + s,
            -d < s - r < d,
    ;
}

/// Of a dividend that is not negative and a positive divisor: the quotient is
/// at most the dividend, at most half of it where the divisor is 2 or more, and
/// leaves a remainder below the divisor.
proof fn lemma_magnitude(m: int, d: int)
    requires
        m >= 0,
        d > 0,
    ensures
        0 <= m / d <= m,
        0 <= m - (m / d) * d < d,
        d >= 2 ==> m / d <= m / 2,
{
    vstd::arithmetic::div_mod::lemma_fundamental_div_mod(m, d);
    vstd::arithmetic::div_mod::lemma_div_pos_is_pos(m, d);
    vstd::arithmetic::div_mod::lemma_mod_bound(m, d);
    assert(0 <= m / d <= m && (d >= 2 ==> 2 * (m / d) <= m)) by (nonlinear_arith)
        requires
            m == d * (m / d) + m % d,
            0 <= m % d < d,
            0 <= m / d,
            d > 0,
            m >= 0,
    ;
    assert((m / d) * d == d * (m / d)) by (nonlinear_arith);
}

} // verus!
