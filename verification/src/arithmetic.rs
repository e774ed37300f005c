//! Lossless arithmetic helpers and the lossless-arithmetic trait contract.
//!
//! "Lossless" means an operation either returns the exact mathematical result
//! or reports, with `None`, that it cannot; it never truncates, wraps or
//! rounds.

use vstd::prelude::*;
use vstd::arithmetic::div_mod::*;
use vstd::arithmetic::mul::*;

verus! {

/// Whether an integer fits an `i64`.
pub open spec fn fits_i64(x: int) -> bool {
    i64::MIN <= x <= i64::MAX
}

/// The exact result as an `i64`, or `None` when it does not fit.
pub open spec fn exact_i64(x: int) -> Option<i64> {
    if fits_i64(x) {
        Some(x as i64)
    } else {
        None
    }
}

/// Lossless multiplication that detects overflow.
/// Returns `None` if the result does not fit an `i64`.
pub fn checked_mul_i64(a: i64, b: i64) -> (r: Option<i64>)
    ensures
        r == exact_i64(a * b),
{
    a.checked_mul(b)
}

/// Lossless addition with overflow detection.
pub fn checked_add_i64(a: i64, b: i64) -> (r: Option<i64>)
    ensures
        r == exact_i64(a + b),
{
    a.checked_add(b)
}

/// Lossless subtraction with overflow detection.
pub fn checked_sub_i64(a: i64, b: i64) -> (r: Option<i64>)
    ensures
        r == exact_i64(a - b),
{
    a.checked_sub(b)
}

/// `b` divides `a`: some integer times `b` is `a`.
pub open spec fn divides(b: int, a: int) -> bool {
    exists|q: int| #[trigger] multiple(q, b) == a
}

/// `q * b`.
pub open spec fn multiple(q: int, b: int) -> int {
    q * b
}

/// Lossless integer division: `None` for a zero divisor, for a division
/// that is not exact, and for the one exact quotient that does not fit an
/// `i64` (`i64::MIN / -1`), so a `Some` is always the exact quotient.
pub fn checked_div_exact_i64(a: i64, b: i64) -> (r: Option<i64>)
    ensures
        r.is_some() <==> (b != 0 && divides(b as int, a as int) && fits_i64(a as int / b as int)),
        r matches Some(q) ==> q * b == a,
{
    if b == 0 {
        return None;
    }
    if a == i64::MIN && b == -1 {
        assert((i64::MIN as int) / (-1int) == 0x8000_0000_0000_0000int) by (nonlinear_arith);
        return None;
    }
    proof {
        lemma_truncated_division(a as int, b as int);
        lemma_exact_quotient_fits(a as int, b as int);
        if divides(b as int, a as int) {
            lemma_exact_quotient_is_div(a as int, b as int);
        }
    }
    match a.checked_rem(b) {
        Some(rem) => {
            if rem != 0 {
                return None;
            }
        },
        None => {
            return None;
        },
    }
    a.checked_div(b)
}

/// Returns `true` if `a + b` would not overflow.
pub fn can_add_i64(a: i64, b: i64) -> (r: bool)
    ensures
        r == fits_i64(a + b),
{
    checked_add_i64(a, b).is_some()
}

/// Returns `true` if `a * b` would not overflow.
pub fn can_multiply_i64(a: i64, b: i64) -> (r: bool)
    ensures
        r == fits_i64(a * b),
{
    checked_mul_i64(a, b).is_some()
}

/// An exact quotient of `i64` values fits an `i64`, except `i64::MIN / -1`.
proof fn lemma_exact_quotient_fits(x: int, d: int)
    requires
        d != 0,
        fits_i64(x),
        !(x == i64::MIN && d == -1),
    ensures
        forall|q: int| #[trigger] multiple(q, d) == x ==> fits_i64(q),
{
    assert forall|q: int| #[trigger] multiple(q, d) == x implies fits_i64(q) by {
        let ax = if x < 0 {
            -x
        } else {
            x
        };
        let aq = if q < 0 {
            -q
        } else {
            q
        };
        let ad = if d < 0 {
            -d
        } else {
            d
        };
        assert(aq * ad == ax) by (nonlinear_arith)
            requires
                q * d == x,
                aq == q || aq == -q,
                aq >= 0,
                ad == d || ad == -d,
                ad >= 0,
                ax == x || ax == -x,
                ax >= 0,
                (aq == q) == (q >= 0),
                (ad == d) == (d >= 0),
                (ax == x) == (x >= 0),
        ;
        assert(aq <= ax) by (nonlinear_arith)
            requires
                aq * ad == ax,
                ad >= 1,
                aq >= 0,
        ;
        if aq == ax && q > 0 && x == i64::MIN {
            assert(ad == 1) by (nonlinear_arith)
                requires
                    aq * ad == ax,
                    aq == ax,
                    ax > 0,
            ;
            assert(q * d == x);
            assert(d == -1);
        }
    }
}

/// An exact quotient is the spec quotient `x / d`.
proof fn lemma_exact_quotient_is_div(x: int, d: int)
    requires
        d != 0,
        divides(d, x),
    ensures
        multiple(x / d, d) == x,
{
    let q = choose|q: int| multiple(q, d) == x;
    lemma_fundamental_div_mod(x, d);
    let m = x % d;
    let k = x / d;
    assert(0 <= m < (if d < 0 { -d } else { d })) by (nonlinear_arith)
        requires
            d != 0,
            m == x % d,
    ;
    assert(k == q) by (nonlinear_arith)
        requires
            x == d * k + m,
            x == q * d,
            0 <= m,
            m < (if d < 0 { -d } else { d }),
            d != 0,
    ;
}

/// For a natural dividend and positive divisor, a zero remainder is exactly
/// divisibility, and the quotient is then exact.
proof fn lemma_nat_divides(x: int, d: int)
    requires
        x >= 0,
        d > 0,
    ensures
        (x % d == 0) == divides(d, x),
        x % d == 0 ==> (x / d) * d == x,
{
    lemma_fundamental_div_mod(x, d);
    lemma_mul_is_commutative(d, x / d);
    if x % d == 0 {
        assert((x / d) * d == x);
        assert(multiple(x / d, d) == x);
    }
    if divides(d, x) {
        let q = choose|q: int| multiple(q, d) == x;
        lemma_fundamental_div_mod_converse(x, d, q, 0);
    }
}

/// What `checked_rem` and `checked_div` compute on `x` and `d` (truncating
/// toward zero): a zero remainder means `d` divides `x`, and the quotient is
/// then exact.
proof fn lemma_truncated_division(x: int, d: int)
    requires
        d != 0,
    ensures
        ({
            let trunc = if x == 0 {
                0
            } else if x > 0 && d > 0 {
                x % d
            } else if x < 0 && d < 0 {
                ((x * -1) % (d * -1)) * -1
            } else if x < 0 {
                ((x * -1) % d) * -1
            } else {
                x % (d * -1)
            };
            (trunc == 0) == divides(d, x)
        }),
        divides(d, x) ==> ({
            let q = if x == 0 {
                0
            } else if x > 0 && d > 0 {
                x / d
            } else if x < 0 && d < 0 {
                ((x * -1) / (d * -1))
            } else if x < 0 {
                ((x * -1) / d) * -1
            } else {
                (x / (d * -1)) * -1
            };
            multiple(q, d) == x
        }),
{
    let ax = if x < 0 {
        -x
    } else {
        x
    };
    let ad = if d < 0 {
        -d
    } else {
        d
    };
    lemma_nat_divides(ax, ad);
    // `d` divides `x` exactly when `|d|` divides `|x|`.
    if divides(d, x) {
        let q = choose|q: int| multiple(q, d) == x;
        let w = if (x < 0) == (d < 0) {
            q
        } else {
            -q
        };
        assert(w * ad == ax) by (nonlinear_arith)
            requires
                q * d == x,
                ad == d || ad == -d,
                ad > 0,
                ax == x || ax == -x,
                ax >= 0,
                (ad == d) == (d > 0),
                (ax == x) == (x >= 0),
                w == (if (x < 0) == (d < 0) {
                    q
                } else {
                    -q
                }),
        ;
        assert(multiple(w, ad) == ax);
        assert(divides(ad, ax));
    }
    if divides(ad, ax) {
        let q = choose|q: int| multiple(q, ad) == ax;
        let w = if (x < 0) == (d < 0) {
            q
        } else {
            -q
        };
        assert(w * d == x) by (nonlinear_arith)
            requires
                q * ad == ax,
                ad == d || ad == -d,
                ad > 0,
                ax == x || ax == -x,
                (ad == d) == (d > 0),
                (ax == x) == (x >= 0),
                w == (if (x < 0) == (d < 0) {
                    q
                } else {
                    -q
                }),
        ;
        assert(multiple(w, d) == x);
        assert(divides(d, x));
    }
    if x == 0 {
        lemma_mul_basics(d);
        assert(multiple(0, d) == x);
    }
    if divides(d, x) && x != 0 {
        let q0 = ax / ad;
        assert(q0 * ad == ax);
        if x > 0 && d > 0 {
        } else if x < 0 && d < 0 {
            assert(q0 * d == x) by (nonlinear_arith)
                requires
                    q0 * ad == ax,
                    ad == -d,
                    ax == -x,
            ;
        } else if x < 0 {
            assert((q0 * -1) * d == x) by (nonlinear_arith)
                requires
                    q0 * ad == ax,
                    ad == d,
                    ax == -x,
            ;
        } else {
            assert((q0 * -1) * d == x) by (nonlinear_arith)
                requires
                    q0 * ad == ax,
                    ad == -d,
                    ax == x,
            ;
        }
    }
}

/// Lossless arithmetic on number-like types.
///
/// "Lossless" means the operation preserves the exact mathematical value with
/// no truncation, rounding, or loss of precision. Returning `None` is the
/// implementor's signal to the caller that a fallback strategy (symbolic,
/// bigint, error) is needed.
pub trait ArithmosLosslessArithmetic: Sized {
    /// Whether `self + other` can be performed without loss.
    spec fn addition_fits(&self, other: &Self) -> bool;

    /// `true` iff `self + other` can be performed without loss.
    fn can_add_lossless(&self, other: &Self) -> (r: bool)
        ensures
            r == self.addition_fits(other),
    ;

    /// `true` iff `self - other` can be performed without loss.
    ///
    /// Defaults to the addition predicate; a type with an asymmetric
    /// subtraction rule overrides it.
    fn can_subtract_lossless(&self, other: &Self) -> (r: bool)
        default_ensures
            r == self.addition_fits(other),
    {
        self.can_add_lossless(other)
    }

    /// `true` iff `self * other` can be performed without loss.
    fn can_multiply_lossless(&self, other: &Self) -> bool;

    /// `true` iff `self / other` can be performed without loss (exact
    /// division, no rounding).
    fn can_divide_lossless(&self, other: &Self) -> bool;

    /// Add two values losslessly.
    fn add_lossless(&self, other: &Self) -> Option<Self>;

    /// Subtract `other` from `self` losslessly.
    fn subtract_lossless(&self, other: &Self) -> Option<Self>;

    /// Multiply two values losslessly.
    fn multiply_lossless(&self, other: &Self) -> Option<Self>;

    /// Divide `self` by `other` losslessly. `None` for zero divisors and for
    /// non-exact division.
    fn divide_lossless(&self, other: &Self) -> Option<Self>;
}

impl ArithmosLosslessArithmetic for i64 {
    open spec fn addition_fits(&self, other: &i64) -> bool {
        fits_i64(*self + *other)
    }

    fn can_add_lossless(&self, other: &i64) -> (r: bool)
        ensures
            r == fits_i64(*self + *other),
    {
        can_add_i64(*self, *other)
    }

    /// Overrides the default: subtraction overflow is asymmetric from
    /// addition for `i64` (`i64::MIN - 1` overflows, `i64::MIN + (-1)` too,
    /// but `0 - i64::MIN` overflows while `0 + i64::MIN` does not).
    fn can_subtract_lossless(&self, other: &i64) -> (r: bool)
        ensures
            r == fits_i64(*self - *other),
    {
        checked_sub_i64(*self, *other).is_some()
    }

    fn can_multiply_lossless(&self, other: &i64) -> (r: bool)
        ensures
            r == fits_i64(*self * *other),
    {
        can_multiply_i64(*self, *other)
    }

    /// Exact division is possible when the divisor is non-zero, divides the
    /// dividend, and the quotient fits (it does not for `i64::MIN / -1`).
    fn can_divide_lossless(&self, other: &i64) -> (r: bool)
        ensures
            r == (*other != 0 && divides(*other as int, *self as int) && fits_i64(
                *self as int / *other as int,
            )),
    {
        checked_div_exact_i64(*self, *other).is_some()
    }

    fn add_lossless(&self, other: &i64) -> (r: Option<i64>)
        ensures
            r == exact_i64(*self + *other),
    {
        checked_add_i64(*self, *other)
    }

    fn subtract_lossless(&self, other: &i64) -> (r: Option<i64>)
        ensures
            r == exact_i64(*self - *other),
    {
        checked_sub_i64(*self, *other)
    }

    fn multiply_lossless(&self, other: &i64) -> (r: Option<i64>)
        ensures
            r == exact_i64(*self * *other),
    {
        checked_mul_i64(*self, *other)
    }

    /// Exact quotient, or `None` for a zero divisor, an inexact division,
    /// or the one quotient that does not fit (`i64::MIN / -1`).
    fn divide_lossless(&self, other: &i64) -> (r: Option<i64>)
        ensures
            r.is_some() <==> (*other != 0 && divides(*other as int, *self as int) && fits_i64(
                *self as int / *other as int,
            )),
            r matches Some(q) ==> q * *other == *self,
    {
        checked_div_exact_i64(*self, *other)
    }
}

} // verus!
