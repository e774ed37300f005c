//! Properties of exact integer arithmetic that span several operations.
//!
//! Each law is stated over the specification functions that the operations'
//! own contracts use (`int_value`, `canonical`, `add_defined`, ...), so what
//! is proved here holds of every result those operations can return.

use vstd::prelude::*;
use vstd::arithmetic::div_mod::*;
use vstd::arithmetic::mul::*;

use super::magnitude::{
    digit_count, is_trimmed, lemma_mag_bound, lemma_mag_lower, lemma_mag_skip_prepend,
    lemma_pow256_add, lemma_pow256_mono, lemma_trimmed_len, mag_val, pow256, MAX_DIGITS,
};
use super::{flag, pow_int, ArithmaInternalInteger};

verus! {

/// A canonical digit sequence is determined by its value.
pub proof fn lemma_trimmed_unique(s: Seq<u8>, t: Seq<u8>)
    requires
        is_trimmed(s),
        is_trimmed(t),
        mag_val(s) == mag_val(t),
    ensures
        s == t,
    decreases s.len(),
{
    lemma_trimmed_len(s);
    lemma_trimmed_len(t);
    lemma_mag_skip_prepend(s, 0);
    lemma_mag_skip_prepend(t, 0);
    assert(s.skip(0) =~= s);
    assert(t.skip(0) =~= t);
    let a = mag_val(s.skip(1)) as int;
    let b = mag_val(t.skip(1)) as int;
    lemma_fundamental_div_mod_converse(mag_val(s) as int, 256, a, s[0] as int);
    lemma_fundamental_div_mod_converse(mag_val(t) as int, 256, b, t[0] as int);
    if s.len() > 1 {
        assert(s.skip(1).last() == s.last());
        assert(t.skip(1).last() == t.last());
        lemma_trimmed_unique(s.skip(1), t.skip(1));
        assert(s =~= seq![s[0]] + s.skip(1));
        assert(t =~= seq![t[0]] + t.skip(1));
    } else {
        assert(s =~= seq![s[0]]);
        assert(t =~= seq![t[0]]);
    }
}

/// A trimmed sequence whose value is below `256^k` has at most `k` digits.
pub proof fn lemma_trimmed_len_bound(s: Seq<u8>, k: nat)
    requires
        is_trimmed(s),
        k >= 1,
        mag_val(s) < pow256(k),
    ensures
        s.len() <= k,
{
    if s.len() > 1 {
        lemma_mag_lower(s);
        if s.len() > k {
            lemma_pow256_mono(k, (s.len() - 1) as nat);
        }
    }
}

/// Canonical representations are unique: two canonical integers that denote
/// the same value have the same flags and the same digits.
pub proof fn law_canonical_is_unique(a: ArithmaInternalInteger, b: ArithmaInternalInteger)
    requires
        a.canonical(),
        b.canonical(),
        a.int_value() == b.int_value(),
    ensures
        a.flags == b.flags,
        a.value@ == b.value@,
{
    assert(a.magnitude() == b.magnitude());
    lemma_trimmed_unique(a.value@, b.value@);
    assert(a.negative_flag() == b.negative_flag());
    let f = a.flags;
    let g = b.flags;
    assert(f & !1u16 == 0 && g & !1u16 == 0 && ((f & 1u16 != 0) == (g & 1u16 != 0)) ==> f == g)
        by (bit_vector);
}

/// Values carrying the NaN or infinity flag are never folded by any
/// operation.
pub proof fn law_special_values_are_refused(
    a: ArithmaInternalInteger,
    b: ArithmaInternalInteger,
    exponent: nat,
)
    requires
        a.nan_flag() || a.infinity_flag(),
    ensures
        !a.add_defined(&b),
        !b.add_defined(&a),
        !a.sub_defined(&b),
        !b.sub_defined(&a),
        !a.mul_defined(&b),
        !b.mul_defined(&a),
        !a.div_defined(&b),
        !b.div_defined(&a),
        !a.pow_defined(exponent),
{
    let f = a.flags;
    assert((f & 8u16 != 0 || f & 4u16 != 0) ==> f & !1u16 != 0) by (bit_vector);
}

/// Addition is commutative, both in when it is defined and in its value.
pub proof fn law_add_commutes(a: ArithmaInternalInteger, b: ArithmaInternalInteger)
    ensures
        a.add_defined(&b) == b.add_defined(&a),
        a.int_value() + b.int_value() == b.int_value() + a.int_value(),
{
}

/// Multiplication is commutative, both in when it is defined and in its value.
pub proof fn law_mul_commutes(a: ArithmaInternalInteger, b: ArithmaInternalInteger)
    ensures
        a.mul_defined(&b) == b.mul_defined(&a),
        a.int_value() * b.int_value() == b.int_value() * a.int_value(),
{
    lemma_mul_is_commutative(a.int_value(), b.int_value());
}

/// Subtracting what was added gives back the original value: whenever
/// `sum` is the result of adding `b` to `a`, and neither operand is at the
/// digit cap, subtracting `b` from `sum` is defined and its result denotes
/// `a`.
pub proof fn law_add_then_sub_round_trips(
    a: ArithmaInternalInteger,
    b: ArithmaInternalInteger,
    sum: ArithmaInternalInteger,
    diff: ArithmaInternalInteger,
)
    requires
        a.wf(),
        b.wf(),
        a.value@.len() < MAX_DIGITS,
        b.value@.len() < MAX_DIGITS,
        a.add_defined(&b),
        sum.wf(),
        sum.canonical(),
        sum.int_value() == a.int_value() + b.int_value(),
        diff.int_value() == sum.int_value() - b.int_value(),
    ensures
        sum.sub_defined(&b),
        diff.int_value() == a.int_value(),
{
    let n: nat = if a.value@.len() >= b.value@.len() {
        a.value@.len()
    } else {
        b.value@.len()
    };
    lemma_mag_bound(a.value@);
    lemma_mag_bound(b.value@);
    lemma_pow256_mono(a.value@.len(), n);
    lemma_pow256_mono(b.value@.len(), n);
    lemma_pow256_add(n, 1);
    assert(pow256(1) == 256) by {
        assert(pow256(0) == 1);
    }
    assert(sum.magnitude() < pow256(n + 1));
    lemma_trimmed_len_bound(sum.value@, n + 1);
    if sum.negative_flag() != b.negative_flag() {
        if a.negative_flag() == b.negative_flag() {
            // Same signs: the sum takes their common sign unless it is zero.
            assert(sum.magnitude() == 0);
            assert(sum.value@.len() == 1) by {
                lemma_trimmed_len_bound(sum.value@, 1);
                assert(pow256(1) == 256);
            }
        } else {
            // Opposite signs: the sum is no larger than the larger operand.
            assert(sum.magnitude() < pow256(n));
            lemma_trimmed_len_bound(sum.value@, n);
        }
    }
}

/// Dividing a product by one of its non-zero factors is defined and gives
/// back the other factor.
pub proof fn law_mul_then_div_round_trips(
    a: ArithmaInternalInteger,
    b: ArithmaInternalInteger,
    product: ArithmaInternalInteger,
    quotient: ArithmaInternalInteger,
)
    requires
        a.wf(),
        b.wf(),
        a.mul_defined(&b),
        b.int_value() != 0,
        product.wf(),
        product.canonical(),
        product.int_value() == a.int_value() * b.int_value(),
        quotient.int_value() * b.int_value() == product.int_value(),
    ensures
        product.div_defined(&b),
        quotient.int_value() == a.int_value(),
{
    let x = a.magnitude() as int;
    let y = b.magnitude() as int;
    assert(product.magnitude() == x * y) by {
        assert(a.int_value() * b.int_value() == x * y || a.int_value() * b.int_value() == -(x
            * y)) by (nonlinear_arith)
            requires
                a.int_value() == x || a.int_value() == -x,
                b.int_value() == y || b.int_value() == -y,
        ;
        assert(x * y >= 0) by (nonlinear_arith)
            requires
                x >= 0,
                y >= 0,
        ;
    }
    lemma_mod_multiples_basic(x, y);
    lemma_mul_is_commutative(x, y);
    let q = quotient.int_value();
    let av = a.int_value();
    let bv = b.int_value();
    assert(q == av) by (nonlinear_arith)
        requires
            q * bv == av * bv,
            bv != 0,
    ;
}

/// Negating twice restores the value: the first negation is a plain integer
/// with the same digits, so the second is always defined.
pub proof fn law_negation_is_an_involution(
    a: ArithmaInternalInteger,
    once: ArithmaInternalInteger,
    twice: ArithmaInternalInteger,
)
    requires
        a.wf(),
        a.plain(),
        once.plain(),
        once.value@ == a.value@,
        once.int_value() == -a.int_value(),
        twice.int_value() == -once.int_value(),
    ensures
        once.wf(),
        twice.int_value() == a.int_value(),
{
}

/// A value plus its negation is zero, and because results are canonical it
/// is the positive zero: negative zero never comes out of arithmetic.
pub proof fn law_value_plus_negation_is_positive_zero(
    a: ArithmaInternalInteger,
    neg: ArithmaInternalInteger,
    sum: ArithmaInternalInteger,
)
    requires
        a.wf(),
        a.plain(),
        a.value@.len() < MAX_DIGITS,
        neg.plain(),
        neg.value@ == a.value@,
        neg.negative_flag() == (!a.negative_flag() && a.magnitude() != 0),
        sum.canonical(),
        sum.int_value() == a.int_value() + neg.int_value(),
    ensures
        a.add_defined(&neg),
        sum.magnitude() == 0,
        !sum.negative_flag(),
        sum.flags == 0,
{
    let f = sum.flags;
    assert(f & !1u16 == 0 && f & 1u16 == 0 ==> f == 0) by (bit_vector);
}

/// Any plain value raised to the power zero is one.
pub proof fn law_pow_zero_is_one(a: ArithmaInternalInteger)
    requires
        a.plain(),
    ensures
        a.pow_defined(0),
        pow_int(a.int_value(), 0) == 1,
{
}

} // verus!
