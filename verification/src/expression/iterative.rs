//! Canonical ordering of integer literals, as the iterative simplifier uses it
//! to put commutative operands in a deterministic order.
//!
//! Literals order by unit first (absent before present, then by spelling),
//! then by value for plain integers (sign first), and by flag word then
//! magnitude for special values, which have no numeric order to give.

use vstd::prelude::*;

use crate::integer::magnitude::{
    lemma_mag_bound, lemma_mag_lower, lemma_mag_take_high_zero, lemma_pow256_mono,
    lemma_top_diff, mag_val, order_nat,
};
use crate::integer::ArithmaInteger;

verus! {

/// Ceiling on the simplifier's iteration budget.
pub const MAX_ITERATION_CEILING: usize = 1024;

/// Hard ceiling on nodes visited in one simplifier pass.
pub const MAX_NODES: usize = 65_536;

/// Hard ceiling on tree depth during simplifier traversal.
pub const MAX_DEPTH: usize = 1024;

/// Length of a digit sequence once its high zero digits are dropped (zero for
/// an all-zero sequence).
pub open spec fn significant_len_of(s: Seq<u8>) -> nat
    decreases s.len(),
{
    if s.len() == 0 {
        0
    } else if s.last() == 0 {
        significant_len_of(s.drop_last())
    } else {
        s.len()
    }
}

/// A position as a sequence index.
pub open spec fn as_index(i: usize) -> int {
    i as int
}

/// The code point of a character.
pub open spec fn char_code(c: char) -> nat {
    c as nat
}

/// Lexicographic order of character sequences by code point: the order of
/// `String`, whose byte order over UTF-8 agrees with code-point order.
pub open spec fn text_order(a: Seq<char>, b: Seq<char>) -> core::cmp::Ordering
    decreases a.len(),
{
    if a.len() == 0 && b.len() == 0 {
        core::cmp::Ordering::Equal
    } else if a.len() == 0 {
        core::cmp::Ordering::Less
    } else if b.len() == 0 {
        core::cmp::Ordering::Greater
    } else if char_code(a[0]) < char_code(b[0]) {
        core::cmp::Ordering::Less
    } else if char_code(a[0]) > char_code(b[0]) {
        core::cmp::Ordering::Greater
    } else {
        text_order(a.drop_first(), b.drop_first())
    }
}

/// Order of optional units: absent before present, present ones by spelling.
pub open spec fn unit_order(a: Option<String>, b: Option<String>) -> core::cmp::Ordering {
    match a {
        None => match b {
            None => core::cmp::Ordering::Equal,
            Some(_) => core::cmp::Ordering::Less,
        },
        Some(x) => match b {
            None => core::cmp::Ordering::Greater,
            Some(y) => text_order(x@, y@),
        },
    }
}

/// Order of two flag words as numbers.
pub open spec fn flag_order(a: u16, b: u16) -> core::cmp::Ordering {
    if a < b {
        core::cmp::Ordering::Less
    } else if a == b {
        core::cmp::Ordering::Equal
    } else {
        core::cmp::Ordering::Greater
    }
}

/// The canonical order of two integer literals.
pub open spec fn number_order(a: ArithmaInteger, b: ArithmaInteger) -> core::cmp::Ordering {
    let by_unit = unit_order(a.unit, b.unit);
    let x = a.value;
    let y = b.value;
    if by_unit != core::cmp::Ordering::Equal {
        by_unit
    } else if !x.plain() || !y.plain() {
        if flag_order(x.flags, y.flags) != core::cmp::Ordering::Equal {
            flag_order(x.flags, y.flags)
        } else {
            order_nat(x.magnitude(), y.magnitude())
        }
    } else if x.negative_flag() && !y.negative_flag() {
        core::cmp::Ordering::Less
    } else if !x.negative_flag() && y.negative_flag() {
        core::cmp::Ordering::Greater
    } else if x.negative_flag() {
        order_nat(y.magnitude(), x.magnitude())
    } else {
        order_nat(x.magnitude(), y.magnitude())
    }
}

proof fn lemma_significant_len(s: Seq<u8>)
    ensures
        significant_len_of(s) <= s.len(),
        mag_val(s.take(significant_len_of(s) as int)) == mag_val(s),
        significant_len_of(s) > 0 ==> s[significant_len_of(s) - 1] != 0,
        forall|i: int| significant_len_of(s) <= i < s.len() ==> s[i] == 0,
    decreases s.len(),
{
    if s.len() == 0 {
        assert(s.take(0) =~= s);
    } else if s.last() == 0 {
        let d = s.drop_last();
        lemma_significant_len(d);
        assert forall|i: int| significant_len_of(s) <= i < s.len() implies s[i] == 0 by {
            if i < s.len() - 1 {
                assert(d[i] == s[i]);
            }
        }
        lemma_mag_take_high_zero(s, significant_len_of(s));
    } else {
        assert(s.take(s.len() as int) =~= s);
    }
}

/// Two sequences are ordered by their significant lengths when these differ.
proof fn lemma_significant_len_order(a: Seq<u8>, b: Seq<u8>)
    requires
        significant_len_of(a) < significant_len_of(b),
    ensures
        mag_val(a) < mag_val(b),
{
    lemma_significant_len(a);
    lemma_significant_len(b);
    let na = significant_len_of(a);
    let nb = significant_len_of(b);
    let ta = a.take(na as int);
    let tb = b.take(nb as int);
    lemma_mag_bound(ta);
    lemma_mag_lower(tb);
    lemma_pow256_mono(na, (nb - 1) as nat);
}

/// The first difference from the top decides the order.
proof fn lemma_significant_top_diff(a: Seq<u8>, b: Seq<u8>, n: usize, i: usize)
    requires
        significant_len_of(a) == n,
        significant_len_of(b) == n,
        i < n,
        a[i as int] < b[i as int],
        forall|j: int| i < j < n ==> a[j] == b[j],
    ensures
        mag_val(a) < mag_val(b),
{
    lemma_significant_len(a);
    lemma_significant_len(b);
    lemma_top_diff(a.take(n as int), b.take(n as int), i as int);
}

proof fn lemma_significant_equal(a: Seq<u8>, b: Seq<u8>, n: usize)
    requires
        significant_len_of(a) == n,
        significant_len_of(b) == n,
        forall|j: int| 0 <= j < n ==> a[j] == b[j],
    ensures
        mag_val(a) == mag_val(b),
{
    lemma_significant_len(a);
    lemma_significant_len(b);
    assert(a.take(n as int) =~= b.take(n as int));
}

/// Equal leading characters leave the order to what follows them.
proof fn lemma_text_order_skip(a: Seq<char>, b: Seq<char>, i: int)
    requires
        0 <= i,
        i <= a.len(),
        i <= b.len(),
        forall|j: int| 0 <= j < i ==> a[j] == b[j],
    ensures
        text_order(a, b) == text_order(a.skip(i), b.skip(i)),
    decreases i,
{
    if i == 0 {
        assert(a.skip(0) =~= a);
        assert(b.skip(0) =~= b);
    } else {
        let a1 = a.drop_first();
        let b1 = b.drop_first();
        assert(a[0] == b[0]);
        lemma_text_order_skip(a1, b1, i - 1);
        assert(a1.skip(i - 1) =~= a.skip(i));
        assert(b1.skip(i - 1) =~= b.skip(i));
    }
}

/// Length of a digit sequence with its high zero digits ignored.
///
/// Magnitudes that arrive by deserialisation may be zero-padded; trimming
/// here keeps `2` and a zero-padded `2` from ordering apart on their padding.
pub fn significant_len(magnitude: &[u8]) -> (len: usize)
    ensures
        len == significant_len_of(magnitude@),
{
    let mut len = magnitude.len();
    proof {
        assert(magnitude@.take(len as int) =~= magnitude@);
    }
    while len > 0 && magnitude[len - 1] == 0
        invariant
            len <= magnitude@.len(),
            significant_len_of(magnitude@.take(len as int)) == significant_len_of(magnitude@),
        decreases len,
    {
        proof {
            assert(magnitude@.take(len as int).drop_last() =~= magnitude@.take(len - 1));
        }
        len -= 1;
    }
    len
}

/// Order two little-endian magnitudes by value.
pub fn compare_magnitude(x: &[u8], y: &[u8]) -> (r: core::cmp::Ordering)
    ensures
        r == order_nat(mag_val(x@), mag_val(y@)),
{
    let xs = significant_len(x);
    let ys = significant_len(y);
    proof {
        lemma_significant_len(x@);
        lemma_significant_len(y@);
    }
    if xs != ys {
        // More significant digits means a larger magnitude.
        if xs < ys {
            proof {
                lemma_significant_len_order(x@, y@);
            }
            return core::cmp::Ordering::Less;
        } else {
            proof {
                lemma_significant_len_order(y@, x@);
            }
            return core::cmp::Ordering::Greater;
        }
    }
    // Most significant digit first.
    let mut i = xs;
    while i > 0
        invariant
            i <= xs,
            xs == ys,
            xs == significant_len_of(x@),
            ys == significant_len_of(y@),
            xs <= x@.len(),
            ys <= y@.len(),
            forall|j: int| i <= j < xs ==> x@[j] == y@[j],
        decreases i,
    {
        i -= 1;
        if x[i] < y[i] {
            proof {
                lemma_significant_top_diff(x@, y@, xs, i);
            }
            return core::cmp::Ordering::Less;
        }
        if x[i] > y[i] {
            proof {
                lemma_significant_top_diff(y@, x@, xs, i);
            }
            return core::cmp::Ordering::Greater;
        }
    }
    proof {
        lemma_significant_equal(x@, y@, xs);
    }
    core::cmp::Ordering::Equal
}

/// The code point of a character.
fn code_of(c: char) -> (r: u32)
    ensures
        r == char_code(c),
{
    c as u32
}

/// Order two strings the way `String`'s `Ord` does.
fn compare_text(a: &String, b: &String) -> (r: core::cmp::Ordering)
    ensures
        r == text_order(a@, b@),
{
    let sa = a.as_str();
    let sb = b.as_str();
    let la = sa.unicode_len();
    let lb = sb.unicode_len();
    let mut i: usize = 0;
    while i < la && i < lb
        invariant
            la == a@.len(),
            lb == b@.len(),
            sa@ == a@,
            sb@ == b@,
            i <= la,
            i <= lb,
            forall|j: int| 0 <= j < i ==> a@[j] == b@[j],
        decreases la - i,
    {
        let ca = code_of(sa.get_char(i));
        let cb = code_of(sb.get_char(i));
        if ca != cb {
            proof {
                lemma_text_order_skip(a@, b@, as_index(i));
                assert(a@.skip(as_index(i))[0] == a@[as_index(i)]);
                assert(b@.skip(as_index(i))[0] == b@[as_index(i)]);
            }
            if ca < cb {
                return core::cmp::Ordering::Less;
            } else {
                return core::cmp::Ordering::Greater;
            }
        }
        proof {
            assert(a@[as_index(i)] == b@[as_index(i)]) by {
                assert(char_code(a@[as_index(i)]) == char_code(b@[as_index(i)]));
                lemma_char_code_injective(a@[as_index(i)], b@[as_index(i)]);
            }
        }
        i += 1;
    }
    proof {
        lemma_text_order_skip(a@, b@, as_index(i));
    }
    if la == lb {
        core::cmp::Ordering::Equal
    } else if la < lb {
        core::cmp::Ordering::Less
    } else {
        core::cmp::Ordering::Greater
    }
}

proof fn lemma_char_code_injective(a: char, b: char)
    requires
        char_code(a) == char_code(b),
    ensures
        a == b,
{
}

/// Order two optional units: absent before present, then by spelling.
fn compare_units(a: &Option<String>, b: &Option<String>) -> (r: core::cmp::Ordering)
    ensures
        r == unit_order(*a, *b),
{
    match a {
        None => match b {
            None => core::cmp::Ordering::Equal,
            Some(_) => core::cmp::Ordering::Less,
        },
        Some(x) => match b {
            None => core::cmp::Ordering::Greater,
            Some(y) => compare_text(x, y),
        },
    }
}

/// Order two literals.
///
/// Unit attribution decides first: `5` and `5 m` are different literals, and
/// ordering them as one would sit them next to each other and invite a merge
/// across units. Plain integers then order by value, sign first. Special
/// values (NaN, infinity, a rational) have no numeric order to give, so they
/// fall back to the flag word, then the magnitude: deterministic, which is
/// all a sort needs.
pub fn compare_numbers(a: &ArithmaInteger, b: &ArithmaInteger) -> (r: core::cmp::Ordering)
    requires
        a.wf(),
        b.wf(),
    ensures
        r == number_order(*a, *b),
{
    let by_unit = compare_units(&a.unit, &b.unit);
    match by_unit {
        core::cmp::Ordering::Equal => {},
        _ => {
            return by_unit;
        },
    }
    let x = &a.value;
    let y = &b.value;
    if !x.is_plain_integer() || !y.is_plain_integer() {
        if x.flags < y.flags {
            return core::cmp::Ordering::Less;
        }
        if x.flags > y.flags {
            return core::cmp::Ordering::Greater;
        }
        return compare_magnitude(x.value.as_slice(), y.value.as_slice());
    }
    let xn = x.is_negative();
    let yn = y.is_negative();
    if xn && !yn {
        core::cmp::Ordering::Less
    } else if !xn && yn {
        core::cmp::Ordering::Greater
    } else if xn {
        // Both negative: the larger magnitude is the smaller number.
        compare_magnitude(y.value.as_slice(), x.value.as_slice())
    } else {
        compare_magnitude(x.value.as_slice(), y.value.as_slice())
    }
}

} // verus!
