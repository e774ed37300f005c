//! Unsigned magnitudes stored as little-endian base-256 digits.
//!
//! The value of a digit sequence is given by [`mag_val`]; every routine here
//! is specified against it. Sign and special-value flags are handled by the
//! signed wrappers in the parent module.

use vstd::prelude::*;
use vstd::arithmetic::div_mod::*;
use vstd::arithmetic::mul::*;

verus! {

/// Upper bound on base-256 digits in any computed result (a 4096-bit integer).
pub const MAX_DIGITS: usize = 512;

/// `256^n`.
pub open spec fn pow256(n: nat) -> nat
    decreases n,
{
    if n == 0 {
        1
    } else {
        256 * pow256((n - 1) as nat)
    }
}

/// The number denoted by a little-endian base-256 digit sequence.
pub open spec fn mag_val(s: Seq<u8>) -> nat
    decreases s.len(),
{
    if s.len() == 0 {
        0
    } else {
        mag_val(s.drop_last()) + (s.last() as nat) * pow256((s.len() - 1) as nat)
    }
}

/// Digit `i` of `s`, reading missing high digits as zero.
pub open spec fn digit_at(s: Seq<u8>, i: int) -> nat {
    if 0 <= i < s.len() {
        s[i] as nat
    } else {
        0
    }
}

/// Value of the `i` lowest digits of `s` (all of `s` when `i` exceeds its length).
pub open spec fn prefix_val(s: Seq<u8>, i: nat) -> nat {
    if i <= s.len() {
        mag_val(s.take(i as int))
    } else {
        mag_val(s)
    }
}

/// Length of `s` once redundant high zero digits are dropped, keeping at
/// least one digit.
pub open spec fn trim_len(s: Seq<u8>) -> nat
    decreases s.len(),
{
    if s.len() <= 1 {
        s.len()
    } else if s.last() == 0 {
        trim_len(s.drop_last())
    } else {
        s.len()
    }
}

/// Canonical form: at least one digit, and no zero high digit unless the
/// value is the single digit zero.
pub open spec fn is_trimmed(s: Seq<u8>) -> bool {
    s.len() >= 1 && (s.len() == 1 || s.last() != 0)
}

/// How many digits [`mag_trim`] keeps: it drops high zeros, but at most
/// `MAX_DIGITS + 1` of them.
pub open spec fn trim_guarded_len(s: Seq<u8>) -> nat {
    if s.len() > MAX_DIGITS + 1 && trim_len(s) < s.len() - (MAX_DIGITS + 1) {
        (s.len() - (MAX_DIGITS + 1)) as nat
    } else {
        trim_len(s)
    }
}

/// Number of base-256 digits in the canonical form of `n`.
pub open spec fn digit_count(n: nat) -> nat
    decreases n,
{
    if n < 256 {
        1
    } else {
        1 + digit_count(n / 256)
    }
}

// ---------------------------------------------------------------------------
// Lemmas about powers of 256
// ---------------------------------------------------------------------------

pub proof fn lemma_pow256_pos(n: nat)
    ensures
        pow256(n) >= 1,
    decreases n,
{
    if n > 0 {
        lemma_pow256_pos((n - 1) as nat);
    }
}

pub proof fn lemma_pow256_add(a: nat, b: nat)
    ensures
        pow256(a + b) == pow256(a) * pow256(b),
    decreases b,
{
    if b == 0 {
        assert(pow256(a) * 1 == pow256(a));
    } else {
        lemma_pow256_add(a, (b - 1) as nat);
        assert(pow256(a + b) == 256 * pow256((a + b - 1) as nat));
        assert((a + b - 1) as nat == a + (b - 1) as nat);
        lemma_mul_is_associative(256, pow256(a) as int, pow256((b - 1) as nat) as int);
        lemma_mul_is_commutative(256, pow256(a) as int);
        lemma_mul_is_associative(pow256(a) as int, 256, pow256((b - 1) as nat) as int);
    }
}

pub proof fn lemma_pow256_mono(a: nat, b: nat)
    requires
        a <= b,
    ensures
        pow256(a) <= pow256(b),
    decreases b,
{
    if a < b {
        lemma_pow256_mono(a, (b - 1) as nat);
        lemma_pow256_pos((b - 1) as nat);
    }
}

pub proof fn lemma_pow256_strict(a: nat, b: nat)
    requires
        a < b,
    ensures
        256 * pow256(a) <= pow256(b),
{
    lemma_pow256_mono(a + 1, b);
}

// ---------------------------------------------------------------------------
// Lemmas about digit values
// ---------------------------------------------------------------------------

pub proof fn lemma_mag_push(s: Seq<u8>, x: u8)
    ensures
        mag_val(s.push(x)) == mag_val(s) + (x as nat) * pow256(s.len()),
{
    assert(s.push(x).drop_last() =~= s);
}

pub proof fn lemma_prefix_succ(s: Seq<u8>, i: nat)
    ensures
        prefix_val(s, i + 1) == prefix_val(s, i) + digit_at(s, i as int) * pow256(i),
{
    if i < s.len() {
        assert(s.take((i + 1) as int).drop_last() =~= s.take(i as int));
        assert(s.take((i + 1) as int).last() == s[i as int]);
    } else if i == s.len() {
        assert(s.take(i as int) =~= s);
    }
}

pub proof fn lemma_prefix_full(s: Seq<u8>, i: nat)
    requires
        i >= s.len(),
    ensures
        prefix_val(s, i) == mag_val(s),
{
    if i == s.len() {
        assert(s.take(i as int) =~= s);
    }
}

pub proof fn lemma_prefix_zero(s: Seq<u8>)
    ensures
        prefix_val(s, 0) == 0,
{
    assert(s.take(0) =~= Seq::<u8>::empty());
}

pub proof fn lemma_mag_bound(s: Seq<u8>)
    ensures
        mag_val(s) < pow256(s.len()),
    decreases s.len(),
{
    if s.len() > 0 {
        let n1 = (s.len() - 1) as nat;
        lemma_mag_bound(s.drop_last());
        lemma_mul_inequality(s.last() as int, 255, pow256(n1) as int);
    }
}

pub proof fn lemma_mag_lower(s: Seq<u8>)
    requires
        s.len() >= 1,
        s.last() != 0,
    ensures
        mag_val(s) >= pow256((s.len() - 1) as nat),
{
    lemma_mul_inequality(1, s.last() as int, pow256((s.len() - 1) as nat) as int);
}

pub proof fn lemma_mag_split(s: Seq<u8>, k: nat)
    requires
        k <= s.len(),
    ensures
        mag_val(s) == mag_val(s.take(k as int)) + pow256(k) * mag_val(s.skip(k as int)),
    decreases s.len(),
{
    if k == s.len() {
        assert(s.take(k as int) =~= s);
        assert(s.skip(k as int) =~= Seq::<u8>::empty());
        assert(pow256(k) * 0 == 0);
    } else {
        let d = s.drop_last();
        let t = s.skip(k as int);
        let n1 = (s.len() - 1) as nat;
        let m = (t.len() - 1) as nat;
        lemma_mag_split(d, k);
        assert(d.take(k as int) =~= s.take(k as int));
        assert(d.skip(k as int) =~= t.drop_last());
        assert(t.last() == s.last());
        lemma_pow256_add(k, m);
        assert(k + m == n1);
        let a = mag_val(t.drop_last()) as int;
        let l = t.last() as int;
        let pk = pow256(k) as int;
        let pm = pow256(m) as int;
        assert(mag_val(t) == a + l * pm);
        lemma_mul_is_distributive_add(pk, a, l * pm);
        lemma_mul_is_associative(pk, l, pm);
        lemma_mul_is_commutative(pk, l);
        lemma_mul_is_associative(l, pk, pm);
    }
}

pub proof fn lemma_mag_prepend(d: u8, s: Seq<u8>)
    ensures
        mag_val(seq![d] + s) == d as nat + 256 * mag_val(s),
{
    let t = seq![d] + s;
    lemma_mag_split(t, 1);
    assert(t.take(1) =~= seq![d]);
    assert(t.skip(1) =~= s);
    assert(seq![d].drop_last() =~= Seq::<u8>::empty());
    assert(mag_val(Seq::<u8>::empty()) == 0);
    assert(pow256(0) == 1);
    assert(pow256(1) == 256) by {
        assert(pow256(1) == 256 * pow256(0));
    }
    let one = seq![d];
    assert(mag_val(one) == mag_val(one.drop_last()) + (one.last() as nat) * pow256(0));
    assert(mag_val(one.drop_last()) == 0);
    lemma_mul_basics(d as int);
    assert(mag_val(one) == d as nat);
}

pub proof fn lemma_mag_skip_prepend(s: Seq<u8>, i: int)
    requires
        0 <= i < s.len(),
    ensures
        mag_val(s.skip(i)) == s[i] as nat + 256 * mag_val(s.skip(i + 1)),
{
    assert(s.skip(i) =~= seq![s[i]] + s.skip(i + 1));
    lemma_mag_prepend(s[i], s.skip(i + 1));
}

pub proof fn lemma_mag_update(s: Seq<u8>, k: int, v: u8)
    requires
        0 <= k < s.len(),
    ensures
        mag_val(s.update(k, v)) + (s[k] as nat) * pow256(k as nat)
            == mag_val(s) + (v as nat) * pow256(k as nat),
{
    let u = s.update(k, v);
    lemma_mag_split(s, k as nat);
    lemma_mag_split(u, k as nat);
    assert(u.take(k) =~= s.take(k));
    lemma_mag_skip_prepend(s, k);
    lemma_mag_skip_prepend(u, k);
    assert(u.skip(k + 1) =~= s.skip(k + 1));
    let p = pow256(k as nat) as int;
    let h = mag_val(s.skip(k + 1)) as int;
    lemma_mul_is_distributive_add(p, s[k] as int, 256 * h);
    lemma_mul_is_distributive_add(p, v as int, 256 * h);
}

pub proof fn lemma_mag_zero_iff(s: Seq<u8>)
    ensures
        (mag_val(s) == 0) <==> (forall|i: int| 0 <= i < s.len() ==> s[i] == 0),
    decreases s.len(),
{
    if s.len() > 0 {
        let d = s.drop_last();
        lemma_mag_zero_iff(d);
        lemma_pow256_pos((s.len() - 1) as nat);
        if s.last() != 0 {
            lemma_mul_inequality(1, s.last() as int, pow256((s.len() - 1) as nat) as int);
        }
        if mag_val(s) == 0 {
            assert forall|i: int| 0 <= i < s.len() implies s[i] == 0 by {
                if i < s.len() - 1 {
                    assert(d[i] == s[i]);
                }
            }
        }
        if forall|i: int| 0 <= i < s.len() ==> s[i] == 0 {
            assert forall|i: int| 0 <= i < d.len() implies d[i] == 0 by {
                assert(s[i] == 0);
            }
            assert(s[s.len() - 1] == 0);
        }
    }
}

/// Digits above position `k` contribute nothing once the value is known to
/// fit in `k` digits.
pub proof fn lemma_mag_take_small(s: Seq<u8>, k: nat)
    requires
        k <= s.len(),
        mag_val(s) < pow256(k),
    ensures
        mag_val(s.take(k as int)) == mag_val(s),
{
    lemma_mag_split(s, k);
    if mag_val(s.skip(k as int)) > 0 {
        lemma_mul_inequality(1, mag_val(s.skip(k as int)) as int, pow256(k) as int);
    }
}

pub proof fn lemma_trim_len_props(s: Seq<u8>)
    requires
        s.len() >= 1,
    ensures
        1 <= trim_len(s) <= s.len(),
        mag_val(s.take(trim_len(s) as int)) == mag_val(s),
        is_trimmed(s.take(trim_len(s) as int)),
        forall|i: int| trim_len(s) <= i < s.len() ==> s[i] == 0,
    decreases s.len(),
{
    if s.len() == 1 {
        assert(s.take(1) =~= s);
    } else if s.last() == 0 {
        let d = s.drop_last();
        lemma_trim_len_props(d);
        assert(d.take(trim_len(d) as int) =~= s.take(trim_len(s) as int));
        assert forall|i: int| trim_len(s) <= i < s.len() implies s[i] == 0 by {
            if i < s.len() - 1 {
                assert(d[i] == s[i]);
            }
        }
    } else {
        assert(s.take(s.len() as int) =~= s);
    }
}

pub proof fn lemma_trim_len_take(s: Seq<u8>, m: nat)
    requires
        s.len() >= 1,
        trim_len(s) <= m <= s.len(),
    ensures
        trim_len(s.take(m as int)) == trim_len(s),
    decreases s.len(),
{
    if m == s.len() {
        assert(s.take(m as int) =~= s);
    } else {
        let d = s.drop_last();
        assert(s.len() >= 2);
        assert(s.last() == 0);
        assert(d.take(m as int) =~= s.take(m as int));
        lemma_trim_len_take(d, m);
    }
}

/// The length of a canonical digit sequence is determined by its value.
pub proof fn lemma_trimmed_len(s: Seq<u8>)
    requires
        is_trimmed(s),
    ensures
        s.len() == digit_count(mag_val(s)),
    decreases s.len(),
{
    if s.len() == 1 {
        assert(s.drop_last() =~= Seq::<u8>::empty());
        assert(mag_val(Seq::<u8>::empty()) == 0);
        assert(pow256(0) == 1);
        assert(mag_val(s.drop_last()) == 0);
        assert(s.last() == s[0]);
        assert(mag_val(s) == mag_val(s.drop_last()) + (s.last() as nat) * pow256((s.len() - 1) as nat));
        assert((s.len() - 1) as nat == 0);
        lemma_mul_basics(s.last() as int);
        assert((s.last() as nat) * pow256(0) == s.last() as nat);
        assert(mag_val(s) == s[0] as nat);
    } else {
        let t = s.skip(1);
        lemma_mag_lower(s);
        lemma_pow256_strict(0, (s.len() - 1) as nat);
        lemma_mag_skip_prepend(s, 0);
        assert(s.skip(0) =~= s);
        assert(t.last() == s.last());
        lemma_trimmed_len(t);
        lemma_fundamental_div_mod_converse(
            mag_val(s) as int,
            256,
            mag_val(t) as int,
            s[0] as int,
        );
    }
}


pub proof fn lemma_mag_take_high_zero(s: Seq<u8>, k: nat)
    requires
        k <= s.len(),
        forall|i: int| k <= i < s.len() ==> s[i] == 0,
    ensures
        mag_val(s.take(k as int)) == mag_val(s),
{
    lemma_mag_split(s, k);
    let t = s.skip(k as int);
    assert forall|i: int| 0 <= i < t.len() implies t[i] == 0 by {
        assert(t[i] == s[i + k]);
    }
    lemma_mag_zero_iff(t);
    assert(pow256(k) * 0 == 0);
}

/// Two sequences that agree above position `i` and differ at `i` are ordered
/// by the digit at `i`.
pub proof fn lemma_top_diff(a: Seq<u8>, b: Seq<u8>, i: int)
    requires
        a.len() == b.len(),
        0 <= i < a.len(),
        a[i] < b[i],
        forall|j: int| i < j < a.len() ==> a[j] == b[j],
    ensures
        mag_val(a) < mag_val(b),
{
    let k = i as nat;
    lemma_mag_split(a, k);
    lemma_mag_split(b, k);
    lemma_mag_skip_prepend(a, i);
    lemma_mag_skip_prepend(b, i);
    assert(a.skip(i + 1) =~= b.skip(i + 1));
    lemma_mag_bound(a.take(i));
    let p = pow256(k) as int;
    let h = mag_val(a.skip(i + 1)) as int;
    let la = mag_val(a.take(i)) as int;
    let lb = mag_val(b.take(i)) as int;
    let x = a[i] as int;
    let y = b[i] as int;
    assert(la < p);
    assert(la + p * (x + 256 * h) < lb + p * (y + 256 * h)) by (nonlinear_arith)
        requires
            0 <= la < p,
            0 <= lb,
            x < y,
            0 <= h,
    ;
}

/// Equal significant lengths and equal significant digits give equal values.
pub proof fn lemma_equal_low_digits(a: Seq<u8>, b: Seq<u8>, n: usize)
    requires
        a.len() >= 1,
        b.len() >= 1,
        trim_len(a) == n,
        trim_len(b) == n,
        forall|j: int| 0 <= j < n ==> a[j] == b[j],
    ensures
        mag_val(a) == mag_val(b),
{
    lemma_trim_len_props(a);
    lemma_trim_len_props(b);
    assert(a.take(n as int) =~= b.take(n as int));
}

/// A longer significant length means a larger value.
pub proof fn lemma_len_order(a: Seq<u8>, b: Seq<u8>)
    requires
        a.len() >= 1,
        b.len() >= 1,
        trim_len(a) < trim_len(b),
    ensures
        mag_val(a) < mag_val(b),
{
    lemma_trim_len_props(a);
    lemma_trim_len_props(b);
    let ta = a.take(trim_len(a) as int);
    let tb = b.take(trim_len(b) as int);
    lemma_mag_bound(ta);
    lemma_mag_lower(tb);
    lemma_pow256_mono(trim_len(a), (trim_len(b) - 1) as nat);
}

/// First difference from the top between the significant parts.
pub proof fn lemma_top_diff_trimmed(a: Seq<u8>, b: Seq<u8>, n: usize, i: usize)
    requires
        a.len() >= 1,
        b.len() >= 1,
        trim_len(a) == n,
        trim_len(b) == n,
        i < n,
        a[i as int] < b[i as int],
        forall|j: int| i < j < n ==> a[j] == b[j],
    ensures
        mag_val(a) < mag_val(b),
{
    lemma_trim_len_props(a);
    lemma_trim_len_props(b);
    let ta = a.take(n as int);
    let tb = b.take(n as int);
    lemma_top_diff(ta, tb, i as int);
}

/// The order of two values, as the three-way comparison reports it.
pub open spec fn order_nat(x: nat, y: nat) -> core::cmp::Ordering {
    if x < y {
        core::cmp::Ordering::Less
    } else if x == y {
        core::cmp::Ordering::Equal
    } else {
        core::cmp::Ordering::Greater
    }
}

// ---------------------------------------------------------------------------
// Executable magnitude routines
// ---------------------------------------------------------------------------

/// True when every digit is zero, that is, when the value is zero.
pub fn all_zero(s: &[u8]) -> (r: bool)
    ensures
        r == (forall|i: int| 0 <= i < s@.len() ==> s@[i] == 0),
        r == (mag_val(s@) == 0),
{
    proof {
        lemma_mag_zero_iff(s@);
    }
    let mut i: usize = 0;
    while i < s.len()
        invariant
            i <= s@.len(),
            forall|j: int| 0 <= j < i ==> s@[j] == 0,
        decreases s@.len() - i,
    {
        if s[i] != 0 {
            assert(s@[i as int] != 0);
            proof {
                lemma_mag_zero_iff(s@);
            }
            return false;
        }
        i += 1;
    }
    true
}

/// Strip redundant high zero digits, keeping at least one digit and popping
/// at most `MAX_DIGITS + 1` of them.
pub fn mag_trim(v: &mut Vec<u8>)
    requires
        old(v)@.len() >= 1,
    ensures
        final(v)@ == old(v)@.take(trim_guarded_len(old(v)@) as int),
        1 <= final(v)@.len() <= old(v)@.len(),
        mag_val(final(v)@) == mag_val(old(v)@),
        old(v)@.len() <= MAX_DIGITS + 1 ==> is_trimmed(final(v)@),
{
    let ghost s = v@;
    proof {
        lemma_trim_len_props(s);
        assert(s.take(s.len() as int) =~= s);
    }
    let mut guard: usize = 0;
    while v.len() > 1 && v[v.len() - 1] == 0 && guard <= MAX_DIGITS
        invariant
            s.len() >= 1,
            1 <= trim_len(s) <= s.len(),
            forall|i: int| trim_len(s) <= i < s.len() ==> s[i] == 0,
            guard <= MAX_DIGITS + 1,
            guard <= s.len() - 1,
            v@ == s.take(s.len() - guard),
            trim_len(s) <= v@.len(),
            trim_len(v@) == trim_len(s),
        decreases v@.len(),
    {
        let ghost before = v@;
        proof {
            assert(before.drop_last() =~= s.take(s.len() - guard - 1));
            assert(trim_len(before) == trim_len(before.drop_last()));
            lemma_trim_len_props(before.drop_last());
        }
        let _ = v.pop();
        guard += 1;
        proof {
            assert(v@ =~= before.drop_last());
        }
    }
    proof {
        let k = v@.len();
        assert(v@.len() >= 1);
        lemma_mag_take_high_zero(s, k as nat);
        if v@.len() == 1 || v@.last() != 0 {
            assert(trim_len(v@) == v@.len());
        }
    }
}

/// Count of digits up to and including the highest non-zero one (at least one).
fn significant_digits(x: &[u8]) -> (n: usize)
    requires
        x@.len() >= 1,
    ensures
        n == trim_len(x@),
{
    let mut n = x.len();
    proof {
        assert(x@.take(n as int) =~= x@);
    }
    while n > 1 && x[n - 1] == 0
        invariant
            1 <= n <= x@.len(),
            trim_len(x@.take(n as int)) == trim_len(x@),
        decreases n,
    {
        proof {
            assert(x@.take(n as int).drop_last() =~= x@.take(n - 1));
        }
        n -= 1;
    }
    proof {
        assert(trim_len(x@.take(n as int)) == n);
    }
    n
}

/// Compare two magnitudes by value. Neither operand needs to be trimmed.
pub fn mag_cmp(a: &[u8], b: &[u8]) -> (r: core::cmp::Ordering)
    requires
        a@.len() >= 1,
        b@.len() >= 1,
    ensures
        r == order_nat(mag_val(a@), mag_val(b@)),
{
    let na = significant_digits(a);
    let nb = significant_digits(b);
    proof {
        lemma_trim_len_props(a@);
        lemma_trim_len_props(b@);
    }
    if na != nb {
        if na < nb {
            proof {
                lemma_len_order(a@, b@);
            }
            return core::cmp::Ordering::Less;
        } else {
            proof {
                lemma_len_order(b@, a@);
            }
            return core::cmp::Ordering::Greater;
        }
    }
    let mut i = na;
    while i > 0
        invariant
            i <= na,
            na == nb,
            na == trim_len(a@),
            nb == trim_len(b@),
            na <= a@.len(),
            nb <= b@.len(),
            forall|j: int| i <= j < na ==> a@[j] == b@[j],
        decreases i,
    {
        i -= 1;
        if a[i] < b[i] {
            proof {
                lemma_top_diff_trimmed(a@, b@, na, i);
            }
            return core::cmp::Ordering::Less;
        }
        if a[i] > b[i] {
            proof {
                lemma_top_diff_trimmed(b@, a@, na, i);
            }
            return core::cmp::Ordering::Greater;
        }
    }
    proof {
        lemma_equal_low_digits(a@, b@, na);
    }
    core::cmp::Ordering::Equal
}


proof fn lemma_digit_step(acc: nat, carry: nat, target: nat, d: nat, p: nat, sum: nat)
    requires
        acc + carry * p == target,
        sum == d + carry,
    ensures
        acc + (sum % 256) * p + (sum / 256) * (256 * p) == target + d * p,
{
    lemma_fundamental_div_mod(sum as int, 256);
    let q = sum / 256;
    let r = sum % 256;
    assert(r * p + q * (256 * p) == sum * p) by (nonlinear_arith)
        requires
            sum == 256 * q + r,
    ;
    assert(sum * p == d * p + carry * p) by (nonlinear_arith)
        requires
            sum == d + carry,
    ;
}

/// `a + b`. `None` if either operand has `MAX_DIGITS` or more digits, so the
/// result always fits the digit cap.
pub fn mag_add(a: &[u8], b: &[u8]) -> (r: Option<Vec<u8>>)
    requires
        a@.len() >= 1,
        b@.len() >= 1,
    ensures
        r.is_none() <==> (a@.len() >= MAX_DIGITS || b@.len() >= MAX_DIGITS),
        r matches Some(v) ==> mag_val(v@) == mag_val(a@) + mag_val(b@) && is_trimmed(v@)
            && v@.len() <= MAX_DIGITS,
{
    let n = if a.len() >= b.len() {
        a.len()
    } else {
        b.len()
    };
    if n >= MAX_DIGITS {
        return None;
    }
    let mut out: Vec<u8> = Vec::with_capacity(n + 1);
    let mut carry: u16 = 0;
    let mut i: usize = 0;
    proof {
        lemma_prefix_zero(a@);
        lemma_prefix_zero(b@);
    }
    while i < n
        invariant
            n < MAX_DIGITS,
            n == a@.len() || n == b@.len(),
            a@.len() <= n,
            b@.len() <= n,
            i <= n,
            out@.len() == i,
            carry <= 1,
            mag_val(out@) + (carry as nat) * pow256(i as nat) == prefix_val(a@, i as nat)
                + prefix_val(b@, i as nat),
        decreases n - i,
    {
        let lhs: u16 = if i < a.len() {
            a[i] as u16
        } else {
            0
        };
        let rhs: u16 = if i < b.len() {
            b[i] as u16
        } else {
            0
        };
        let sum = lhs + rhs + carry;
        let ghost old_out = out@;
        out.push((sum % 256) as u8);
        proof {
            lemma_mag_push(old_out, (sum % 256) as u8);
            lemma_prefix_succ(a@, i as nat);
            lemma_prefix_succ(b@, i as nat);
            lemma_digit_step(
                mag_val(old_out),
                carry as nat,
                prefix_val(a@, i as nat) + prefix_val(b@, i as nat),
                (lhs + rhs) as nat,
                pow256(i as nat),
                sum as nat,
            );
            assert(pow256((i + 1) as nat) == 256 * pow256(i as nat));
            assert(digit_at(a@, i as int) == lhs);
            assert(digit_at(b@, i as int) == rhs);
            let p = pow256(i as nat);
            assert((lhs as nat) * p + (rhs as nat) * p == ((lhs + rhs) as nat) * p)
                by (nonlinear_arith);
        }
        carry = sum / 256;
        i += 1;
    }
    proof {
        lemma_prefix_full(a@, n as nat);
        lemma_prefix_full(b@, n as nat);
    }
    if carry > 0 {
        let ghost old_out = out@;
        out.push(carry as u8);
        proof {
            lemma_mag_push(old_out, carry as u8);
        }
    } else {
        assert(mag_val(out@) == mag_val(a@) + mag_val(b@));
    }
    mag_trim(&mut out);
    Some(out)
}

/// Digit-by-digit `a - b` for `b <= a`, untrimmed: the result has `a`'s length.
fn sub_digits(a: &[u8], b: &[u8]) -> (out: Vec<u8>)
    requires
        a@.len() >= 1,
        b@.len() >= 1,
        mag_val(b@) <= mag_val(a@),
    ensures
        out@.len() == a@.len(),
        mag_val(out@) + mag_val(b@) == mag_val(a@),
{
    let n = a.len();
    let mut out: Vec<u8> = Vec::with_capacity(n);
    let mut borrow: i16 = 0;
    let mut i: usize = 0;
    proof {
        lemma_prefix_zero(a@);
        lemma_prefix_zero(b@);
    }
    while i < n
        invariant
            n == a@.len(),
            i <= n,
            out@.len() == i,
            0 <= borrow <= 1,
            mag_val(out@) + prefix_val(b@, i as nat) == prefix_val(a@, i as nat) + (borrow as int)
                * pow256(i as nat),
        decreases n - i,
    {
        let lhs = a[i] as i16;
        let rhs: i16 = if i < b.len() {
            b[i] as i16
        } else {
            0
        };
        let mut diff = lhs - rhs - borrow;
        let ghost old_borrow = borrow;
        if diff < 0 {
            diff = diff + 256;
            borrow = 1;
        } else {
            borrow = 0;
        }
        let ghost old_out = out@;
        out.push(diff as u8);
        proof {
            lemma_mag_push(old_out, diff as u8);
            lemma_prefix_succ(a@, i as nat);
            lemma_prefix_succ(b@, i as nat);
            assert(digit_at(a@, i as int) == lhs);
            assert(digit_at(b@, i as int) == rhs);
            let p = pow256(i as nat) as int;
            assert(pow256((i + 1) as nat) == 256 * pow256(i as nat));
            assert(diff - 256 * borrow == lhs - rhs - old_borrow);
            assert((diff as int) * p + (rhs as int) * p + (old_borrow as int) * p == (lhs as int) * p
                + (borrow as int) * (256 * p)) by (nonlinear_arith)
                requires
                    diff - 256 * borrow == lhs - rhs - old_borrow,
            ;
        }
        i += 1;
    }
    proof {
        lemma_prefix_full(a@, n as nat);
        lemma_mag_bound(a@);
        lemma_mag_bound(out@);
        if b@.len() > n {
            lemma_mag_take_small(b@, n as nat);
        } else {
            lemma_prefix_full(b@, n as nat);
        }
        assert(prefix_val(b@, n as nat) == mag_val(b@));
        assert(prefix_val(a@, n as nat) == mag_val(a@));
        assert(i == n);
        assert(mag_val(out@) + prefix_val(b@, i as nat) == prefix_val(a@, i as nat) + (borrow as int)
                * pow256(i as nat));
        if borrow == 0 {
            assert((borrow as int) * pow256(n as nat) == 0);
        }
        if borrow == 1 {
            assert((borrow as int) * pow256(n as nat) == pow256(n as nat));
            assert(mag_val(out@) + mag_val(b@) == mag_val(a@) + pow256(n as nat));
            assert(false);
        }
    }
    out
}

/// `a - b`, requiring `a >= b`. Returns `None` if that precondition is broken.
pub fn mag_sub(a: &[u8], b: &[u8]) -> (r: Option<Vec<u8>>)
    requires
        a@.len() >= 1,
        b@.len() >= 1,
    ensures
        r.is_none() <==> mag_val(a@) < mag_val(b@),
        r matches Some(v) ==> mag_val(v@) + mag_val(b@) == mag_val(a@) && v@.len() >= 1
            && v@.len() <= a@.len() && (a@.len() <= MAX_DIGITS + 1 ==> is_trimmed(v@)),
{
    match mag_cmp(a, b) {
        core::cmp::Ordering::Less => {
            return None;
        },
        _ => {},
    }
    let mut out = sub_digits(a, b);
    mag_trim(&mut out);
    Some(out)
}


proof fn lemma_mul_cell_step(
    outv: nat,
    old_cell: nat,
    carry: nat,
    target: nat,
    x: nat,
    y: nat,
    p: nat,
    acc: nat,
    new_outv: nat,
)
    requires
        outv + carry * p == target,
        acc == old_cell + x * y + carry,
        new_outv + old_cell * p == outv + (acc % 256) * p,
    ensures
        new_outv + (acc / 256) * (256 * p) == target + x * y * p,
{
    lemma_fundamental_div_mod(acc as int, 256);
    let q = acc / 256;
    let r = acc % 256;
    assert(r * p + q * (256 * p) == acc * p) by (nonlinear_arith)
        requires
            acc == 256 * q + r,
    ;
    assert(acc * p == old_cell * p + x * y * p + carry * p) by (nonlinear_arith)
        requires
            acc == old_cell + x * y + carry,
    ;
}

proof fn lemma_mul_row_extend(am: nat, bm: nat, x: nat, pi: nat, bj: nat, pj: nat, y: nat)
    ensures
        am * bm + x * pi * (bj + y * pj) == am * bm + x * pi * bj + x * y * (pi * pj),
{
    assert(x * pi * (bj + y * pj) == x * pi * bj + x * y * (pi * pj)) by (nonlinear_arith);
}

proof fn lemma_mul_row_done(ai: nat, bm: nat, x: nat, pi: nat)
    ensures
        ai * bm + x * pi * bm == (ai + x * pi) * bm,
{
    assert(ai * bm + x * pi * bm == (ai + x * pi) * bm) by (nonlinear_arith);
}

proof fn lemma_mul_fits(a: Seq<u8>, b: Seq<u8>, i: nat)
    requires
        i < a.len(),
    ensures
        mag_val(a.take((i + 1) as int)) * mag_val(b) < pow256(a.len() + b.len()),
{
    let t = a.take((i + 1) as int);
    lemma_mag_bound(t);
    lemma_mag_bound(b);
    lemma_pow256_add(i + 1, b.len());
    lemma_pow256_mono(i + 1 + b.len(), a.len() + b.len());
    let x = mag_val(t);
    let y = mag_val(b);
    let px = pow256(i + 1);
    let py = pow256(b.len());
    assert(x * y < px * py) by (nonlinear_arith)
        requires
            x < px,
            y < py,
    ;
}

/// `a * b` by long multiplication. `None` if the product could need more
/// than `MAX_DIGITS` digits.
pub fn mag_mul(a: &[u8], b: &[u8]) -> (r: Option<Vec<u8>>)
    requires
        a@.len() >= 1,
        b@.len() >= 1,
    ensures
        r.is_none() <==> a@.len() + b@.len() > MAX_DIGITS,
        r matches Some(v) ==> mag_val(v@) == mag_val(a@) * mag_val(b@) && is_trimmed(v@)
            && v@.len() <= a@.len() + b@.len(),
{
    if a.len() > MAX_DIGITS || b.len() > MAX_DIGITS - a.len() {
        return None;
    }
    let la = a.len();
    let lb = b.len();
    let mut out: Vec<u8> = vec![0u8; la + lb];
    proof {
        assert forall|k: int| 0 <= k < out@.len() implies out@[k] == 0 by {
            assert(cloned(0u8, out@[k]));
        }
        lemma_mag_zero_iff(out@);
        assert(mag_val(out@) == 0);
        assert(a@.take(0) =~= Seq::<u8>::empty());
        assert(mag_val(a@.take(0)) == 0);
        assert(0 * mag_val(b@) == 0);
    }
    let mut i: usize = 0;
    while i < la
        invariant
            la == a@.len(),
            lb == b@.len(),
            la + lb <= MAX_DIGITS,
            i <= la,
            out@.len() == la + lb,
            mag_val(out@) == mag_val(a@.take(i as int)) * mag_val(b@),
        decreases la - i,
    {
        let lhs = a[i];
        let ghost row_base = mag_val(a@.take(i as int)) * mag_val(b@);
        let ghost pi = pow256(i as nat);
        if lhs != 0 {
            let mut carry: u32 = 0;
            let mut j: usize = 0;
            proof {
                assert(b@.take(0) =~= Seq::<u8>::empty());
                assert(mag_val(b@.take(0)) == 0);
                assert((lhs as nat) * pi * 0 == 0);
                assert((0u32 as nat) * pow256((i + 0) as nat) == 0);
            }
            while j < lb
                invariant
                    la == a@.len(),
                    lb == b@.len(),
                    i < la,
                    j <= lb,
                    lhs == a@[i as int],
                    la + lb <= MAX_DIGITS,
                    out@.len() == la + lb,
                    carry < 256,
                    pi == pow256(i as nat),
                    mag_val(out@) + (carry as nat) * pow256((i + j) as nat) == row_base + (lhs as nat)
                        * pi * mag_val(b@.take(j as int)),
                decreases lb - j,
            {
                let idx = i + j;
                let bj = b[j];
                assert((lhs as u32) * (bj as u32) <= 255 * 255) by (nonlinear_arith)
                    requires
                        lhs <= 255,
                        bj <= 255,
                ;
                let acc: u32 = out[idx] as u32 + (lhs as u32) * (bj as u32) + carry;
                let ghost old_out = out@;
                let ghost old_cell = out@[idx as int];
                out[idx] = (acc % 256) as u8;
                proof {
                    lemma_mag_update(old_out, idx as int, (acc % 256) as u8);
                    assert(out@ == old_out.update(idx as int, (acc % 256) as u8));
                    lemma_mul_cell_step(
                        mag_val(old_out),
                        old_cell as nat,
                        carry as nat,
                        row_base + (lhs as nat) * pi * mag_val(b@.take(j as int)),
                        lhs as nat,
                        b@[j as int] as nat,
                        pow256(idx as nat),
                        acc as nat,
                        mag_val(out@),
                    );
                    assert(b@.take((j + 1) as int).drop_last() =~= b@.take(j as int));
                    assert(mag_val(b@.take((j + 1) as int)) == mag_val(b@.take(j as int)) + (
                    b@[j as int] as nat) * pow256(j as nat));
                    lemma_pow256_add(i as nat, j as nat);
                    lemma_mul_row_extend(
                        mag_val(a@.take(i as int)),
                        mag_val(b@),
                        lhs as nat,
                        pi,
                        mag_val(b@.take(j as int)),
                        pow256(j as nat),
                        b@[j as int] as nat,
                    );
                    assert(pow256((idx + 1) as nat) == 256 * pow256(idx as nat));
                }
                carry = acc / 256;
                j += 1;
            }
            proof {
                assert(b@.take(lb as int) =~= b@);
            }
            let mut k = i + lb;
            while carry > 0 && k < out.len()
                invariant
                    la == a@.len(),
                    lb == b@.len(),
                    i < la,
                    i + lb <= k <= la + lb,
                    out@.len() == la + lb,
                    carry < 256,
                    mag_val(out@) + (carry as nat) * pow256(k as nat) == row_base + (lhs as nat) * pi
                        * mag_val(b@),
                decreases la + lb - k,
            {
                let acc: u32 = out[k] as u32 + carry;
                let ghost old_out = out@;
                let ghost old_cell = out@[k as int];
                out[k] = (acc % 256) as u8;
                proof {
                    lemma_mag_update(old_out, k as int, (acc % 256) as u8);
                    lemma_mul_cell_step(
                        mag_val(old_out),
                        old_cell as nat,
                        carry as nat,
                        row_base + (lhs as nat) * pi * mag_val(b@),
                        0,
                        0,
                        pow256(k as nat),
                        acc as nat,
                        mag_val(out@),
                    );
                    assert(pow256((k + 1) as nat) == 256 * pow256(k as nat));
                }
                carry = acc / 256;
                k += 1;
            }
            proof {
                lemma_prefix_succ(a@, i as nat);
                lemma_mul_row_done(mag_val(a@.take(i as int)), mag_val(b@), lhs as nat, pi);
                lemma_mul_fits(a@, b@, i as nat);
                if carry > 0 {
                    assert(k == la + lb);
                    lemma_mul_inequality(1, carry as int, pow256(k as nat) as int);
                    assert(false);
                }
                assert((carry as nat) * pow256(k as nat) == 0);
                assert(prefix_val(a@, i as nat) == mag_val(a@.take(i as int)));
                assert(prefix_val(a@, (i + 1) as nat) == mag_val(a@.take((i + 1) as int)));
                assert(digit_at(a@, i as int) == lhs);
                assert(mag_val(a@.take((i + 1) as int)) == mag_val(a@.take(i as int)) + (lhs as nat)
                    * pi);
            }
        } else {
            proof {
                lemma_prefix_succ(a@, i as nat);
                assert(digit_at(a@, i as int) == 0);
                assert(prefix_val(a@, i as nat) == mag_val(a@.take(i as int)));
                assert(prefix_val(a@, (i + 1) as nat) == mag_val(a@.take((i + 1) as int)));
                assert(0 * pow256(i as nat) == 0);
            }
        }
        i += 1;
    }
    proof {
        assert(a@.take(la as int) =~= a@);
    }
    mag_trim(&mut out);
    Some(out)
}


/// Subtract `b` from `rem` as many times as it goes; the count is the next
/// quotient digit of a schoolbook long division.
fn divide_step(rem: Vec<u8>, b: &[u8]) -> (r: (Vec<u8>, u8))
    requires
        rem@.len() >= 1,
        b@.len() >= 1,
        mag_val(b@) > 0,
        mag_val(rem@) < 256 * mag_val(b@),
    ensures
        r.0@.len() >= 1,
        mag_val(r.0@) < mag_val(b@),
        mag_val(r.0@) + r.1 * mag_val(b@) == mag_val(rem@),
{
    let ghost rem0 = mag_val(rem@);
    let mut remainder = rem;
    let mut digit: u8 = 0;
    loop
        invariant
            remainder@.len() >= 1,
            b@.len() >= 1,
            mag_val(b@) > 0,
            rem0 < 256 * mag_val(b@),
            rem0 == mag_val(rem@),
            mag_val(remainder@) + digit * mag_val(b@) == rem0,
        decreases mag_val(remainder@),
    {
        match mag_cmp(&remainder, b) {
            core::cmp::Ordering::Less => {
                return (remainder, digit);
            },
            _ => {},
        }
        proof {
            assert(mag_val(remainder@) >= mag_val(b@));
            assert((digit + 1) * mag_val(b@) <= rem0) by (nonlinear_arith)
                requires
                    mag_val(remainder@) + digit * mag_val(b@) == rem0,
                    mag_val(remainder@) >= mag_val(b@),
            ;
            assert(digit + 1 < 256) by (nonlinear_arith)
                requires
                    (digit + 1) * mag_val(b@) <= rem0,
                    rem0 < 256 * mag_val(b@),
            ;
        }
        let next = mag_sub(&remainder, b);
        match next {
            Some(v) => {
                remainder = v;
            },
            None => {
                proof {
                    assert(false);
                }
            },
        }
        proof {
            assert(mag_val(remainder@) + (digit + 1) * mag_val(b@) == rem0) by (nonlinear_arith)
                requires
                    mag_val(remainder@) + mag_val(b@) + digit * mag_val(b@) == rem0,
            ;
        }
        digit = digit + 1;
    }
}

proof fn lemma_div_step(ai: nat, r: nat, d: nat, rest: nat, q: nat, bm: nat, above: nat)
    requires
        above == q * bm + r,
        rest + d * bm == ai + 256 * r,
    ensures
        ai + 256 * above == (d + 256 * q) * bm + rest,
{
    assert(ai + 256 * above == (d + 256 * q) * bm + rest) by (nonlinear_arith)
        requires
            above == q * bm + r,
            rest + d * bm == ai + 256 * r,
    ;
}

/// Exact `a / b`. `None` when `b` is zero or the division is not exact.
pub fn mag_div_exact(a: &[u8], b: &[u8]) -> (r: Option<Vec<u8>>)
    requires
        a@.len() >= 1,
        b@.len() >= 1,
    ensures
        r.is_none() <==> (mag_val(b@) == 0 || mag_val(a@) % mag_val(b@) != 0),
        r matches Some(q) ==> mag_val(b@) > 0 && mag_val(q@) == mag_val(a@) / mag_val(b@) && 1
            <= q@.len() <= a@.len() && (a@.len() <= MAX_DIGITS + 1 ==> is_trimmed(q@)),
{
    if all_zero(b) {
        return None;
    }
    let la = a.len();
    let mut quotient: Vec<u8> = vec![0u8; la];
    let mut remainder: Vec<u8> = vec![0u8];
    proof {
        assert(a@.skip(la as int) =~= Seq::<u8>::empty());
        assert(quotient@.skip(la as int) =~= Seq::<u8>::empty());
        assert(cloned(0u8, remainder@[0]));
        lemma_mag_zero_iff(remainder@);
        assert(0 * mag_val(b@) == 0);
    }
    let mut i = la;
    while i > 0
        invariant
            la == a@.len(),
            i <= la,
            quotient@.len() == la,
            remainder@.len() >= 1,
            mag_val(b@) > 0,
            mag_val(remainder@) < mag_val(b@),
            mag_val(a@.skip(i as int)) == mag_val(quotient@.skip(i as int)) * mag_val(b@)
                + mag_val(remainder@),
        decreases i,
    {
        i -= 1;
        let ghost r_before = mag_val(remainder@);
        let ghost old_rem = remainder@;
        remainder.insert(0, a[i]);
        proof {
            assert(remainder@ =~= seq![a@[i as int]] + old_rem);
            lemma_mag_prepend(a@[i as int], old_rem);
        }
        mag_trim(&mut remainder);
        proof {
            assert(mag_val(remainder@) < 256 * mag_val(b@));
        }
        let (rest, digit) = divide_step(remainder, b);
        remainder = rest;
        let ghost old_q = quotient@;
        quotient[i] = digit;
        proof {
            lemma_mag_skip_prepend(a@, i as int);
            assert(quotient@ == old_q.update(i as int, digit));
            assert(quotient@.skip(i as int) =~= seq![digit] + old_q.skip(i + 1));
            assert(quotient@.skip(i + 1) =~= old_q.skip(i + 1));
            lemma_mag_prepend(digit, old_q.skip(i + 1));
            lemma_div_step(
                a@[i as int] as nat,
                r_before,
                digit as nat,
                mag_val(remainder@),
                mag_val(old_q.skip(i + 1)),
                mag_val(b@),
                mag_val(a@.skip(i + 1)),
            );
        }
    }
    proof {
        assert(a@.skip(0) =~= a@);
        assert(quotient@.skip(0) =~= quotient@);
        lemma_fundamental_div_mod_converse(
            mag_val(a@) as int,
            mag_val(b@) as int,
            mag_val(quotient@) as int,
            mag_val(remainder@) as int,
        );
    }
    if !all_zero(&remainder) {
        return None;
    }
    mag_trim(&mut quotient);
    Some(quotient)
}

} // verus!
