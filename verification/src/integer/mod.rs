//! # Integer
//!
//! `ArithmaInteger` is the exact, unlimited-precision integer used in place of
//! `f64` and `i64` throughout the engine. The design is split in two:
//!
//! - [`ArithmaInternalInteger`] holds the flags and the little-endian base-256
//!   digits;
//! - [`ArithmaInteger`] adds an optional base SI unit.
//!
//! Special values (NaN, infinity, imaginary, infinitesimal, exact-rational) are
//! flag bits inside the internal representation. Arithmetic only ever folds
//! plain integers: anything flagged is refused with `None` ("leave it
//! symbolic") rather than guessed at.
//!
//! The value a representation denotes is [`ArithmaInternalInteger::int_value`];
//! every operation is specified against it.

use vstd::prelude::*;

pub mod flag;
pub mod laws;
pub mod magnitude;

use vstd::arithmetic::div_mod::*;
use vstd::arithmetic::mul::*;

use self::magnitude::{
    all_zero, digit_count, is_trimmed, lemma_mag_push,
    lemma_mag_skip_prepend, lemma_mag_split, lemma_mag_take_high_zero, lemma_mag_zero_iff,
    lemma_pow256_mono, lemma_trimmed_len, mag_add, mag_cmp, mag_div_exact, mag_mul, mag_sub,
    mag_val, pow256, MAX_DIGITS,
};

verus! {

/// Largest exponent [`ArithmaInternalInteger::checked_pow`] will evaluate.
///
/// Larger powers are left symbolic rather than attempted.
pub const MAX_POW_EXPONENT: u32 = 1024;

/// Tunable behaviour for `ArithmaInteger`.
#[derive(Debug, Clone)]
pub struct ArithmaIntegerConfig {
    /// Try to extract symbolic constants from f64 inputs when possible.
    pub extract_constants_from_floats: bool,
}

impl Default for ArithmaIntegerConfig {
    fn default() -> (r: Self)
        ensures
            r.extract_constants_from_floats,
    {
        ArithmaIntegerConfig { extract_constants_from_floats: true }
    }
}

/// Unlimited-precision integer with bit flags for special values.
///
/// Digits are stored little-endian (least-significant byte first). A
/// well-formed value has at least one digit and at most `MAX_DIGITS`.
#[derive(Debug, Clone, PartialEq, Eq, Hash)]
pub struct ArithmaInternalInteger {
    /// Special-value flags. See [`flag`].
    pub flags: u16,
    /// Base-256 little-endian digits.
    pub value: Vec<u8>,
}

/// `base ^ exponent` over the integers.
pub open spec fn pow_int(base: int, exponent: nat) -> int
    decreases exponent,
{
    if exponent == 0 {
        1
    } else {
        base * pow_int(base, (exponent - 1) as nat)
    }
}

/// Whether every intermediate power in `checked_pow`'s repeated
/// multiplication stays inside the digit cap.
pub open spec fn pow_fits(base_magnitude: nat, base_len: nat, exponent: nat) -> bool {
    forall|k: nat|
        k < exponent ==> #[trigger] digit_count(pow_int(base_magnitude as int, k) as nat) + base_len
            <= MAX_DIGITS
}

impl ArithmaInternalInteger {
    /// At least one digit and no more than the digit cap.
    pub open spec fn wf(&self) -> bool {
        1 <= self.value@.len() <= MAX_DIGITS
    }

    /// The unsigned value of the digits.
    pub open spec fn magnitude(&self) -> nat {
        mag_val(self.value@)
    }

    pub open spec fn negative_flag(&self) -> bool {
        self.flags & flag::NEGATIVE != 0
    }

    pub open spec fn nan_flag(&self) -> bool {
        self.flags & flag::NAN != 0
    }

    pub open spec fn infinity_flag(&self) -> bool {
        self.flags & flag::INFINITY != 0
    }

    pub open spec fn rational_flag(&self) -> bool {
        self.flags & flag::RATIONAL != 0
    }

    /// No flag is set other than the sign.
    pub open spec fn plain(&self) -> bool {
        self.flags & !flag::NEGATIVE == 0
    }

    /// The signed integer this representation denotes.
    pub open spec fn int_value(&self) -> int {
        if self.negative_flag() {
            -(self.magnitude() as int)
        } else {
            self.magnitude() as int
        }
    }

    /// The form every arithmetic result takes: a plain integer, trimmed
    /// digits, and no negative zero.
    pub open spec fn canonical(&self) -> bool {
        &&& self.plain()
        &&& is_trimmed(self.value@)
        &&& !(self.negative_flag() && self.magnitude() == 0)
    }

    /// Whether `checked_add` folds these operands: both plain, and either the
    /// signs differ or both magnitudes are shorter than the digit cap.
    pub open spec fn add_defined(&self, other: &Self) -> bool {
        &&& self.plain()
        &&& other.plain()
        &&& (self.negative_flag() != other.negative_flag() || (self.value@.len() < MAX_DIGITS
            && other.value@.len() < MAX_DIGITS))
    }

    /// Whether `checked_sub` folds these operands.
    pub open spec fn sub_defined(&self, other: &Self) -> bool {
        &&& self.plain()
        &&& other.plain()
        &&& (self.negative_flag() == other.negative_flag() || (self.value@.len() < MAX_DIGITS
            && other.value@.len() < MAX_DIGITS))
    }

    /// Whether `checked_mul` folds these operands.
    pub open spec fn mul_defined(&self, other: &Self) -> bool {
        &&& self.plain()
        &&& other.plain()
        &&& self.value@.len() + other.value@.len() <= MAX_DIGITS
    }

    /// Whether `checked_div_exact` folds these operands.
    pub open spec fn div_defined(&self, other: &Self) -> bool {
        &&& self.plain()
        &&& other.plain()
        &&& other.magnitude() != 0
        &&& self.magnitude() % other.magnitude() == 0
    }

    /// Whether `checked_pow` folds this base with this exponent.
    pub open spec fn pow_defined(&self, exponent: nat) -> bool {
        &&& self.plain()
        &&& exponent <= MAX_POW_EXPONENT
        &&& pow_fits(self.magnitude(), self.value@.len(), exponent)
    }

    /// Construct a fresh zero. Flags are cleared.
    pub fn new() -> (r: Self)
        ensures
            r.flags == 0,
            r.value@ == seq![0u8],
            r.wf(),
            r.canonical(),
            r.int_value() == 0,
    {
        let r = ArithmaInternalInteger { flags: 0, value: vec![0u8] };
        proof {
            assert(cloned(0u8, r.value@[0]));
            assert(r.value@ =~= seq![0u8]);
            lemma_mag_zero_iff(r.value@);
            lemma_flags_zero();
        }
        r
    }

    /// Construct from a `u64`. Zero is canonicalised to a single `0` digit.
    pub fn from_u64(value: u64) -> (r: Self)
        ensures
            r.flags == 0,
            r.magnitude() == value,
            r.wf(),
            r.canonical(),
            r.int_value() == value,
            r.value@.len() <= 8,
    {
        if value == 0 {
            return Self::new();
        }
        let mut bytes: Vec<u8> = Vec::with_capacity(8);
        let mut v = value;
        let mut guard: usize = 0;
        proof {
            lemma_pow256_eight();
            assert(bytes@ =~= Seq::<u8>::empty());
            assert(mag_val(bytes@) == 0);
            assert(pow256(0) == 1);
            assert(v * pow256(0) == v);
        }
        while v > 0 && guard < 9
            invariant
                guard <= 8,
                bytes@.len() == guard,
                mag_val(bytes@) + v * pow256(guard as nat) == value,
                v < pow256((8 - guard) as nat),
                value > 0,
                bytes@.len() > 0 && v == 0 ==> bytes@.last() != 0,
            decreases v,
        {
            let ghost before = bytes@;
            bytes.push((v % 256) as u8);
            proof {
                lemma_mag_push(before, (v % 256) as u8);
                lemma_fundamental_div_mod(v as int, 256);
                let p = pow256(guard as nat);
                let q = v / 256;
                let r = v % 256;
                assert(pow256((guard + 1) as nat) == 256 * p);
                assert(r * p + q * (256 * p) == v * p) by (nonlinear_arith)
                    requires
                        v == 256 * q + r,
                ;
                if guard == 8 {
                    assert(pow256(0) == 1);
                }
                assert(pow256((8 - guard) as nat) == 256 * pow256((8 - guard - 1) as nat));
            }
            v = v / 256;
            guard += 1;
        }
        proof {
            lemma_mul_basics_nat(pow256(guard as nat));
            lemma_flags_zero();
        }
        ArithmaInternalInteger { flags: 0, value: bytes }
    }

    /// Construct from an `i64`. The sign goes into the [`flag::NEGATIVE`] bit.
    pub fn from_i64(value: i64) -> (r: Self)
        ensures
            r.wf(),
            r.canonical(),
            r.int_value() == value,
            r.magnitude() == if value < 0 {
                -value
            } else {
                value as int
            },
    {
        let negative = value < 0;
        let magnitude: u64 = if negative {
            (0 - (value as i128)) as u64
        } else {
            value as u64
        };
        let mut out = Self::from_u64(magnitude);
        if negative {
            out.flags = out.flags | flag::NEGATIVE;
            proof {
                lemma_flags_zero();
            }
        }
        out
    }

    /// Set or clear the negative flag. Other flags and the digits are kept.
    pub fn set_negative(&mut self, neg: bool)
        ensures
            final(self).negative_flag() == neg,
            final(self).flags & !flag::NEGATIVE == old(self).flags & !flag::NEGATIVE,
            final(self).value == old(self).value,
    {
        proof {
            lemma_sign_bits(self.flags);
        }
        if neg {
            self.flags = self.flags | flag::NEGATIVE;
        } else {
            self.flags = self.flags & !flag::NEGATIVE;
        }
    }

    /// Read the negative flag.
    pub fn is_negative(&self) -> (r: bool)
        ensures
            r == self.negative_flag(),
    {
        self.flags & flag::NEGATIVE != 0
    }

    /// Read the rational flag.
    pub fn is_rational(&self) -> (r: bool)
        ensures
            r == self.rational_flag(),
    {
        self.flags & flag::RATIONAL != 0
    }

    /// Read the infinity flag.
    pub fn is_infinity(&self) -> (r: bool)
        ensures
            r == self.infinity_flag(),
    {
        self.flags & flag::INFINITY != 0
    }

    /// Read the NaN flag.
    pub fn is_nan(&self) -> (r: bool)
        ensures
            r == self.nan_flag(),
    {
        self.flags & flag::NAN != 0
    }

    /// True when the value is exactly zero, ignoring the sign bit (negative
    /// zero is reachable through [`set_negative`](Self::set_negative)).
    pub fn is_zero(&self) -> (r: bool)
        requires
            self.wf(),
        ensures
            r == (!self.nan_flag() && !self.infinity_flag() && self.magnitude() == 0),
    {
        !self.is_nan() && !self.is_infinity() && all_zero(self.value.as_slice())
    }

    /// True when the value is exactly `+1`.
    pub fn is_one(&self) -> (r: bool)
        requires
            self.value@.len() >= 1,
        ensures
            r == (!self.negative_flag() && !self.nan_flag() && !self.infinity_flag()
                && self.magnitude() == 1),
    {
        if self.is_negative() || self.is_nan() || self.is_infinity() {
            return false;
        }
        let digits = self.value.as_slice();
        let rest = &digits[1..digits.len()];
        proof {
            lemma_mag_skip_prepend(self.value@, 0);
            assert(self.value@.skip(0) =~= self.value@);
            assert(rest@ =~= self.value@.skip(1));
        }
        self.value[0] == 1 && all_zero(rest)
    }

    /// True when this is an ordinary finite integer: no flag other than the
    /// sign bit. Arithmetic refuses anything else rather than guessing.
    pub fn is_plain_integer(&self) -> (r: bool)
        requires
            self.wf(),
        ensures
            r == self.plain(),
    {
        self.flags & !flag::NEGATIVE == 0
    }

    /// Build from a sign and magnitude, canonicalising negative zero to `+0`.
    fn from_parts(magnitude: Vec<u8>, negative: bool) -> (r: Self)
        requires
            1 <= magnitude@.len() <= MAX_DIGITS,
        ensures
            r.value == magnitude,
            r.wf(),
            r.plain(),
            r.negative_flag() == (negative && mag_val(magnitude@) != 0),
            !(r.negative_flag() && r.magnitude() == 0),
    {
        let is_zero = all_zero(magnitude.as_slice());
        let mut out = ArithmaInternalInteger { flags: 0, value: magnitude };
        proof {
            lemma_flags_zero();
        }
        if negative && !is_zero {
            out.flags = out.flags | flag::NEGATIVE;
        }
        out
    }

    /// Exact `self + other`.
    ///
    /// Returns `None` if either operand carries a special flag, or if the
    /// signs agree and an operand already has `MAX_DIGITS` digits (the sum
    /// could then exceed the cap). Callers read `None` as "leave it symbolic".
    pub fn checked_add(&self, other: &Self) -> (r: Option<Self>)
        requires
            self.wf(),
            other.wf(),
        ensures
            r.is_some() <==> self.add_defined(other),
            r matches Some(v) ==> v.wf() && v.canonical() && v.int_value() == self.int_value()
                + other.int_value(),
    {
        if !self.is_plain_integer() || !other.is_plain_integer() {
            return None;
        }
        if self.is_negative() == other.is_negative() {
            match mag_add(self.value.as_slice(), other.value.as_slice()) {
                Some(m) => Some(Self::from_parts(m, self.is_negative())),
                None => None,
            }
        } else {
            // Opposite signs: subtract the smaller magnitude from the larger
            // and take the larger operand's sign.
            add_opposite_signs(self, other)
        }
    }

    /// Exact `self - other`: the sum of `self` and `other` with its sign
    /// flipped. Same refusal rules as [`checked_add`](Self::checked_add).
    pub fn checked_sub(&self, other: &Self) -> (r: Option<Self>)
        requires
            self.wf(),
            other.wf(),
        ensures
            r.is_some() <==> self.sub_defined(other),
            r matches Some(v) ==> v.wf() && v.canonical() && v.int_value() == self.int_value()
                - other.int_value(),
    {
        if !self.is_plain_integer() || !other.is_plain_integer() {
            return None;
        }
        let mut negated = ArithmaInternalInteger { flags: other.flags, value: other.value.clone() };
        proof {
            assert(negated.value@ =~= other.value@);
        }
        negated.set_negative(!other.is_negative());
        self.checked_add(&negated)
    }

    /// Exact `self * other`. Refused for flagged operands and when the digit
    /// counts together exceed `MAX_DIGITS`.
    pub fn checked_mul(&self, other: &Self) -> (r: Option<Self>)
        requires
            self.wf(),
            other.wf(),
        ensures
            r.is_some() <==> self.mul_defined(other),
            r matches Some(v) ==> v.wf() && v.canonical() && v.int_value() == self.int_value()
                * other.int_value(),
    {
        if !self.is_plain_integer() || !other.is_plain_integer() {
            return None;
        }
        match mag_mul(self.value.as_slice(), other.value.as_slice()) {
            Some(m) => {
                let out = Self::from_parts(m, self.is_negative() != other.is_negative());
                proof {
                    lemma_signed_product(
                        self.magnitude() as int,
                        other.magnitude() as int,
                        self.negative_flag(),
                        other.negative_flag(),
                    );
                }
                Some(out)
            },
            None => None,
        }
    }

    /// Exact `self / other`.
    ///
    /// `None` when the divisor is zero or the quotient is not exact: an
    /// inexact division stays symbolic so no precision is lost silently.
    pub fn checked_div_exact(&self, other: &Self) -> (r: Option<Self>)
        requires
            self.wf(),
            other.wf(),
        ensures
            r.is_some() <==> self.div_defined(other),
            r matches Some(v) ==> v.wf() && v.canonical() && v.int_value() * other.int_value()
                == self.int_value(),
    {
        if !self.is_plain_integer() || !other.is_plain_integer() || other.is_zero() {
            proof {
                lemma_plain_not_special(other.flags);
            }
            return None;
        }
        match mag_div_exact(self.value.as_slice(), other.value.as_slice()) {
            Some(m) => {
                let out = Self::from_parts(m, self.is_negative() != other.is_negative());
                proof {
                    let a = self.magnitude() as int;
                    let b = other.magnitude() as int;
                    lemma_fundamental_div_mod(a, b);
                    lemma_signed_product(
                        (a / b) as int,
                        b,
                        self.negative_flag() != other.negative_flag(),
                        other.negative_flag(),
                    );
                }
                Some(out)
            },
            None => None,
        }
    }

    /// Exact `self ^ exponent`.
    ///
    /// The exponent is capped at [`MAX_POW_EXPONENT`] and every intermediate
    /// power at `MAX_DIGITS`, so a crafted input cannot exhaust memory.
    pub fn checked_pow(&self, exponent: u32) -> (r: Option<Self>)
        requires
            self.wf(),
        ensures
            r.is_some() <==> self.pow_defined(exponent as nat),
            r matches Some(v) ==> v.wf() && v.canonical() && v.int_value() == pow_int(
                self.int_value(),
                exponent as nat,
            ),
    {
        if !self.is_plain_integer() || exponent > MAX_POW_EXPONENT {
            return None;
        }
        let mut acc = Self::from_u64(1);
        let mut k: u32 = 0;
        while k < exponent
            invariant
                self.wf(),
                self.plain(),
                k <= exponent,
                acc.wf(),
                acc.canonical(),
                acc.int_value() == pow_int(self.int_value(), k as nat),
                pow_fits(self.magnitude(), self.value@.len(), k as nat),
            decreases exponent - k,
        {
            proof {
                lemma_pow_magnitude(self.int_value(), self.magnitude(), k as nat);
                lemma_trimmed_len(acc.value@);
                assert(acc.magnitude() == pow_int(self.magnitude() as int, k as nat));
            }
            match acc.checked_mul(self) {
                Some(next) => {
                    proof {
                        assert forall|j: nat| j < (k + 1) as nat implies #[trigger] digit_count(
                            pow_int(self.magnitude() as int, j) as nat,
                        ) + self.value@.len() <= MAX_DIGITS by {
                            if j < k as nat {
                                assert(pow_fits(self.magnitude(), self.value@.len(), k as nat));
                            }
                        }
                        assert(pow_int(self.int_value(), (k + 1) as nat) == self.int_value()
                            * pow_int(self.int_value(), k as nat));
                    }
                    acc = next;
                },
                None => {
                    proof {
                        assert(!pow_fits(self.magnitude(), self.value@.len(), exponent as nat)) by {
                            assert(k < exponent);
                        }
                    }
                    return None;
                },
            }
            k += 1;
        }
        Some(acc)
    }

    /// Read the value as a `u32`, for use as an exponent. `None` if it is
    /// negative, flagged, or too large.
    pub fn to_u32(&self) -> (r: Option<u32>)
        requires
            self.wf(),
        ensures
            r.is_some() <==> (self.plain() && !self.negative_flag() && self.magnitude()
                < 0x1_0000_0000),
            r matches Some(x) ==> x == self.magnitude(),
    {
        if !self.is_plain_integer() || self.is_negative() {
            return None;
        }
        let len = self.value.len();
        // Anything above the low 4 digits cannot fit a u32.
        let digits = self.value.as_slice();
        if len > 4 && !all_zero(&digits[4..len]) {
            proof {
                lemma_mag_split(self.value@, 4);
                assert(self.value@.subrange(4, self.value@.len() as int) =~= self.value@.skip(4));
                assert(mag_val(self.value@.skip(4)) != 0);
                lemma_pow256_four();
                lemma_mul_inequality(1, mag_val(self.value@.skip(4)) as int, pow256(4) as int);
                assert(self.magnitude() >= pow256(4));
            }
            return None;
        }
        let top: usize = if len < 4 {
            len
        } else {
            4
        };
        let mut acc: u32 = 0;
        let mut scale: u32 = 1;
        let mut i: usize = 0;
        proof {
            assert(self.value@.take(0) =~= Seq::<u8>::empty());
            lemma_pow256_four();
        }
        while i < top
            invariant
                top <= 4,
                top <= self.value@.len(),
                i <= top,
                i < 4 ==> scale == pow256(i as nat),
                acc == mag_val(self.value@.take(i as int)),
                acc < pow256(i as nat),
                pow256(4) == 0x1_0000_0000,
            decreases top - i,
        {
            proof {
                lemma_pow256_mono((i + 1) as nat, 4);
                assert(pow256((i + 1) as nat) == 256 * pow256(i as nat));
                assert(self.value@.take((i + 1) as int).drop_last() =~= self.value@.take(i as int));
                let d = self.value@[i as int];
                assert(acc + d * scale < 256 * scale) by (nonlinear_arith)
                    requires
                        acc < scale,
                        d <= 255,
                ;
            }
            acc = acc + (self.value[i] as u32) * scale;
            if i + 1 < 4 {
                scale = scale * 256;
            }
            i += 1;
        }
        proof {
            if len > 4 {
                let high = self.value@.subrange(4, self.value@.len() as int);
                assert forall|j: int| 4 <= j < self.value@.len() implies self.value@[j] == 0 by {
                    assert(high[j - 4] == self.value@[j]);
                }
                lemma_mag_take_high_zero(self.value@, 4);
            } else {
                assert(self.value@.take(top as int) =~= self.value@);
            }
        }
        Some(acc)
    }
}

impl Default for ArithmaInternalInteger {
    fn default() -> (r: Self)
        ensures
            r.flags == 0,
            r.value@ == seq![0u8],
    {
        Self::new()
    }
}

/// The view of an optional unit: its characters, if there is one.
pub open spec fn unit_view(u: Option<String>) -> Option<Seq<char>> {
    match u {
        Some(s) => Some(s@),
        None => None,
    }
}

/// Two optional units agree: both absent, or both present and spelled alike.
pub open spec fn units_match(a: Option<String>, b: Option<String>) -> bool {
    match a {
        None => b is None,
        Some(x) => match b {
            Some(y) => x@ == y@,
            None => false,
        },
    }
}

/// Public-facing integer with optional base-SI-unit attribution.
#[derive(Debug, Clone)]
pub struct ArithmaInteger {
    /// Underlying integer value.
    pub value: ArithmaInternalInteger,
    /// Optional base SI unit (only the seven base units: m, kg, s, A, K, mol, cd).
    pub unit: Option<String>,
}

impl ArithmaInteger {
    pub open spec fn wf(&self) -> bool {
        self.value.wf()
    }

    /// The signed integer this value denotes, ignoring its unit.
    pub open spec fn int_value(&self) -> int {
        self.value.int_value()
    }

    /// True when the value is exactly zero.
    pub fn is_zero(&self) -> (r: bool)
        requires
            self.wf(),
        ensures
            r == (!self.value.nan_flag() && !self.value.infinity_flag() && self.value.magnitude()
                == 0),
    {
        self.value.is_zero()
    }

    /// True when the value is exactly `+1`.
    pub fn is_one(&self) -> (r: bool)
        requires
            self.wf(),
        ensures
            r == (!self.value.negative_flag() && !self.value.nan_flag()
                && !self.value.infinity_flag() && self.value.magnitude() == 1),
    {
        self.value.is_one()
    }

    /// Unit-aware exact addition.
    ///
    /// Refuses to combine operands with differing units: adding metres to
    /// seconds is a modelling error, and returning a unitless number would
    /// hide it. Matching units (including both absent) propagate.
    pub fn checked_add(&self, other: &Self) -> (r: Option<Self>)
        requires
            self.wf(),
            other.wf(),
        ensures
            r.is_some() <==> (units_match(self.unit, other.unit) && self.value.add_defined(
                &other.value,
            )),
            r matches Some(v) ==> v.wf() && v.value.canonical() && v.int_value()
                == self.int_value() + other.int_value() && unit_view(v.unit) == unit_view(
                self.unit,
            ),
    {
        let unit = combine_units(self, other)?;
        let value = self.value.checked_add(&other.value)?;
        Some(ArithmaInteger { value, unit })
    }

    /// Unit-aware exact subtraction. See [`checked_add`](Self::checked_add).
    pub fn checked_sub(&self, other: &Self) -> (r: Option<Self>)
        requires
            self.wf(),
            other.wf(),
        ensures
            r.is_some() <==> (units_match(self.unit, other.unit) && self.value.sub_defined(
                &other.value,
            )),
            r matches Some(v) ==> v.wf() && v.value.canonical() && v.int_value()
                == self.int_value() - other.int_value() && unit_view(v.unit) == unit_view(
                self.unit,
            ),
    {
        let unit = combine_units(self, other)?;
        let value = self.value.checked_sub(&other.value)?;
        Some(ArithmaInteger { value, unit })
    }

    /// Exact multiplication of unitless operands: `m * m` is m^2, which this
    /// type cannot express, so the fold is refused rather than mislabelled.
    pub fn checked_mul(&self, other: &Self) -> (r: Option<Self>)
        requires
            self.wf(),
            other.wf(),
        ensures
            r.is_some() <==> (self.unit.is_none() && other.unit.is_none()
                && self.value.mul_defined(&other.value)),
            r matches Some(v) ==> v.wf() && v.value.canonical() && v.int_value()
                == self.int_value() * other.int_value() && v.unit.is_none(),
    {
        if self.unit.is_some() || other.unit.is_some() {
            return None;
        }
        let value = self.value.checked_mul(&other.value)?;
        Some(ArithmaInteger { value, unit: None })
    }

    /// Exact division of unitless operands, only when the quotient is exact.
    pub fn checked_div_exact(&self, other: &Self) -> (r: Option<Self>)
        requires
            self.wf(),
            other.wf(),
        ensures
            r.is_some() <==> (self.unit.is_none() && other.unit.is_none()
                && self.value.div_defined(&other.value)),
            r matches Some(v) ==> v.wf() && v.value.canonical() && v.int_value()
                * other.int_value() == self.int_value() && v.unit.is_none(),
    {
        if self.unit.is_some() || other.unit.is_some() {
            return None;
        }
        let value = self.value.checked_div_exact(&other.value)?;
        Some(ArithmaInteger { value, unit: None })
    }

    /// Exact exponentiation of a unitless value by a small exponent.
    pub fn checked_pow(&self, exponent: u32) -> (r: Option<Self>)
        requires
            self.wf(),
        ensures
            r.is_some() <==> (self.unit.is_none() && self.value.pow_defined(exponent as nat)),
            r matches Some(v) ==> v.wf() && v.value.canonical() && v.int_value() == pow_int(
                self.int_value(),
                exponent as nat,
            ) && v.unit.is_none(),
    {
        if self.unit.is_some() {
            return None;
        }
        let value = self.value.checked_pow(exponent)?;
        Some(ArithmaInteger { value, unit: None })
    }

    /// Negation. Keeps the unit and the digits; never fails for a plain
    /// integer, and never produces a negative zero.
    pub fn checked_neg(&self) -> (r: Option<Self>)
        requires
            self.wf(),
        ensures
            r.is_some() <==> self.value.plain(),
            r matches Some(v) ==> v.wf() && v.value.plain() && v.value.value@
                == self.value.value@ && v.value.negative_flag() == (!self.value.negative_flag()
                && self.value.magnitude() != 0) && v.int_value() == -self.int_value()
                && unit_view(v.unit) == unit_view(self.unit),
    {
        if !self.value.is_plain_integer() {
            return None;
        }
        let mut value = ArithmaInternalInteger {
            flags: self.value.flags,
            value: self.value.value.clone(),
        };
        proof {
            assert(value.value@ =~= self.value.value@);
            lemma_plain_not_special(value.flags);
        }
        let negative = !value.is_negative();
        let zero = value.is_zero();
        value.set_negative(negative && !zero);
        Some(ArithmaInteger { value, unit: clone_unit(&self.unit) })
    }

    /// Read as a `u32` exponent, if it is unitless, non-negative and fits.
    pub fn to_u32(&self) -> (r: Option<u32>)
        requires
            self.wf(),
        ensures
            r.is_some() <==> (self.unit.is_none() && self.value.plain()
                && !self.value.negative_flag() && self.value.magnitude() < 0x1_0000_0000),
            r matches Some(x) ==> x == self.value.magnitude(),
    {
        if self.unit.is_some() {
            return None;
        }
        self.value.to_u32()
    }

    /// Construct zero.
    pub fn zero() -> (r: Self)
        ensures
            r.wf(),
            r.value.canonical(),
            r.value.flags == 0,
            r.value.value@ == seq![0u8],
            r.int_value() == 0,
            r.unit.is_none(),
    {
        ArithmaInteger { value: ArithmaInternalInteger::new(), unit: None }
    }

    /// Construct from a `u64`.
    pub fn from_u64(value: u64) -> (r: Self)
        ensures
            r.wf(),
            r.value.canonical(),
            r.value.flags == 0,
            r.int_value() == value,
            r.unit.is_none(),
    {
        ArithmaInteger { value: ArithmaInternalInteger::from_u64(value), unit: None }
    }

    /// Construct from an `i64`.
    pub fn from_i64(value: i64) -> (r: Self)
        ensures
            r.wf(),
            r.value.canonical(),
            r.int_value() == value,
            r.unit.is_none(),
    {
        ArithmaInteger { value: ArithmaInternalInteger::from_i64(value), unit: None }
    }

    /// The infinity sentinel: a zero magnitude carrying the infinity flag.
    pub fn infinity() -> (r: Self)
        ensures
            r.wf(),
            r.value.flags == flag::INFINITY,
            r.value.value@ == seq![0u8],
            r.value.infinity_flag(),
            !r.value.nan_flag(),
            !r.value.negative_flag(),
            !r.value.plain(),
            r.unit.is_none(),
    {
        let mut v = ArithmaInternalInteger::new();
        v.flags = v.flags | flag::INFINITY;
        proof {
            assert((0u16 | 4u16) == 4u16) by (bit_vector);
            lemma_special_bits();
        }
        ArithmaInteger { value: v, unit: None }
    }

    /// The NaN sentinel: a zero magnitude carrying the NaN flag.
    pub fn nan() -> (r: Self)
        ensures
            r.wf(),
            r.value.flags == flag::NAN,
            r.value.value@ == seq![0u8],
            r.value.nan_flag(),
            !r.value.infinity_flag(),
            !r.value.negative_flag(),
            !r.value.plain(),
            r.unit.is_none(),
    {
        let mut v = ArithmaInternalInteger::new();
        v.flags = v.flags | flag::NAN;
        proof {
            assert((0u16 | 8u16) == 8u16) by (bit_vector);
            lemma_special_bits();
        }
        ArithmaInteger { value: v, unit: None }
    }
}

impl Default for ArithmaInteger {
    fn default() -> (r: Self)
        ensures
            r.value.flags == 0,
            r.value.value@ == seq![0u8],
            r.unit.is_none(),
    {
        Self::zero()
    }
}

/// Unit for the result of an additive operation, or `None` if incompatible.
///
/// The nested `Option` is deliberate: the outer layer is "can these combine",
/// the inner is "does the result carry a unit".
fn combine_units(a: &ArithmaInteger, b: &ArithmaInteger) -> (r: Option<Option<String>>)
    ensures
        r.is_some() <==> units_match(a.unit, b.unit),
        r matches Some(u) ==> unit_view(u) == unit_view(a.unit),
{
    match &a.unit {
        None => match &b.unit {
            None => Some(None),
            Some(_) => None,
        },
        Some(x) => match &b.unit {
            None => None,
            Some(y) => {
                let same = x.eq(y);
                if same {
                    Some(Some(x.clone()))
                } else {
                    None
                }
            },
        },
    }
}

/// A copy of an optional unit.
fn clone_unit(u: &Option<String>) -> (r: Option<String>)
    ensures
        unit_view(r) == unit_view(*u),
{
    match u {
        Some(s) => Some(s.clone()),
        None => None,
    }
}

/// `self + other` for operands of opposite sign.
fn add_opposite_signs(a: &ArithmaInternalInteger, b: &ArithmaInternalInteger) -> (r: Option<
    ArithmaInternalInteger,
>)
    requires
        a.wf(),
        b.wf(),
        a.plain(),
        b.plain(),
        a.negative_flag() != b.negative_flag(),
    ensures
        r matches Some(v) && v.wf() && v.canonical() && v.int_value() == a.int_value()
            + b.int_value(),
{
    let smaller = mag_less(a.value.as_slice(), b.value.as_slice());
    if smaller {
        match mag_sub(b.value.as_slice(), a.value.as_slice()) {
            Some(m) => Some(ArithmaInternalInteger::from_parts(m, b.is_negative())),
            None => None,
        }
    } else {
        match mag_sub(a.value.as_slice(), b.value.as_slice()) {
            Some(m) => Some(ArithmaInternalInteger::from_parts(m, a.is_negative())),
            None => None,
        }
    }
}

/// `mag_val(a) < mag_val(b)`, by the three-way digit comparison.
fn mag_less(a: &[u8], b: &[u8]) -> (r: bool)
    requires
        a@.len() >= 1,
        b@.len() >= 1,
    ensures
        r == (mag_val(a@) < mag_val(b@)),
{
    match mag_cmp(a, b) {
        core::cmp::Ordering::Less => true,
        _ => false,
    }
}

// ---------------------------------------------------------------------------
// Proof helpers
// ---------------------------------------------------------------------------

proof fn lemma_flags_zero()
    ensures
        0u16 & flag::NEGATIVE == 0,
        0u16 & !flag::NEGATIVE == 0,
        (0u16 | flag::NEGATIVE) & flag::NEGATIVE != 0,
        (0u16 | flag::NEGATIVE) & !flag::NEGATIVE == 0,
        0u16 & flag::NAN == 0,
        0u16 & flag::INFINITY == 0,
{
    assert(0u16 & 1u16 == 0) by (bit_vector);
    assert(0u16 & !1u16 == 0) by (bit_vector);
    assert((0u16 | 1u16) & 1u16 != 0) by (bit_vector);
    assert((0u16 | 1u16) & !1u16 == 0) by (bit_vector);
    assert(0u16 & 8u16 == 0) by (bit_vector);
    assert(0u16 & 4u16 == 0) by (bit_vector);
}

proof fn lemma_sign_bits(f: u16)
    ensures
        (f | flag::NEGATIVE) & flag::NEGATIVE != 0,
        (f & !flag::NEGATIVE) & flag::NEGATIVE == 0,
        (f | flag::NEGATIVE) & !flag::NEGATIVE == f & !flag::NEGATIVE,
        (f & !flag::NEGATIVE) & !flag::NEGATIVE == f & !flag::NEGATIVE,
{
    assert((f | 1u16) & 1u16 != 0) by (bit_vector);
    assert((f & !1u16) & 1u16 == 0) by (bit_vector);
    assert((f | 1u16) & !1u16 == f & !1u16) by (bit_vector);
    assert((f & !1u16) & !1u16 == f & !1u16) by (bit_vector);
}

proof fn lemma_plain_not_special(f: u16)
    ensures
        f & !flag::NEGATIVE == 0 ==> f & flag::NAN == 0 && f & flag::INFINITY == 0 && f
            & flag::RATIONAL == 0,
{
    assert(f & !1u16 == 0 ==> f & 8u16 == 0 && f & 4u16 == 0 && f & 0x80u16 == 0)
        by (bit_vector);
}

proof fn lemma_special_bits()
    ensures
        flag::INFINITY & flag::INFINITY != 0,
        flag::INFINITY & flag::NAN == 0,
        flag::INFINITY & flag::NEGATIVE == 0,
        flag::INFINITY & !flag::NEGATIVE != 0,
        flag::NAN & flag::NAN != 0,
        flag::NAN & flag::INFINITY == 0,
        flag::NAN & flag::NEGATIVE == 0,
        flag::NAN & !flag::NEGATIVE != 0,
{
    assert(4u16 & 4u16 != 0) by (bit_vector);
    assert(4u16 & 8u16 == 0) by (bit_vector);
    assert(4u16 & 1u16 == 0) by (bit_vector);
    assert(4u16 & !1u16 != 0) by (bit_vector);
    assert(8u16 & 8u16 != 0) by (bit_vector);
    assert(8u16 & 4u16 == 0) by (bit_vector);
    assert(8u16 & 1u16 == 0) by (bit_vector);
    assert(8u16 & !1u16 != 0) by (bit_vector);
}

proof fn lemma_mul_basics_nat(p: nat)
    ensures
        0 * p == 0,
{
}

proof fn lemma_pow256_eight()
    ensures
        pow256(8) == 0x1_0000_0000_0000_0000,
{
    reveal_with_fuel(pow256, 9);
}

proof fn lemma_pow256_four()
    ensures
        pow256(4) == 0x1_0000_0000,
{
    reveal_with_fuel(pow256, 5);
}

proof fn lemma_signed_product(x: int, y: int, nx: bool, ny: bool)
    requires
        x >= 0,
        y >= 0,
    ensures
        (if nx != ny {
            -(x * y)
        } else {
            x * y
        }) == (if nx {
            -x
        } else {
            x
        }) * (if ny {
            -y
        } else {
            y
        }),
        x * y >= 0,
{
    assert(x * y >= 0) by (nonlinear_arith)
        requires
            x >= 0,
            y >= 0,
    ;
    assert((-x) * y == -(x * y)) by (nonlinear_arith);
    assert(x * (-y) == -(x * y)) by (nonlinear_arith);
    assert((-x) * (-y) == x * y) by (nonlinear_arith);
}

/// The magnitude of a power is the power of the magnitude.
proof fn lemma_pow_magnitude(v: int, m: nat, k: nat)
    requires
        v == m || v == -m,
    ensures
        pow_int(v, k) == pow_int(m as int, k) || pow_int(v, k) == -pow_int(m as int, k),
        pow_int(m as int, k) >= 0,
    decreases k,
{
    if k > 0 {
        lemma_pow_magnitude(v, m, (k - 1) as nat);
        let p = pow_int(m as int, (k - 1) as nat);
        let q = pow_int(v, (k - 1) as nat);
        assert(m * p >= 0) by (nonlinear_arith)
            requires
                p >= 0,
        ;
        assert(v * q == m * p || v * q == -(m * p)) by (nonlinear_arith)
            requires
                v == m || v == -m,
                q == p || q == -p,
        ;
    }
}

} // verus!

pub use self::ArithmaInteger as ArithmosInteger;
pub use self::ArithmaIntegerConfig as ArithmosIntegerConfig;
pub use self::ArithmaInternalInteger as ArithmosInternalInteger;
