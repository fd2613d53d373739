//! Arbitrary-precision signed integers.
//!
//! A [`Number`] holds a sign and a little-endian sequence of base-2^32 limbs,
//! so that its mathematical value is plain data that contracts can speak
//! about: the view of a `Number` is the `int` it denotes.  The arithmetic
//! itself (sum, difference, product, truncating quotient and remainder,
//! equality, decimal rendering) is delegated to `num_bigint::BigInt` through
//! trusted wrappers; everything that can be decided by looking at the limbs
//! alone (sign tests, conversion to an index, negation) is verified here.

use vstd::prelude::*;
use num_bigint::BigInt;
use num_bigint::Sign;

verus! {

/// The limb base, 2^32.
pub const LIMB_BASE: u64 = 0x1_0000_0000;

/// Value of a little-endian sequence of base-2^32 limbs.
pub open spec fn limbs_value(s: Seq<u32>) -> int
    decreases s.len(),
{
    if s.len() == 0 {
        0
    } else {
        s[0] + 0x1_0000_0000int * limbs_value(s.subrange(1, s.len() as int))
    }
}

/// Canonical limb sequences carry no most-significant zero limb.
pub open spec fn limbs_wf(s: Seq<u32>) -> bool {
    s.len() == 0 || s[s.len() - 1] != 0
}

/// An arbitrary-precision signed integer: a sign and canonical magnitude
/// limbs.  Zero is represented by an empty limb sequence with `neg` false.
pub struct Number {
    pub neg: bool,
    pub limbs: Vec<u32>,
}

impl View for Number {
    type V = int;

    open spec fn view(&self) -> int {
        if self.neg {
            -limbs_value(self.limbs@)
        } else {
            limbs_value(self.limbs@)
        }
    }
}

impl Number {
    /// The representation invariant: canonical limbs, and a negative sign
    /// only on a non-zero magnitude.
    pub open spec fn wf(&self) -> bool {
        limbs_wf(self.limbs@) && (self.neg ==> self.limbs@.len() > 0)
    }
}

/// Value of a single limb.
pub proof fn lemma_limbs_value_one(x: u32)
    ensures
        limbs_value(seq![x]) == x,
{
    reveal_with_fuel(limbs_value, 2);
    assert(seq![x].subrange(1, 1) =~= Seq::<u32>::empty());
}

/// Value of a two-limb sequence.
pub proof fn lemma_limbs_value_two(x: u32, y: u32)
    ensures
        limbs_value(seq![x, y]) == x + 0x1_0000_0000int * y,
{
    let s = seq![x, y];
    assert(s.subrange(1, 2) =~= seq![y]);
    lemma_limbs_value_one(y);
}

/// A non-empty canonical limb sequence denotes a strictly positive value.
pub proof fn lemma_limbs_value_pos(s: Seq<u32>)
    requires
        limbs_wf(s),
        s.len() > 0,
    ensures
        limbs_value(s) >= 1,
    decreases s.len(),
{
    let tail = s.subrange(1, s.len() as int);
    if s.len() == 1 {
        assert(s =~= seq![s[0]]);
        lemma_limbs_value_one(s[0]);
    } else {
        assert(limbs_wf(tail));
        lemma_limbs_value_pos(tail);
    }
}

/// Two canonical limbs already exceed one limb's worth of value.
pub proof fn lemma_limbs_value_ge_base(s: Seq<u32>)
    requires
        limbs_wf(s),
        s.len() >= 2,
    ensures
        limbs_value(s) >= 0x1_0000_0000,
    decreases s.len(),
{
    let tail = s.subrange(1, s.len() as int);
    assert(limbs_wf(tail));
    lemma_limbs_value_pos(tail);
}

/// Three canonical limbs exceed the largest two-limb value.
pub proof fn lemma_limbs_value_ge_base_sq(s: Seq<u32>)
    requires
        limbs_wf(s),
        s.len() >= 3,
    ensures
        limbs_value(s) >= 0x1_0000_0000 * 0x1_0000_0000,
{
    let tail = s.subrange(1, s.len() as int);
    assert(limbs_wf(tail));
    lemma_limbs_value_ge_base(tail);
}

impl Number {
    /// The number zero.
    pub fn zero() -> (r: Number)
        ensures
            r.wf(),
            r@ == 0,
    {
        Number { neg: false, limbs: Vec::new() }
    }

    /// The number with a single-limb magnitude `v`.
    pub fn from_u32(v: u32) -> (r: Number)
        ensures
            r.wf(),
            r@ == v as int,
    {
        let mut limbs: Vec<u32> = Vec::new();
        if v != 0 {
            limbs.push(v);
        }
        proof {
            if v != 0 {
                assert(limbs@ =~= seq![v]);
                lemma_limbs_value_one(v);
            }
        }
        Number { neg: false, limbs }
    }

    /// The number with magnitude `v`.
    pub fn from_u64(v: u64) -> (r: Number)
        ensures
            r.wf(),
            r@ == v as int,
    {
        let lo = (v % LIMB_BASE) as u32;
        let hi = (v / LIMB_BASE) as u32;
        if hi == 0 {
            Self::from_u32(lo)
        } else {
            let mut limbs: Vec<u32> = Vec::new();
            limbs.push(lo);
            limbs.push(hi);
            proof {
                assert(limbs@ =~= seq![lo, hi]);
                lemma_limbs_value_two(lo, hi);
            }
            Number { neg: false, limbs }
        }
    }

    /// The number equal to the signed value `v`.
    pub fn from_i64(v: i64) -> (r: Number)
        ensures
            r.wf(),
            r@ == v as int,
    {
        if v >= 0 {
            Self::from_u64(v as u64)
        } else {
            let mag: u64 = (-(v as i128)) as u64;
            Self::from_u64(mag).negated()
        }
    }

    /// Whether the number is zero.
    pub fn is_zero(&self) -> (r: bool)
        requires
            self.wf(),
        ensures
            r == (self@ == 0),
    {
        proof {
            if self.limbs@.len() > 0 {
                lemma_limbs_value_pos(self.limbs@);
            }
        }
        self.limbs.len() == 0
    }

    /// Whether the number is strictly negative.
    pub fn is_negative(&self) -> (r: bool)
        requires
            self.wf(),
        ensures
            r == (self@ < 0),
    {
        proof {
            if self.limbs@.len() > 0 {
                lemma_limbs_value_pos(self.limbs@);
            } else {
                assert(limbs_value(self.limbs@) == 0);
            }
        }
        self.neg
    }

    /// The negation; zero stays zero.
    pub fn negated(self) -> (r: Number)
        requires
            self.wf(),
        ensures
            r.wf(),
            r@ == -self@,
    {
        if self.limbs.len() == 0 {
            self
        } else {
            Number { neg: !self.neg, limbs: self.limbs }
        }
    }

    /// The value as a `usize`, when it is one.
    pub fn to_index(&self) -> (r: Option<usize>)
        requires
            self.wf(),
        ensures
            match r {
                Some(u) => self@ == u as int,
                None => self@ < 0 || self@ > usize::MAX as int,
            },
    {
        if self.neg {
            proof { lemma_limbs_value_pos(self.limbs@); }
            None
        } else if self.limbs.len() == 0 {
            Some(0)
        } else if self.limbs.len() == 1 {
            proof {
                assert(self.limbs@ =~= seq![self.limbs@[0]]);
                lemma_limbs_value_one(self.limbs@[0]);
            }
            Some(self.limbs[0] as usize)
        } else if self.limbs.len() == 2 {
            let lo = self.limbs[0] as u64;
            let hi = self.limbs[1] as u64;
            let v: u64 = hi * LIMB_BASE + lo;
            proof {
                assert(self.limbs@ =~= seq![self.limbs@[0], self.limbs@[1]]);
                lemma_limbs_value_two(self.limbs@[0], self.limbs@[1]);
            }
            if v <= usize::MAX as u64 {
                Some(v as usize)
            } else {
                None
            }
        } else {
            proof { lemma_limbs_value_ge_base_sq(self.limbs@); }
            None
        }
    }
}

impl Clone for Number {
    /// A clone denotes the same value.
    fn clone(&self) -> (r: Self)
        ensures
            r@ == self@,
            r.wf() == self.wf(),
    {
        let mut limbs: Vec<u32> = Vec::new();
        let mut i: usize = 0;
        while i < self.limbs.len()
            invariant
                i <= self.limbs@.len(),
                limbs@ == self.limbs@.subrange(0, i as int),
            decreases self.limbs@.len() - i,
        {
            limbs.push(self.limbs[i]);
            proof {
                assert(limbs@ =~= self.limbs@.subrange(0, i + 1));
            }
            i = i + 1;
        }
        proof {
            assert(limbs@ =~= self.limbs@);
        }
        Number { neg: self.neg, limbs }
    }
}

/// Absolute value of a mathematical integer.
pub open spec fn abs_int(a: int) -> int {
    if a < 0 {
        -a
    } else {
        a
    }
}

/// Integer division that truncates toward zero, as the runtime
/// arbitrary-precision division does.
pub open spec fn trunc_div(a: int, b: int) -> int
    recommends
        b != 0,
{
    if (a < 0) == (b < 0) {
        abs_int(a) / abs_int(b)
    } else {
        -(abs_int(a) / abs_int(b))
    }
}

/// Remainder of the truncating division: its sign follows the dividend.
pub open spec fn trunc_mod(a: int, b: int) -> int
    recommends
        b != 0,
{
    a - b * trunc_div(a, b)
}

/// Decimal digits of a non-negative integer, as ASCII bytes.
pub open spec fn dec_digits(n: nat) -> Seq<u8>
    decreases n,
{
    if n < 10 {
        seq![(48 + n) as u8]
    } else {
        dec_digits(n / 10).push((48 + n % 10) as u8)
    }
}

/// Decimal representation of an integer, as ASCII bytes, with a leading
/// minus sign on negative values.
pub open spec fn dec_repr(v: int) -> Seq<u8> {
    if v < 0 {
        seq![45u8] + dec_digits((-v) as nat)
    } else {
        dec_digits(v as nat)
    }
}

/// Relies on `num_bigint::BigInt` addition: the exact arbitrary-precision
/// sum, handed back as canonical sign and base-2^32 digits.
#[verifier::external_body]
pub(crate) fn num_add(a: &Number, b: &Number) -> (r: Number)
    ensures
        r.wf(),
        r@ == a@ + b@,
{
    let x = BigInt::from_slice(if a.neg { Sign::Minus } else { Sign::Plus }, &a.limbs);
    let y = BigInt::from_slice(if b.neg { Sign::Minus } else { Sign::Plus }, &b.limbs);
    let (s, digits) = (x + y).to_u32_digits();
    Number { neg: s == Sign::Minus, limbs: digits }
}

/// Relies on `num_bigint::BigInt` subtraction: the exact arbitrary-precision
/// difference.
#[verifier::external_body]
pub(crate) fn num_sub(a: &Number, b: &Number) -> (r: Number)
    ensures
        r.wf(),
        r@ == a@ - b@,
{
    let x = BigInt::from_slice(if a.neg { Sign::Minus } else { Sign::Plus }, &a.limbs);
    let y = BigInt::from_slice(if b.neg { Sign::Minus } else { Sign::Plus }, &b.limbs);
    let (s, digits) = (x - y).to_u32_digits();
    Number { neg: s == Sign::Minus, limbs: digits }
}

/// Relies on `num_bigint::BigInt` multiplication: the exact
/// arbitrary-precision product.
#[verifier::external_body]
pub(crate) fn num_mul(a: &Number, b: &Number) -> (r: Number)
    ensures
        r.wf(),
        r@ == a@ * b@,
{
    let x = BigInt::from_slice(if a.neg { Sign::Minus } else { Sign::Plus }, &a.limbs);
    let y = BigInt::from_slice(if b.neg { Sign::Minus } else { Sign::Plus }, &b.limbs);
    let (s, digits) = (x * y).to_u32_digits();
    Number { neg: s == Sign::Minus, limbs: digits }
}

/// Relies on `num_bigint::BigInt` division, which truncates toward zero
/// (its `div_rem` gives the quotient the product of the operand signs).
#[verifier::external_body]
pub(crate) fn num_div(a: &Number, b: &Number) -> (r: Number)
    requires
        b@ != 0,
    ensures
        r.wf(),
        r@ == trunc_div(a@, b@),
{
    let x = BigInt::from_slice(if a.neg { Sign::Minus } else { Sign::Plus }, &a.limbs);
    let y = BigInt::from_slice(if b.neg { Sign::Minus } else { Sign::Plus }, &b.limbs);
    let (s, digits) = (x / y).to_u32_digits();
    Number { neg: s == Sign::Minus, limbs: digits }
}

/// Relies on `num_bigint::BigInt` remainder, whose sign follows the
/// dividend, matching the truncating division.
#[verifier::external_body]
pub(crate) fn num_rem(a: &Number, b: &Number) -> (r: Number)
    requires
        b@ != 0,
    ensures
        r.wf(),
        r@ == trunc_mod(a@, b@),
{
    let x = BigInt::from_slice(if a.neg { Sign::Minus } else { Sign::Plus }, &a.limbs);
    let y = BigInt::from_slice(if b.neg { Sign::Minus } else { Sign::Plus }, &b.limbs);
    let (s, digits) = (x % y).to_u32_digits();
    Number { neg: s == Sign::Minus, limbs: digits }
}

/// Relies on `num_bigint::BigInt`'s `Display`: a minus sign on negative
/// values followed by the decimal digits of the magnitude, no padding.
#[verifier::external_body]
pub(crate) fn num_to_decimal(a: &Number) -> (r: Vec<u8>)
    ensures
        r@ == dec_repr(a@),
{
    let x = BigInt::from_slice(if a.neg { Sign::Minus } else { Sign::Plus }, &a.limbs);
    x.to_string().into_bytes()
}

} // verus!
