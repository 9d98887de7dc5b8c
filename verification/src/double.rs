//! Double-precision numbers as their IEEE-754 binary64 encodings.
//!
//! A `Double` is the 64-bit pattern of a double: one sign bit, eleven
//! exponent bits and fifty-two fraction bits.  Everything that can be decided
//! from the pattern alone is decided here: class, sign and order, the whole
//! number that a double holds, and the double of a count.  No arithmetic is
//! performed on the encoded values.

use vstd::prelude::*;
use vstd::arithmetic::power2::{lemma2_to64, lemma2_to64_rest, lemma_pow2_adds, lemma_pow2_pos,
    lemma_pow2_strictly_increases, lemma_pow2_unfold, pow2};

verus! {

/// The sign bit of the encoding.
pub const SIGN_BIT: u64 = 0x8000_0000_0000_0000;

/// The encoding of positive infinity: every exponent bit set, no fraction bit.
/// Magnitudes below it are finite, magnitudes above it are NaN.
pub const INFINITY_BITS: u64 = 0x7ff0_0000_0000_0000;

/// The lowest exponent bit: the fraction bits lie below it, and a normal
/// double has this much added to its fraction to make its significand.
pub const HIDDEN_BIT: u64 = 0x0010_0000_0000_0000;

/// The exponent field of `1.0`: a normal double is its significand times
/// two to the power of its exponent field less this and less 52.
pub const EXPONENT_BIAS: u64 = 1023;

/// The encoding of `0.0`.
pub const ZERO_BITS: u64 = 0;

/// The encoding of `1.0`.
pub const ONE_BITS: u64 = 0x3ff0_0000_0000_0000;

/// The encoding of `2.0`.
pub const TWO_BITS: u64 = 0x4000_0000_0000_0000;

/// The encoding of `12.0`.
pub const TWELVE_BITS: u64 = 0x4028_0000_0000_0000;

/// The encoding of `100.0`.
pub const HUNDRED_BITS: u64 = 0x4059_0000_0000_0000;

/// The encoding of `-1.0`.
pub const MINUS_ONE_BITS: u64 = 0xbff0_0000_0000_0000;

/// A double, held as its bit pattern.  The derived `==` compares patterns, so
/// it tells `0.0` from `-0.0` and holds of a NaN and itself; `same` is the
/// numeric equality.
#[derive(Clone, Copy, Debug, PartialEq, Eq, Structural)]
pub struct Double {
    pub bits: u64,
}

impl Double {
    /// The pattern without its sign bit.
    pub open spec fn spec_magnitude(self) -> u64 {
        if self.bits >= SIGN_BIT {
            (self.bits - SIGN_BIT) as u64
        } else {
            self.bits
        }
    }

    /// Whether the sign bit is set (true of `-0.0` as well).
    pub open spec fn spec_sign(self) -> bool {
        self.bits >= SIGN_BIT
    }

    /// Neither an infinity nor a NaN.
    pub open spec fn spec_is_finite(self) -> bool {
        self.spec_magnitude() < INFINITY_BITS
    }

    pub open spec fn spec_is_nan(self) -> bool {
        self.spec_magnitude() > INFINITY_BITS
    }

    /// `0.0` or `-0.0`.
    pub open spec fn spec_is_zero(self) -> bool {
        self.spec_magnitude() == 0
    }

    /// The place of a double on the number line: doubles that are not NaN
    /// compare as their ranks do.  Both zeros have rank 0.
    pub open spec fn rank(self) -> int {
        if self.spec_sign() {
            -(self.spec_magnitude() as int)
        } else {
            self.spec_magnitude() as int
        }
    }

    /// Whether the rank is at most the other's: an order on all patterns,
    /// which among doubles that are not NaN is the numeric `<=`.
    pub open spec fn spec_at_most(self, other: Double) -> bool {
        self.rank() <= other.rank()
    }

    /// Numeric `<`: false as soon as one side is NaN.
    pub open spec fn spec_lt(self, other: Double) -> bool {
        !self.spec_is_nan() && !other.spec_is_nan() && self.rank() < other.rank()
    }

    /// Numeric `<=`: false as soon as one side is NaN.
    pub open spec fn spec_le(self, other: Double) -> bool {
        !self.spec_is_nan() && !other.spec_is_nan() && self.rank() <= other.rank()
    }

    /// Numeric `==`: false as soon as one side is NaN, true of the two zeros.
    pub open spec fn spec_same(self, other: Double) -> bool {
        !self.spec_is_nan() && !other.spec_is_nan() && self.rank() == other.rank()
    }

    /// The double with the sign bit cleared.
    pub open spec fn spec_abs(self) -> Double {
        Double { bits: self.spec_magnitude() }
    }

    /// The double with the sign bit flipped.
    pub open spec fn spec_negated(self) -> Double {
        if self.bits >= SIGN_BIT {
            Double { bits: (self.bits - SIGN_BIT) as u64 }
        } else {
            Double { bits: (self.bits + SIGN_BIT) as u64 }
        }
    }

    /// The exponent field: 0 for zeros and subnormals, 2047 for infinities
    /// and NaN.
    pub open spec fn spec_exponent(self) -> u64 {
        self.spec_magnitude() / HIDDEN_BIT
    }

    /// The significand of a normal double: the fraction bits under the
    /// hidden bit.
    pub open spec fn spec_significand(self) -> u64 {
        (HIDDEN_BIT + self.spec_magnitude() % HIDDEN_BIT) as u64
    }

    /// The magnitude of a double rounded toward zero to a whole number.  Of
    /// an infinity it is beyond every machine integer.
    pub open spec fn whole_magnitude(self) -> nat {
        let e = self.spec_exponent();
        if e < EXPONENT_BIAS {
            0
        } else if e < EXPONENT_BIAS + 52 {
            self.spec_significand() as nat / pow2((EXPONENT_BIAS + 52 - e) as nat)
        } else {
            self.spec_significand() as nat * pow2((e - EXPONENT_BIAS - 52) as nat)
        }
    }

    /// Whether a double is finite and has no fraction.
    pub open spec fn spec_is_whole(self) -> bool {
        let e = self.spec_exponent();
        &&& self.spec_is_finite()
        &&& e < EXPONENT_BIAS ==> self.spec_magnitude() == 0
        &&& EXPONENT_BIAS <= e < EXPONENT_BIAS + 52 ==> self.spec_significand() as nat % pow2(
            (EXPONENT_BIAS + 52 - e) as nat,
        ) == 0
    }

    /// The double as an `i32`: rounded toward zero, the nearest `i32` where
    /// that is out of range, and 0 for NaN.
    pub open spec fn spec_to_i32(self) -> i32 {
        if self.spec_is_nan() {
            0
        } else if self.spec_sign() {
            if self.whole_magnitude() >= 0x8000_0000 {
                i32::MIN
            } else {
                (-(self.whole_magnitude() as int)) as i32
            }
        } else {
            if self.whole_magnitude() > i32::MAX {
                i32::MAX
            } else {
                self.whole_magnitude() as i32
            }
        }
    }

    /// The double as a `u32`: rounded toward zero, the nearest `u32` where
    /// that is out of range, and 0 for NaN.
    pub open spec fn spec_to_u32(self) -> u32 {
        if self.spec_is_nan() || self.spec_sign() {
            0
        } else if self.whole_magnitude() > u32::MAX {
            u32::MAX
        } else {
            self.whole_magnitude() as u32
        }
    }

    /// The double nearest to a count; of two that are equally near, the one
    /// whose significand is even.  Up to `2^53` that is the count itself.
    pub open spec fn spec_from_count(n: u64) -> Double {
        let top = top_bit(n);
        if n == 0 {
            Double { bits: 0 }
        } else if top <= 52 {
            Double {
                bits: ((EXPONENT_BIAS + top) * HIDDEN_BIT + (n * pow2((52 - top) as nat)
                    - HIDDEN_BIT)) as u64,
            }
        } else {
            let unit = pow2((top - 52) as nat);
            let kept = n as nat / unit;
            let rest = n as nat % unit;
            let up: nat = if 2 * rest > unit || (2 * rest == unit && kept % 2 == 1) {
                1
            } else {
                0
            };
            Double { bits: ((EXPONENT_BIAS + top) * HIDDEN_BIT + (kept - HIDDEN_BIT) + up) as u64 }
        }
    }

    pub open spec fn zero() -> Double {
        Double { bits: ZERO_BITS }
    }

    pub open spec fn one() -> Double {
        Double { bits: ONE_BITS }
    }

    pub open spec fn two() -> Double {
        Double { bits: TWO_BITS }
    }

    pub open spec fn twelve() -> Double {
        Double { bits: TWELVE_BITS }
    }

    pub open spec fn hundred() -> Double {
        Double { bits: HUNDRED_BITS }
    }

    pub open spec fn minus_one() -> Double {
        Double { bits: MINUS_ONE_BITS }
    }

    /// The double with the given encoding.
    pub fn from_bits(bits: u64) -> (r: Double)
        ensures
            r.bits == bits,
    {
        Double { bits }
    }

    /// The encoding.
    pub fn to_bits(self) -> (r: u64)
        ensures
            r == self.bits,
    {
        self.bits
    }

    #[verifier::when_used_as_spec(spec_magnitude)]
    pub fn magnitude(self) -> (r: u64)
        ensures
            r == self.spec_magnitude(),
    {
        if self.bits >= SIGN_BIT {
            self.bits - SIGN_BIT
        } else {
            self.bits
        }
    }

    #[verifier::when_used_as_spec(spec_sign)]
    pub fn sign(self) -> (r: bool)
        ensures
            r == self.spec_sign(),
    {
        self.bits >= SIGN_BIT
    }

    #[verifier::when_used_as_spec(spec_is_finite)]
    pub fn is_finite(self) -> (r: bool)
        ensures
            r == self.spec_is_finite(),
    {
        self.magnitude() < INFINITY_BITS
    }

    #[verifier::when_used_as_spec(spec_is_nan)]
    pub fn is_nan(self) -> (r: bool)
        ensures
            r == self.spec_is_nan(),
    {
        self.magnitude() > INFINITY_BITS
    }

    #[verifier::when_used_as_spec(spec_is_zero)]
    pub fn is_zero(self) -> (r: bool)
        ensures
            r == self.spec_is_zero(),
    {
        self.magnitude() == 0
    }

    #[verifier::when_used_as_spec(spec_at_most)]
    pub fn at_most(self, other: Double) -> (r: bool)
        ensures
            r == self.spec_at_most(other),
    {
        let a: u64 = self.magnitude();
        let b: u64 = other.magnitude();
        if self.sign() {
            if other.sign() {
                b <= a
            } else {
                true
            }
        } else {
            if other.sign() {
                a == 0 && b == 0
            } else {
                a <= b
            }
        }
    }

    #[verifier::when_used_as_spec(spec_lt)]
    pub fn lt(self, other: Double) -> (r: bool)
        ensures
            r == self.spec_lt(other),
    {
        if self.is_nan() || other.is_nan() {
            return false;
        }
        !other.at_most(self)
    }

    #[verifier::when_used_as_spec(spec_le)]
    pub fn le(self, other: Double) -> (r: bool)
        ensures
            r == self.spec_le(other),
    {
        if self.is_nan() || other.is_nan() {
            return false;
        }
        !other.lt(self)
    }

    #[verifier::when_used_as_spec(spec_same)]
    pub fn same(self, other: Double) -> (r: bool)
        ensures
            r == self.spec_same(other),
    {
        self.le(other) && other.le(self)
    }

    #[verifier::when_used_as_spec(spec_abs)]
    pub fn abs(self) -> (r: Double)
        ensures
            r == self.spec_abs(),
    {
        Double { bits: self.magnitude() }
    }

    #[verifier::when_used_as_spec(spec_negated)]
    pub fn negated(self) -> (r: Double)
        ensures
            r == self.spec_negated(),
    {
        if self.bits >= SIGN_BIT {
            Double { bits: self.bits - SIGN_BIT }
        } else {
            Double { bits: self.bits + SIGN_BIT }
        }
    }

    #[verifier::when_used_as_spec(spec_from_count)]
    pub fn from_count(n: u64) -> (r: Double)
        ensures
            r == Double::spec_from_count(n),
    {
        if n == 0 {
            return Double { bits: 0 };
        }
        let top: u64 = highest_bit(n);
        proof {
            lemma2_to64();
            lemma2_to64_rest();
            assert(pow2(52) == HIDDEN_BIT);
        }
        if top <= 52 {
            let unit: u64 = power_of_two(52 - top);
            proof {
                lemma_pow2_adds(top as nat, (52 - top) as nat);
                assert(top + (52 - top) == 52);
                let low = pow2(top as nat);
                assert(HIDDEN_BIT <= n * unit < 2 * HIDDEN_BIT) by (nonlinear_arith)
                    requires
                        low <= n < 2 * low,
                        low * unit == HIDDEN_BIT,
                        unit >= 1,
                ;
            }
            Double { bits: (EXPONENT_BIAS + top) * HIDDEN_BIT + (n * unit - HIDDEN_BIT) }
        } else {
            let unit: u64 = power_of_two(top - 52);
            let kept: u64 = n / unit;
            let rest: u64 = n % unit;
            proof {
                lemma_pow2_adds(52, (top - 52) as nat);
                assert(52 + (top - 52) == top);
                let low = pow2(top as nat);
                assert(HIDDEN_BIT <= n / unit < 2 * HIDDEN_BIT) by (nonlinear_arith)
                    requires
                        low <= n < 2 * low,
                        HIDDEN_BIT * unit == low,
                        unit >= 1,
                ;
            }
            let up: u64 = if rest > unit - rest || (rest == unit - rest && kept % 2 == 1) {
                1
            } else {
                0
            };
            Double { bits: (EXPONENT_BIAS + top) * HIDDEN_BIT + (kept - HIDDEN_BIT) + up }
        }
    }

    #[verifier::when_used_as_spec(spec_exponent)]
    pub fn exponent(self) -> (r: u64)
        ensures
            r == self.spec_exponent(),
            r <= 2047,
    {
        self.magnitude() / HIDDEN_BIT
    }

    #[verifier::when_used_as_spec(spec_significand)]
    pub fn significand(self) -> (r: u64)
        ensures
            r == self.spec_significand(),
            HIDDEN_BIT <= r < 2 * HIDDEN_BIT,
    {
        HIDDEN_BIT + self.magnitude() % HIDDEN_BIT
    }

    /// The magnitude rounded toward zero, where that is below `2^63`.
    pub fn whole(self) -> (r: Option<u64>)
        ensures
            match r {
                Some(w) => w == self.whole_magnitude() && w < 0x8000_0000_0000_0000,
                None => self.whole_magnitude() >= 0x8000_0000_0000_0000,
            },
    {
        let e: u64 = self.exponent();
        let m: u64 = self.significand();
        if e < EXPONENT_BIAS {
            Some(0)
        } else if e < EXPONENT_BIAS + 52 {
            let p: u64 = power_of_two(EXPONENT_BIAS + 52 - e);
            Some(m / p)
        } else if e < EXPONENT_BIAS + 52 + 11 {
            let p: u64 = power_of_two(e - EXPONENT_BIAS - 52);
            proof {
                lemma2_to64();
                if e - EXPONENT_BIAS - 52 < 10 {
                    lemma_pow2_strictly_increases((e - EXPONENT_BIAS - 52) as nat, 10);
                }
                assert(m * p < 0x8000_0000_0000_0000) by (nonlinear_arith)
                    requires
                        m < 0x0020_0000_0000_0000,
                        p <= 1024,
                ;
            }
            Some(m * p)
        } else {
            proof {
                lemma2_to64();
                let k = (e - EXPONENT_BIAS - 52) as nat;
                if k > 11 {
                    lemma_pow2_strictly_increases(11, k);
                }
                assert(m as nat * pow2(k) >= 0x8000_0000_0000_0000) by (nonlinear_arith)
                    requires
                        m >= 0x0010_0000_0000_0000,
                        pow2(k) >= 2048,
                ;
            }
            None
        }
    }

    #[verifier::when_used_as_spec(spec_is_whole)]
    pub fn is_whole(self) -> (r: bool)
        ensures
            r == self.spec_is_whole(),
    {
        if !self.is_finite() {
            return false;
        }
        let e: u64 = self.exponent();
        if e < EXPONENT_BIAS {
            self.magnitude() == 0
        } else if e < EXPONENT_BIAS + 52 {
            let p: u64 = power_of_two(EXPONENT_BIAS + 52 - e);
            self.significand() % p == 0
        } else {
            true
        }
    }

    #[verifier::when_used_as_spec(spec_to_i32)]
    pub fn to_i32(self) -> (r: i32)
        ensures
            r == self.spec_to_i32(),
    {
        if self.is_nan() {
            return 0;
        }
        match self.whole() {
            Some(w) => if self.sign() {
                if w >= 0x8000_0000 {
                    i32::MIN
                } else {
                    -(w as i32)
                }
            } else {
                if w > 0x7fff_ffff {
                    i32::MAX
                } else {
                    w as i32
                }
            },
            None => if self.sign() {
                i32::MIN
            } else {
                i32::MAX
            },
        }
    }

    #[verifier::when_used_as_spec(spec_to_u32)]
    pub fn to_u32(self) -> (r: u32)
        ensures
            r == self.spec_to_u32(),
    {
        if self.is_nan() || self.sign() {
            return 0;
        }
        match self.whole() {
            Some(w) => if w > 0xffff_ffff {
                u32::MAX
            } else {
                w as u32
            },
            None => u32::MAX,
        }
    }
}

/// The place of the highest bit that is set in a number: the greatest
/// `p` with `2^p` at most the number; 0 for 0.
pub open spec fn top_bit(n: u64) -> nat
    decreases n,
{
    if n < 2 {
        0
    } else {
        1 + top_bit(n / 2)
    }
}

/// The place of the highest bit that is set in a number.
pub fn highest_bit(n: u64) -> (top: u64)
    ensures
        top == top_bit(n),
        top < 64,
        n > 0 ==> pow2(top as nat) <= n < 2 * pow2(top as nat),
    decreases n,
{
    proof {
        lemma2_to64();
    }
    if n < 2 {
        0
    } else {
        let below: u64 = highest_bit(n / 2);
        proof {
            lemma_pow2_unfold((below + 1) as nat);
            if below + 1 >= 64 {
                if below + 1 > 64 {
                    lemma_pow2_strictly_increases(64, (below + 1) as nat);
                }
            }
        }
        below + 1
    }
}

/// Two to the power of an exponent below 64.
pub fn power_of_two(exponent: u64) -> (r: u64)
    requires
        exponent < 64,
    ensures
        r == pow2(exponent as nat),
        r >= 1,
{
    let mut r: u64 = 1;
    let mut i: u64 = 0;
    proof {
        lemma2_to64();
    }
    while i < exponent
        invariant
            0 <= i <= exponent < 64,
            r == pow2(i as nat),
            r >= 1,
        decreases exponent - i,
    {
        proof {
            lemma_pow2_unfold((i + 1) as nat);
            lemma_pow2_pos(63);
            if i + 1 < 63 {
                lemma_pow2_strictly_increases((i + 1) as nat, 63);
            }
            lemma2_to64();
            lemma_pow2_unfold(63);
            lemma_pow2_unfold(64);
        }
        r = r * 2;
        i += 1;
    }
    r
}

/// The double of a count is finite and not negative, and its exponent
/// field is that of the count's highest bit, or one more where rounding
/// carried.
pub proof fn lemma_count_is_finite(n: u64)
    ensures
        Double::from_count(n).is_finite(),
        !Double::from_count(n).sign(),
        n > 0 ==> EXPONENT_BIAS + top_bit(n) <= Double::from_count(n).spec_exponent()
            <= EXPONENT_BIAS + top_bit(n) + 1,
        n == 0 ==> Double::from_count(n) == Double::zero(),
{
    lemma_count_parts(n);
}

/// Up to `2^53` the double of a count is the count: it has no fraction, and
/// its whole magnitude is the count.
pub proof fn lemma_count_is_exact(n: u64)
    requires
        n < 2 * HIDDEN_BIT,
    ensures
        Double::from_count(n).is_whole(),
        Double::from_count(n).whole_magnitude() == n,
{
    lemma_count_parts(n);
    lemma_top_bit_bounds(n);
    lemma2_to64();
    lemma2_to64_rest();
    let top = top_bit(n);
    let d = Double::from_count(n);
    if n == 0 {
        assert(d.bits == 0);
        assert(d.spec_magnitude() == 0);
        assert(d.spec_exponent() == 0);
        assert(d.whole_magnitude() == 0);
    } else {
        assert(top <= 52) by {
            if top > 53 {
                lemma_pow2_strictly_increases(53, top);
            }
        }
        let unit = pow2((52 - top) as nat);
        lemma_pow2_pos((52 - top) as nat);
        let significand = n * unit;
        assert(d.bits == (EXPONENT_BIAS + top) * HIDDEN_BIT + (significand - HIDDEN_BIT));
        assert(d.spec_magnitude() == d.bits);
        assert(d.spec_exponent() == EXPONENT_BIAS + top && d.spec_magnitude() % HIDDEN_BIT
            == significand - HIDDEN_BIT) by (nonlinear_arith)
            requires
                d.spec_magnitude() == (EXPONENT_BIAS + top) * HIDDEN_BIT + (significand
                    - HIDDEN_BIT),
                HIDDEN_BIT <= significand < 2 * HIDDEN_BIT,
                d.spec_exponent() == d.spec_magnitude() / HIDDEN_BIT,
                HIDDEN_BIT > 0,
        ;
        assert(d.spec_significand() == significand);
        assert(significand as nat / unit == n && significand as nat % unit == 0)
            by (nonlinear_arith)
            requires
                significand == n * unit,
                unit > 0,
        ;
        if top == 52 {
            assert(unit == 1);
            assert(d.spec_exponent() - EXPONENT_BIAS - 52 == 0);
            assert(d.whole_magnitude() == d.spec_significand() as nat * pow2(0));
            assert(significand == n) by (nonlinear_arith)
                requires
                    significand == n * unit,
                    unit == 1,
            ;
        } else {
            assert(EXPONENT_BIAS + 52 - d.spec_exponent() == 52 - top);
            assert(d.whole_magnitude() == d.spec_significand() as nat / unit);
        }
    }
}

/// The double of a count above a hundred is above `100.0`.
pub proof fn lemma_count_above_hundred(n: u64)
    requires
        n > 100,
    ensures
        Double::hundred().lt(Double::from_count(n)),
{
    lemma_count_parts(n);
    lemma_top_bit_bounds(n);
    lemma2_to64();
    let top = top_bit(n);
    if top < 6 {
        lemma_pow2_unfold((top + 1) as nat);
        if top + 1 < 6 {
            lemma_pow2_strictly_increases((top + 1) as nat, 6);
        }
        assert(n < 64);
    } else if top == 6 {
        assert(pow2(46) == 0x4000_0000_0000) by {
            lemma2_to64_rest();
        }
        assert(52 - top == 46);
        assert(Double::from_count(n).bits == 1029 * HIDDEN_BIT + (n * 0x4000_0000_0000
            - HIDDEN_BIT));
        assert(Double::from_count(n).bits > HUNDRED_BITS);
    } else {
        assert(Double::from_count(n).bits >= 1030 * HIDDEN_BIT);
        assert(Double::from_count(n).bits > HUNDRED_BITS);
    }
}

/// The highest bit of a number above zero: two to its power is at most the
/// number, and twice that is above it.
pub proof fn lemma_top_bit_bounds(n: u64)
    ensures
        top_bit(n) < 64,
        n > 0 ==> pow2(top_bit(n)) <= n < 2 * pow2(top_bit(n)),
    decreases n,
{
    lemma2_to64();
    if n >= 2 {
        lemma_top_bit_bounds(n / 2);
        let below = top_bit(n / 2);
        lemma_pow2_unfold((below + 1) as nat);
        if below + 1 > 64 {
            lemma_pow2_strictly_increases(64, (below + 1) as nat);
        }
    }
}

/// The fields of the double of a count.
proof fn lemma_count_parts(n: u64)
    ensures
        ({
            let d = Double::from_count(n);
            let top = top_bit(n);
            &&& d.bits < INFINITY_BITS
            &&& n == 0 ==> d.bits == 0
            &&& n > 0 && top <= 52 ==> d.bits == (EXPONENT_BIAS + top) * HIDDEN_BIT + (n * pow2(
                (52 - top) as nat,
            ) - HIDDEN_BIT) && HIDDEN_BIT <= n * pow2((52 - top) as nat) < 2 * HIDDEN_BIT
            &&& n > 0 ==> (EXPONENT_BIAS + top) * HIDDEN_BIT <= d.bits <= (EXPONENT_BIAS + top
                + 1) * HIDDEN_BIT
        }),
{
    lemma_top_bit_bounds(n);
    lemma2_to64();
    lemma2_to64_rest();
    let top = top_bit(n);
    if n > 0 {
        let low = pow2(top);
        if top <= 52 {
            let unit = pow2((52 - top) as nat);
            lemma_pow2_adds(top, (52 - top) as nat);
            lemma_pow2_pos((52 - top) as nat);
            assert(top + (52 - top) == 52);
            assert(HIDDEN_BIT <= n * unit < 2 * HIDDEN_BIT) by (nonlinear_arith)
                requires
                    low <= n < 2 * low,
                    low * unit == HIDDEN_BIT,
                    unit >= 1,
            ;
        } else {
            let unit = pow2((top - 52) as nat);
            lemma_pow2_adds(52, (top - 52) as nat);
            lemma_pow2_pos((top - 52) as nat);
            assert(52 + (top - 52) == top);
            assert(HIDDEN_BIT <= n as nat / unit < 2 * HIDDEN_BIT) by (nonlinear_arith)
                requires
                    low <= n < 2 * low,
                    HIDDEN_BIT * unit == low,
                    unit >= 1,
            ;
        }
    }
}

/// Among doubles that are not NaN, `le` orders totally: it is reflexive and
/// transitive, any two compare, and two that stand in it both ways are `same`.
pub proof fn lemma_le_is_total_preorder(a: Double, b: Double, c: Double)
    requires
        !a.is_nan(),
        !b.is_nan(),
        !c.is_nan(),
    ensures
        a.le(a),
        a.le(b) || b.le(a),
        a.le(b) && b.le(c) ==> a.le(c),
        a.le(b) && b.le(a) <==> a.same(b),
        a.lt(b) <==> !b.le(a),
{
}

} // verus!
