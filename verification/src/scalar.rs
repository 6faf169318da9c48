//! Floating-point values as the routing logic sees them: by their order.
use vstd::arithmetic::div_mod::lemma_fundamental_div_mod_converse;
use vstd::arithmetic::power2::{
    lemma2_to64, lemma2_to64_rest, lemma_pow2_adds, lemma_pow2_pos, lemma_pow2_unfold, pow2,
};
use vstd::bits::lemma_u64_shr_is_div;
use vstd::prelude::*;

verus! {

/// A 64-bit float reduced to what comparisons can tell of it.
///
/// `Number` holds an integer that compares exactly as the float does; negative
/// and positive zero share the key zero. `NotANumber` compares false with
/// everything, itself included.
#[derive(Clone, Copy, Debug, PartialEq, Eq, Structural)]
pub enum Scalar {
    Number(i64),
    NotANumber,
}

/// The bit pattern of positive infinity, the largest ordered magnitude.
pub const INFINITY_BITS: u64 = 0x7ff0_0000_0000_0000;

/// The sign bit of a 64-bit float.
pub const SIGN_BIT: u64 = 0x8000_0000_0000_0000;

/// The bit pattern of the canonical quiet not-a-number.
pub const QUIET_NAN_BITS: u64 = 0x7ff8_0000_0000_0000;

/// The number of bit patterns that share an exponent and a sign.
pub const FRACTION_SIZE: u64 = 0x10_0000_0000_0000;

impl Scalar {
    /// `a <= b` as IEEE 754 orders the floats behind the keys.
    pub open spec fn spec_le(self, other: Scalar) -> bool {
        match (self, other) {
            (Scalar::Number(a), Scalar::Number(b)) => a <= b,
            _ => false,
        }
    }

    /// `a < b` as IEEE 754 orders the floats behind the keys.
    pub open spec fn spec_lt(self, other: Scalar) -> bool {
        match (self, other) {
            (Scalar::Number(a), Scalar::Number(b)) => a < b,
            _ => false,
        }
    }

    /// The order key of the float whose bit pattern is `bits`: the pattern
    /// without its sign bit, negated when the sign bit is set.
    pub open spec fn spec_from_bits(bits: u64) -> Scalar {
        let magnitude: int = if bits >= SIGN_BIT { bits - SIGN_BIT } else { bits as int };
        if magnitude > INFINITY_BITS {
            Scalar::NotANumber
        } else if bits >= SIGN_BIT {
            Scalar::Number((-magnitude) as i64)
        } else {
            Scalar::Number(magnitude as i64)
        }
    }

    /// Whether some float has this key.
    pub open spec fn in_range(self) -> bool {
        self matches Scalar::Number(key) ==> -INFINITY_BITS <= key <= INFINITY_BITS
    }

    /// The order key of the float with the given bit pattern.
    pub fn from_bits(bits: u64) -> (result: Scalar)
        ensures
            result == Self::spec_from_bits(bits),
            result.in_range(),
    {
        let negative = bits >= SIGN_BIT;
        let magnitude: u64 = if negative { bits - SIGN_BIT } else { bits };
        if magnitude > INFINITY_BITS {
            Scalar::NotANumber
        } else if negative {
            Scalar::Number(0 - (magnitude as i64))
        } else {
            Scalar::Number(magnitude as i64)
        }
    }

    /// A bit pattern whose key this is. Zero gets the pattern of positive zero.
    pub open spec fn spec_to_bits(self) -> u64 {
        match self {
            Scalar::Number(key) => if key < 0 {
                (SIGN_BIT + -key) as u64
            } else {
                key as u64
            },
            Scalar::NotANumber => QUIET_NAN_BITS,
        }
    }

    /// The whole part of the float behind the key, cut off towards zero and held
    /// within the 32-bit range. What is not a number counts as zero.
    pub open spec fn spec_truncated(self) -> int {
        match self {
            Scalar::Number(key) => {
                let magnitude: int = if key < 0 { -key } else { key as int };
                let exponent = magnitude / FRACTION_SIZE as int;
                let significand = FRACTION_SIZE + magnitude % FRACTION_SIZE as int;
                if exponent < 1023 {
                    0
                } else if exponent >= 1054 {
                    if key < 0 {
                        i32::MIN as int
                    } else {
                        i32::MAX as int
                    }
                } else {
                    let whole = significand / pow2((1075 - exponent) as nat) as int;
                    if key < 0 {
                        -whole
                    } else {
                        whole
                    }
                }
            },
            Scalar::NotANumber => 0,
        }
    }

    /// `self <= other` as the floats compare.
    pub fn le(self, other: Scalar) -> (result: bool)
        ensures
            result == self.spec_le(other),
    {
        match (self, other) {
            (Scalar::Number(a), Scalar::Number(b)) => a <= b,
            _ => false,
        }
    }

    /// `self < other` as the floats compare.
    pub fn lt(self, other: Scalar) -> (result: bool)
        ensures
            result == self.spec_lt(other),
    {
        match (self, other) {
            (Scalar::Number(a), Scalar::Number(b)) => a < b,
            _ => false,
        }
    }

    /// A bit pattern with this key.
    pub fn to_bits(self) -> (result: u64)
        requires
            self.in_range(),
        ensures
            result == self.spec_to_bits(),
            Self::spec_from_bits(result) == self,
    {
        match self {
            Scalar::Number(key) => if key < 0 {
                SIGN_BIT + ((0 - key) as u64)
            } else {
                key as u64
            },
            Scalar::NotANumber => QUIET_NAN_BITS,
        }
    }

    /// The whole part of the float, held within the 32-bit range.
    pub fn truncated(self) -> (result: i32)
        ensures
            result == self.spec_truncated(),
    {
        match self {
            Scalar::Number(key) => {
                let magnitude: u64 = if key < 0 { (0 - (key as i128)) as u64 } else { key as u64 };
                let exponent: u64 = magnitude / FRACTION_SIZE;
                let significand: u64 = FRACTION_SIZE + magnitude % FRACTION_SIZE;
                if exponent < 1023 {
                    0
                } else if exponent >= 1054 {
                    if key < 0 {
                        i32::MIN
                    } else {
                        i32::MAX
                    }
                } else {
                    let shift: u64 = 1075 - exponent;
                    let whole: u64 = significand >> shift;
                    proof {
                        lemma_u64_shr_is_div(significand, shift);
                        assert(significand >> shift <= 0x7fff_ffff) by (bit_vector)
                            requires
                                significand < 0x20_0000_0000_0000u64,
                                22 <= shift <= 52,
                        ;
                    }
                    if key < 0 {
                        0 - (whole as i32)
                    } else {
                        whole as i32
                    }
                }
            },
            Scalar::NotANumber => 0,
        }
    }
}

/// Comparison of numbers is a total order, and zero has one key whatever its
/// sign.
pub proof fn lemma_scalar_order(a: Scalar, b: Scalar, c: Scalar)
    ensures
        a.spec_le(b) && b.spec_le(c) ==> a.spec_le(c),
        a.spec_le(b) && b.spec_le(a) ==> a == b,
        a is Number && b is Number ==> a.spec_le(b) || b.spec_lt(a),
        a.spec_lt(b) == (a.spec_le(b) && a != b),
        a is NotANumber ==> !a.spec_le(b) && !b.spec_le(a),
        Scalar::spec_from_bits(0) == Scalar::spec_from_bits(SIGN_BIT),
{
}

/// A key gives back the bit pattern that it was taken from, except for negative
/// zero and for what is not a number.
pub proof fn lemma_bits_round_trip(bits: u64)
    ensures
        Scalar::spec_from_bits(Scalar::spec_from_bits(bits).spec_to_bits())
            == Scalar::spec_from_bits(bits),
        bits != SIGN_BIT && Scalar::spec_from_bits(bits) is Number
            ==> Scalar::spec_from_bits(bits).spec_to_bits() == bits,
{
}

/// Numbers are ordered as floats are: those without a sign by their bit patterns, those
/// with one the other way round, and all of these before the others. A pattern beyond
/// that of infinity is not comparable with anything.
pub proof fn lemma_order_follows_bits(a: u64, b: u64)
    requires
        a < 0x8000_0000_0000_0000,
        b < 0x8000_0000_0000_0000,
    ensures
        ({
            let minus_a = Scalar::spec_from_bits((0x8000_0000_0000_0000 + a) as u64);
            let minus_b = Scalar::spec_from_bits((0x8000_0000_0000_0000 + b) as u64);
            let plus_a = Scalar::spec_from_bits(a);
            let plus_b = Scalar::spec_from_bits(b);
            let numbers = a <= 0x7ff0_0000_0000_0000 && b <= 0x7ff0_0000_0000_0000;
            &&& plus_a.spec_lt(plus_b) <==> numbers && a < b
            &&& plus_a.spec_le(plus_b) <==> numbers && a <= b
            &&& minus_a.spec_lt(minus_b) <==> numbers && b < a
            &&& minus_a.spec_le(minus_b) <==> numbers && b <= a
            &&& minus_a.spec_le(plus_b) <==> numbers
            &&& minus_a.spec_lt(plus_b) <==> numbers && (a > 0 || b > 0)
            &&& plus_a.spec_le(minus_b) <==> numbers && a == 0 && b == 0
        }),
{
}

/// The whole part of a float whose magnitude lies from the whole number `n` up to the next
/// is `n`, with the float's sign. `n` has `k` binary digits after its first, and
/// `fraction` stands for what the float has more than `n`.
pub proof fn lemma_truncated_is_whole_part(k: nat, n: nat, fraction: nat, key: i64)
    requires
        k < 31,
        pow2(k) <= n < pow2(k + 1),
        fraction < pow2((52 - k) as nat),
        key == (1023 + k) * 0x10_0000_0000_0000 + (n - pow2(k)) * pow2((52 - k) as nat) + fraction,
    ensures
        Scalar::Number(key).spec_truncated() == n,
        Scalar::Number((-key) as i64).spec_truncated() == -n,
{
    let unit = pow2((52 - k) as nat) as int;
    let f = 0x10_0000_0000_0000int;
    lemma_pow2_adds(k, (52 - k) as nat);
    lemma2_to64();
    lemma2_to64_rest();
    lemma_pow2_pos((52 - k) as nat);
    lemma_pow2_unfold(k + 1);
    let m = (n - pow2(k)) * unit + fraction;
    assert(0 <= m < f && f + m == n * unit + fraction) by (nonlinear_arith)
        requires
            m == (n - pow2(k)) * unit + fraction,
            pow2(k) * unit == f,
            pow2(k) <= n < 2 * pow2(k),
            0 <= fraction < unit,
    ;
    lemma_fundamental_div_mod_converse(key as int, f, 1023 + k as int, m);
    lemma_fundamental_div_mod_converse(f + m, unit, n as int, fraction as int);
}

/// A float whose magnitude is below one has no whole part, one that is not a number counts
/// as zero, and magnitudes from two to the power of 31 on are held within the range.
pub proof fn lemma_truncated_at_the_ends(key: i64)
    requires
        key != i64::MIN,
    ensures
        -0x3ff0_0000_0000_0000 < key < 0x3ff0_0000_0000_0000 ==> Scalar::Number(
            key,
        ).spec_truncated() == 0,
        key >= 0x41e0_0000_0000_0000 ==> Scalar::Number(key).spec_truncated() == 0x7fff_ffff,
        key <= -0x41e0_0000_0000_0000 ==> Scalar::Number(key).spec_truncated() == -0x8000_0000,
        Scalar::NotANumber.spec_truncated() == 0,
{
}

/// Numbers are in a total order, what is no number is in none, and a number is below
/// another where it is at most that and not the same.
pub proof fn lemma_numbers_are_in_order(a: Scalar, b: Scalar, c: Scalar)
    ensures
        a is Number && b is Number ==> a.spec_le(b) || b.spec_le(a),
        a.spec_le(b) && b.spec_le(a) ==> a == b,
        a.spec_le(b) && b.spec_le(c) ==> a.spec_le(c),
        a.spec_lt(b) <==> a.spec_le(b) && a != b,
        a is Number <==> a.spec_le(a),
        a is NotANumber || b is NotANumber ==> !a.spec_le(b) && !a.spec_lt(b),
{
}

/// The bits of a float that is a number and not minus zero come back from its order key,
/// and floats that are no numbers all read alike.
pub proof fn lemma_bits_come_back(bits: u64)
    ensures
        bits <= 0x7ff0_0000_0000_0000 || 0x8000_0000_0000_0000 < bits <= 0xfff0_0000_0000_0000
            ==> Scalar::spec_from_bits(bits).spec_to_bits() == bits,
        Scalar::spec_from_bits(0x8000_0000_0000_0000).spec_to_bits() == 0,
        0x7ff0_0000_0000_0000 < bits < 0x8000_0000_0000_0000 || bits > 0xfff0_0000_0000_0000
            ==> Scalar::spec_from_bits(bits) is NotANumber,
        Scalar::spec_from_bits(bits).in_range(),
{
}

} // verus!
