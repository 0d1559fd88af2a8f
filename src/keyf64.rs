//! A hashable key for a double, made of its sign, binary exponent and integer
//! mantissa, so that `value == sign * mantissa * 2^exponent` for every finite
//! value and the decomposition can be undone bit for bit.
use vstd::prelude::*;

verus! {

/// Mask of the 52 stored fraction bits of an IEEE 754 double.
pub const FRACTION_MASK: u64 = 0xf_ffff_ffff_ffff;

/// The implicit leading bit of a normal double's mantissa.
pub const HIDDEN_BIT: u64 = 0x10_0000_0000_0000;

/// Exponent bias plus the number of stored fraction bits: the raw exponent
/// field minus this is the power of two that scales the integer mantissa.
pub const EXPONENT_SHIFT: i16 = 1075;

/// The decomposition of a double's bit pattern.
#[derive(Debug, Hash, PartialEq, Eq)]
pub struct KeyF64 {
    /// `1` for a value whose sign bit is clear, `-1` otherwise.
    pub sign: i8,
    /// The power of two that scales the mantissa.
    pub exponent: i16,
    /// The integer mantissa, hidden bit included for a normal value.
    pub mantissa: u64,
}

/// The 11-bit raw exponent field of a bit pattern.
pub open spec fn raw_exponent(bits: u64) -> u64 {
    (bits >> 52u64) & 0x7ffu64
}

pub open spec fn sign_of_bits(bits: u64) -> i8 {
    if bits >> 63u64 == 0 {
        1i8
    } else {
        -1i8
    }
}

/// The integer mantissa: the fraction with the hidden bit for a normal value,
/// the fraction shifted left once for a subnormal one (raw exponent zero).
pub open spec fn mantissa_of_bits(bits: u64) -> u64 {
    if raw_exponent(bits) == 0 {
        (bits & FRACTION_MASK) << 1u64
    } else {
        (bits & FRACTION_MASK) | HIDDEN_BIT
    }
}

pub open spec fn exponent_of_bits(bits: u64) -> int {
    raw_exponent(bits) - EXPONENT_SHIFT
}

/// Reassembles a bit pattern from a sign, a raw exponent field and a mantissa.
pub open spec fn assemble(negative: bool, raw: u64, mantissa: u64) -> u64 {
    let fraction = if raw == 0 {
        mantissa >> 1u64
    } else {
        mantissa & FRACTION_MASK
    };
    let sign_bit: u64 = if negative {
        0x8000_0000_0000_0000u64
    } else {
        0
    };
    sign_bit | (raw << 52u64) | fraction
}

impl KeyF64 {
    /// The keys that some bit pattern decomposes into.
    pub open spec fn wf(&self) -> bool {
        &&& (self.sign == 1 || self.sign == -1)
        &&& -EXPONENT_SHIFT <= self.exponent <= 2047 - EXPONENT_SHIFT
        &&& if self.exponent == -EXPONENT_SHIFT {
            self.mantissa % 2 == 0 && self.mantissa < 2 * HIDDEN_BIT
        } else {
            HIDDEN_BIT <= self.mantissa < 2 * HIDDEN_BIT
        }
    }

    pub open spec fn spec_from_bits(bits: u64) -> KeyF64 {
        KeyF64 {
            sign: sign_of_bits(bits),
            exponent: exponent_of_bits(bits) as i16,
            mantissa: mantissa_of_bits(bits),
        }
    }

    pub open spec fn spec_to_bits(&self) -> u64 {
        assemble(self.sign < 0, (self.exponent + EXPONENT_SHIFT) as u64, self.mantissa)
    }

    /// Decomposes the bit pattern of a double (as given by `f64::to_bits`).
    pub fn from_bits(bits: u64) -> (k: KeyF64)
        ensures
            k == KeyF64::spec_from_bits(bits),
            k.wf(),
    {
        let raw: u64 = (bits >> 52u64) & 0x7ffu64;
        assert(raw <= 2047) by (bit_vector)
            requires
                raw == (bits >> 52u64) & 0x7ffu64,
        ;
        let sign: i8 = if bits >> 63u64 == 0 {
            1
        } else {
            -1
        };
        let mantissa: u64 = if raw == 0 {
            (bits & FRACTION_MASK) << 1u64
        } else {
            (bits & FRACTION_MASK) | HIDDEN_BIT
        };
        proof {
            lemma_mantissa_range(bits);
        }
        let exponent: i16 = raw as i16 - EXPONENT_SHIFT;
        KeyF64 { sign, exponent, mantissa }
    }

    /// The bit pattern that this key was made from (for `f64::from_bits`).
    pub fn to_bits(&self) -> (bits: u64)
        requires
            self.wf(),
        ensures
            bits == self.spec_to_bits(),
    {
        let raw: u64 = (self.exponent + EXPONENT_SHIFT) as u64;
        let fraction: u64 = if raw == 0 {
            self.mantissa >> 1u64
        } else {
            self.mantissa & FRACTION_MASK
        };
        let sign_bit: u64 = if self.sign < 0 {
            0x8000_0000_0000_0000u64
        } else {
            0
        };
        sign_bit | (raw << 52u64) | fraction
    }
}

proof fn lemma_mantissa_range(bits: u64)
    ensures
        raw_exponent(bits) <= 2047,
        raw_exponent(bits) == 0 ==> mantissa_of_bits(bits) % 2 == 0 && mantissa_of_bits(bits)
            < 2 * HIDDEN_BIT,
        raw_exponent(bits) != 0 ==> HIDDEN_BIT <= mantissa_of_bits(bits) < 2 * HIDDEN_BIT,
{
    assert((bits >> 52u64) & 0x7ffu64 <= 2047) by (bit_vector);
    assert(((bits & 0xf_ffff_ffff_ffffu64) << 1u64) % 2 == 0) by (bit_vector);
    assert(((bits & 0xf_ffff_ffff_ffffu64) << 1u64) < 0x20_0000_0000_0000u64) by (bit_vector);
    assert(0x10_0000_0000_0000u64 <= ((bits & 0xf_ffff_ffff_ffffu64) | 0x10_0000_0000_0000u64))
        by (bit_vector);
    assert(((bits & 0xf_ffff_ffff_ffffu64) | 0x10_0000_0000_0000u64) < 0x20_0000_0000_0000u64)
        by (bit_vector);
}

/// Decomposing a bit pattern and reassembling it gives the same bits back.
pub proof fn lemma_bits_round_trip(bits: u64)
    ensures
        KeyF64::spec_from_bits(bits).wf(),
        KeyF64::spec_from_bits(bits).spec_to_bits() == bits,
{
    lemma_mantissa_range(bits);
    let raw = raw_exponent(bits);
    let k = KeyF64::spec_from_bits(bits);
    assert((k.exponent + EXPONENT_SHIFT) as u64 == raw);
    assert(assemble(bits >> 63u64 != 0, (bits >> 52u64) & 0x7ffu64, mantissa_of_bits(bits)) == bits)
        by (bit_vector);
}

/// Every well-formed key is the decomposition of the bits it reassembles to:
/// together with the lemma above, the decomposition is a bijection between
/// bit patterns and well-formed keys.
pub proof fn lemma_key_round_trip(k: KeyF64)
    requires
        k.wf(),
    ensures
        KeyF64::spec_from_bits(k.spec_to_bits()) == k,
{
    let raw: u64 = (k.exponent + EXPONENT_SHIFT) as u64;
    let m = k.mantissa;
    let neg = k.sign < 0;
    let b = assemble(neg, raw, m);
    assert(raw <= 2047);
    assert(raw == 0 ==> m % 2 == 0 && m < 0x20_0000_0000_0000u64);
    assert(raw != 0 ==> 0x10_0000_0000_0000u64 <= m < 0x20_0000_0000_0000u64);
    assert((b >> 52u64) & 0x7ffu64 == raw && (b >> 63u64 == 0 <==> !neg) && mantissa_of_bits(b)
        == m) by (bit_vector)
        requires
            b == assemble(neg, raw, m),
            raw <= 2047,
            raw == 0 ==> m % 2 == 0 && m < 0x20_0000_0000_0000u64,
            raw != 0 ==> 0x10_0000_0000_0000u64 <= m < 0x20_0000_0000_0000u64,
    ;
}

} // verus!
