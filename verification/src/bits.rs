//! Bit-level building blocks of the instruction set: two's-complement sign
//! extension of narrow immediate fields, 16-bit wraparound addition, and the
//! condition-flag derivation applied after every general-purpose register
//! write.

use vstd::prelude::*;

use crate::register::{FL_NEG, FL_POS, FL_ZRO};

verus! {

/// The 16-bit value that a `bit_count`-wide two's-complement field `x`
/// denotes: if the field's top bit is set, the high bits are filled with
/// ones, otherwise the value is unchanged.
pub open spec fn sign_extend_spec(x: u16, bit_count: u16) -> u16
    recommends
        0 < bit_count < 16,
{
    if (x >> (((bit_count - 1)) as u16)) & 1 != 0 {
        x | (0xFFFFu16 << bit_count)
    } else {
        x
    }
}

/// Addition modulo 2^16, the address and ADD arithmetic of the machine.
pub open spec fn wrap_add(x: u16, y: u16) -> u16 {
    if x + y > 0xFFFF {
        (x + y - 0x10000) as u16
    } else {
        (x + y) as u16
    }
}

/// The 16-bit word that two big-endian bytes denote.
pub open spec fn word_of_bytes(hi: u8, lo: u8) -> u16 {
    ((hi as u16) << 8) | (lo as u16)
}

/// The condition flag that a freshly written register value produces:
/// ZERO for 0, NEGATIVE when the high bit is set, POSITIVE otherwise.
pub open spec fn flag_for(v: u16) -> u16 {
    if v == 0 {
        FL_ZRO
    } else if v >> 15 != 0 {
        FL_NEG
    } else {
        FL_POS
    }
}

/// Widen a two's-complement field of `bit_count` bits to 16 bits,
/// preserving its signed value.
pub fn sign_extend(x: u16, bit_count: u16) -> (r: u16)
    requires
        0 < bit_count < 16,
    ensures
        r == sign_extend_spec(x, bit_count),
{
    if (x >> (bit_count - 1)) & 1 != 0 {
        x | (0xFFFFu16 << bit_count)
    } else {
        x
    }
}

/// Flag derivation is exhaustive and mutually exclusive: every 16-bit value
/// yields exactly one of the three flags — ZERO iff the value is 0,
/// NEGATIVE iff it is nonzero with the high bit set, POSITIVE otherwise.
pub proof fn lemma_flag_derivation(v: u16)
    ensures
        (flag_for(v) == FL_ZRO) <==> (v == 0),
        (flag_for(v) == FL_NEG) <==> (v != 0 && v >> 15 == 1),
        (flag_for(v) == FL_POS) <==> (v != 0 && v >> 15 == 0),
        flag_for(v) == FL_ZRO || flag_for(v) == FL_NEG || flag_for(v) == FL_POS,
{
    assert(v >> 15 == 0 || v >> 15 == 1) by (bit_vector);
}

/// Sign extension is self-consistent: extending a `bit_count`-bit field and
/// masking back down to `bit_count` bits returns the field unchanged, for
/// every field width the instruction set uses (5, 6, 9 and 11).
pub proof fn lemma_sign_extend_roundtrip(x: u16, bit_count: u16)
    requires
        bit_count == 5 || bit_count == 6 || bit_count == 9 || bit_count == 11,
        x < (1u16 << bit_count),
    ensures
        sign_extend_spec(x, bit_count) & (((1u16 << bit_count) - 1) as u16) == x,
{
    let k = bit_count;
    assert((if (x >> (((k - 1)) as u16)) & 1 != 0 {
        x | (0xFFFFu16 << k)
    } else {
        x
    }) & (((1u16 << k) - 1) as u16) == x) by (bit_vector)
        requires
            k == 5 || k == 6 || k == 9 || k == 11,
            x < (1u16 << k),
    ;
}

} // verus!
