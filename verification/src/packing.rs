//! Packing of quantized vertex attributes into 32-bit words: normals as
//! 11-11-10 bits, tangents as 10-10-10-2 bits, texture coordinates as two
//! 16-bit halves.
//!
//! The components come in already quantized (the caller maps each float
//! from `[-1, 1]` onto the integer range of its field); components wider
//! than their field spill into the fields above, as plain bitwise `|`
//! does.

use vstd::prelude::*;

verus! {

/// Largest value of an 11-bit field.
pub const MAX_11: u32 = 0x7ff;

/// Largest value of a 10-bit field.
pub const MAX_10: u32 = 0x3ff;

/// `x` in bits 0..11, `y` in bits 11..22, `z` in bits 22..32.
pub open spec fn spec_pack_11_11_10(x: u32, y: u32, z: u32) -> u32 {
    x | (y << 11u32) | (z << 22u32)
}

/// `x` in bits 0..10, `y` in bits 10..20, `z` in bits 20..30, and the low two
/// bits of `extra` in bits 30..32.
pub open spec fn spec_pack_10_10_10_2(x: u32, y: u32, z: u32, extra: u32) -> u32 {
    x | (y << 10u32) | (z << 20u32) | ((extra & 3u32) << 30u32)
}

/// `x` in the low half, `y` in the high half.
pub open spec fn spec_pack_16_16(x: u16, y: u16) -> u32 {
    (x as u32) | ((y as u32) << 16u32)
}

/// Packs three quantized components into 11, 11 and 10 bits. Components
/// within their fields land in them side by side.
pub fn pack_11_11_10(x: u32, y: u32, z: u32) -> (r: u32)
    ensures
        r == spec_pack_11_11_10(x, y, z),
        x <= MAX_11 && y <= MAX_11 && z <= MAX_10 ==> r == x + 2048 * y + 4194304 * z,
{
    let r = x | (y << 11u32) | (z << 22u32);
    proof {
        if x <= MAX_11 && y <= MAX_11 && z <= MAX_10 {
            assert(x <= 0x7ff && y <= 0x7ff && z <= 0x3ff ==> (x | (y << 11u32) | (z << 22u32)) == x
                + 2048 * y + 4194304 * z) by (bit_vector);
        }
    }
    r
}

/// Packs three quantized components into 10 bits each and the low two bits
/// of `extra` into the top two. Components within their fields land in
/// them side by side.
pub fn pack_10_10_10_2(x: u32, y: u32, z: u32, extra: u32) -> (r: u32)
    ensures
        r == spec_pack_10_10_10_2(x, y, z, extra),
        x <= MAX_10 && y <= MAX_10 && z <= MAX_10 ==> r == x + 1024 * y + 1048576 * z
            + 1073741824 * (extra % 4),
{
    let r = x | (y << 10u32) | (z << 20u32) | ((extra & 3u32) << 30u32);
    proof {
        if x <= MAX_10 && y <= MAX_10 && z <= MAX_10 {
            assert(x <= 0x3ff && y <= 0x3ff && z <= 0x3ff ==> (x | (y << 10u32) | (z << 20u32) | ((
            extra & 3u32) << 30u32)) == x + 1024 * y + 1048576 * z + 1073741824 * (extra % 4))
                by (bit_vector);
        }
    }
    r
}

/// Packs two 16-bit values (the bits of two half floats) into a word.
pub fn pack_16_16(x: u16, y: u16) -> (r: u32)
    ensures
        r == spec_pack_16_16(x, y),
        r == x + 65536 * y,
{
    let r = (x as u32) | ((y as u32) << 16u32);
    proof {
        let a = x as u32;
        let b = y as u32;
        assert(a <= 0xffff && b <= 0xffff ==> (a | (b << 16u32)) == a + 65536 * b) by (bit_vector);
    }
    r
}

/// Law: components within their fields are read back from an 11-11-10
/// word unchanged.
pub proof fn lemma_pack_11_11_10_roundtrip(x: u32, y: u32, z: u32)
    requires
        x <= MAX_11,
        y <= MAX_11,
        z <= MAX_10,
    ensures
        spec_pack_11_11_10(x, y, z) & 0x7ffu32 == x,
        (spec_pack_11_11_10(x, y, z) >> 11u32) & 0x7ffu32 == y,
        spec_pack_11_11_10(x, y, z) >> 22u32 == z,
{
    assert(x <= 0x7ff && y <= 0x7ff && z <= 0x3ff ==> {
        let w = x | (y << 11u32) | (z << 22u32);
        &&& w & 0x7ffu32 == x
        &&& (w >> 11u32) & 0x7ffu32 == y
        &&& w >> 22u32 == z
    }) by (bit_vector);
}

/// Law: components within their fields, and the low two bits of the extra
/// value, are read back from a 10-10-10-2 word unchanged.
pub proof fn lemma_pack_10_10_10_2_roundtrip(x: u32, y: u32, z: u32, extra: u32)
    requires
        x <= MAX_10,
        y <= MAX_10,
        z <= MAX_10,
    ensures
        spec_pack_10_10_10_2(x, y, z, extra) & 0x3ffu32 == x,
        (spec_pack_10_10_10_2(x, y, z, extra) >> 10u32) & 0x3ffu32 == y,
        (spec_pack_10_10_10_2(x, y, z, extra) >> 20u32) & 0x3ffu32 == z,
        spec_pack_10_10_10_2(x, y, z, extra) >> 30u32 == extra & 3u32,
{
    assert(x <= 0x3ff && y <= 0x3ff && z <= 0x3ff ==> {
        let w = x | (y << 10u32) | (z << 20u32) | ((extra & 3u32) << 30u32);
        &&& w & 0x3ffu32 == x
        &&& (w >> 10u32) & 0x3ffu32 == y
        &&& (w >> 20u32) & 0x3ffu32 == z
        &&& w >> 30u32 == extra & 3u32
    }) by (bit_vector);
}

} // verus!
