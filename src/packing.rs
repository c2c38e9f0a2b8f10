//! Bit layouts of the packed GPU format: unit directions in 11-10-11 bits and
//! pairs of half-float bit patterns in one word. The quantisation of a float
//! to these integers is done by the caller.
use vstd::prelude::*;

verus! {

/// Largest quantised x or z channel of a packed direction (11 bits).
pub const DIRECTION_MAX_XZ: u32 = 2047;

/// Largest quantised y channel of a packed direction (10 bits).
pub const DIRECTION_MAX_Y: u32 = 1023;

/// Packs quantised channels: x in bits 0..=10, y in bits 11..=20, z in bits 21..=31.
pub fn pack_normal_11_10_11(x: u32, y: u32, z: u32) -> (r: u32)
    requires
        x <= DIRECTION_MAX_XZ,
        y <= DIRECTION_MAX_Y,
        z <= DIRECTION_MAX_XZ,
    ensures
        r == z * 0x20_0000 + y * 0x800 + x,
{
    assert((z << 21u32) | (y << 11u32) | x == z * 0x20_0000 + y * 0x800 + x) by (bit_vector)
        requires
            x <= 2047u32,
            y <= 1023u32,
            z <= 2047u32,
    ;
    (z << 21) | (y << 11) | x
}

/// The quantised (x, y, z) channels of a packed direction.
pub fn unpack_normal_11_10_11(p: u32) -> (r: (u32, u32, u32))
    ensures
        r.0 == p % 0x800,
        r.1 == (p / 0x800) % 0x400,
        r.2 == p / 0x20_0000,
{
    assert(p & 0x7ffu32 == p % 0x800 && (p >> 11u32) & 0x3ffu32 == (p / 0x800) % 0x400 && p >> 21u32
        == p / 0x20_0000) by (bit_vector);
    (p & 0x7ff, (p >> 11) & 0x3ff, p >> 21)
}

/// Unpacking a packed direction gives back its quantised channels.
pub proof fn lemma_direction_round_trip(x: u32, y: u32, z: u32)
    requires
        x <= DIRECTION_MAX_XZ,
        y <= DIRECTION_MAX_Y,
        z <= DIRECTION_MAX_XZ,
    ensures
        ({
            let p = z * 0x20_0000 + y * 0x800 + x;
            &&& p <= u32::MAX
            &&& p % 0x800 == x
            &&& (p / 0x800) % 0x400 == y
            &&& p / 0x20_0000 == z
        }),
{
    let p = z * 0x20_0000 + y * 0x800 + x;
    assert(p / 0x800 == z * 0x400 + y) by (nonlinear_arith)
        requires
            p == z * 0x20_0000 + y * 0x800 + x,
            x < 0x800,
    ;
    assert(p / 0x20_0000 == z) by (nonlinear_arith)
        requires
            p == z * 0x20_0000 + y * 0x800 + x,
            x < 0x800,
            y < 0x400,
    ;
}

/// Two 16-bit patterns in one word: `lo` in the low half, `hi` in the high half.
pub fn pack_half2(lo: u16, hi: u16) -> (r: u32)
    ensures
        r == hi * 0x1_0000 + lo,
{
    assert((lo as u32) | ((hi as u32) << 16u32) == hi * 0x1_0000 + lo) by (bit_vector);
    (lo as u32) | ((hi as u32) << 16)
}

/// The low and high 16-bit halves of a word.
pub fn unpack_half2(p: u32) -> (r: (u16, u16))
    ensures
        r.0 == p % 0x1_0000,
        r.1 == p / 0x1_0000,
{
    assert((p & 0xffffu32) as u16 == p % 0x1_0000 && (p >> 16u32) as u16 == p / 0x1_0000) by (bit_vector);
    ((p & 0xffff) as u16, (p >> 16) as u16)
}

/// Unpacking a packed pair gives back both halves.
pub proof fn lemma_half2_round_trip(lo: u16, hi: u16)
    ensures
        ({
            let p = hi * 0x1_0000 + lo;
            &&& p <= u32::MAX
            &&& p % 0x1_0000 == lo
            &&& p / 0x1_0000 == hi
        }),
{
    let p = hi * 0x1_0000 + lo;
    assert(p / 0x1_0000 == hi) by (nonlinear_arith)
        requires
            p == hi * 0x1_0000 + lo,
            lo < 0x1_0000,
    ;
}

} // verus!
