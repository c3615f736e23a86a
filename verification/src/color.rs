//! Packed colours and their channels.

use crate::canvas::Rgba8;
use vstd::prelude::*;

verus! {

/// A packed colour that can be taken apart into 8-bit channels and put
/// together from them.
pub trait Color: Sized {
    /// The channels of a colour: red, green, blue, alpha.
    spec fn channels(&self) -> Rgba8;

    /// The colour that holds the given channels, as far as its width allows.
    spec fn packed(r: u8, g: u8, b: u8, a: u8) -> Self;

    fn to_rgba(&self) -> (c: (u8, u8, u8, u8))
        ensures
            c == self.channels(),
    ;

    fn from_rgba(r: u8, g: u8, b: u8, a: u8) -> (c: Self)
        ensures
            c == Self::packed(r, g, b, a),
    ;
}

/// A 16-bit colour: five bits each of red, green and blue, red uppermost.
pub type Color16 = u16;

/// A 32-bit colour: eight bits each of red, green, blue and alpha, red
/// uppermost.
pub type Color32 = u32;

/// A 5-bit channel stretched over the 8-bit range.
pub open spec fn widen5(v: int) -> u8 {
    (v * 255 / 31) as u8
}

/// The channels of a 16-bit colour. Alpha is always full.
pub open spec fn rgba16(c: u16) -> Rgba8 {
    (widen5(c as int / 1024 % 32), widen5(c as int / 32 % 32), widen5(c as int % 32), 255u8)
}

/// A colour whose red, green and blue are all zero.
pub open spec fn is_black(c: u16) -> bool {
    c as int % 32768 == 0
}

/// The 16-bit colour nearest below the given channels.
pub open spec fn pack16(r: u8, g: u8, b: u8) -> u16 {
    ((r as int / 8) * 1024 + (g as int / 8) * 32 + b as int / 8) as u16
}

/// The channels of a 32-bit colour.
pub open spec fn rgba32(c: u32) -> Rgba8 {
    (
        (c as int / 16777216) as u8,
        (c as int / 65536 % 256) as u8,
        (c as int / 256 % 256) as u8,
        (c as int % 256) as u8,
    )
}

/// The 32-bit colour of the given channels.
pub open spec fn pack32(r: u8, g: u8, b: u8, a: u8) -> u32 {
    (r as int * 16777216 + g as int * 65536 + b as int * 256 + a as int) as u32
}

impl Color for Color16 {
    open spec fn channels(&self) -> Rgba8 {
        rgba16(*self)
    }

    open spec fn packed(r: u8, g: u8, b: u8, a: u8) -> u16 {
        pack16(r, g, b)
    }

    fn to_rgba(&self) -> (c: (u8, u8, u8, u8)) {
        let v: u16 = *self;
        let r5: u16 = (v >> 10) & 0x1F;
        let g5: u16 = (v >> 5) & 0x1F;
        let b5: u16 = v & 0x1F;
        assert(r5 == v / 1024 % 32 && g5 == v / 32 % 32 && b5 == v % 32) by (bit_vector)
            requires
                r5 == (v >> 10) & 0x1F,
                g5 == (v >> 5) & 0x1F,
                b5 == v & 0x1F,
        ;
        let r: u8 = (r5 * 0xFF / 0x1F) as u8;
        let g: u8 = (g5 * 0xFF / 0x1F) as u8;
        let b: u8 = (b5 * 0xFF / 0x1F) as u8;
        (r, g, b, 255)
    }

    fn from_rgba(r: u8, g: u8, b: u8, _a: u8) -> (c: u16) {
        let r5: u16 = r as u16 >> 3;
        let g5: u16 = g as u16 >> 3;
        let b5: u16 = b as u16 >> 3;
        assert(r5 == r / 8 && g5 == g / 8 && b5 == b / 8) by (bit_vector)
            requires
                r5 == r as u16 >> 3,
                g5 == g as u16 >> 3,
                b5 == b as u16 >> 3,
        ;
        let hi: u16 = r5 << 10;
        let mid: u16 = g5 << 5;
        assert(hi == r5 * 1024 && mid == g5 * 32) by (bit_vector)
            requires
                r5 < 32,
                g5 < 32,
                hi == r5 << 10,
                mid == g5 << 5,
        ;
        hi + mid + b5
    }
}

impl Color for Color32 {
    open spec fn channels(&self) -> Rgba8 {
        rgba32(*self)
    }

    open spec fn packed(r: u8, g: u8, b: u8, a: u8) -> u32 {
        pack32(r, g, b, a)
    }

    fn to_rgba(&self) -> (c: (u8, u8, u8, u8)) {
        let v: u32 = *self;
        let r: u32 = (v >> 24) & 0xFF;
        let g: u32 = (v >> 16) & 0xFF;
        let b: u32 = (v >> 8) & 0xFF;
        let a: u32 = v & 0xFF;
        assert(r == v / 16777216 && g == v / 65536 % 256 && b == v / 256 % 256 && a == v % 256)
            by (bit_vector)
            requires
                r == (v >> 24) & 0xFF,
                g == (v >> 16) & 0xFF,
                b == (v >> 8) & 0xFF,
                a == v & 0xFF,
        ;
        (r as u8, g as u8, b as u8, a as u8)
    }

    fn from_rgba(r: u8, g: u8, b: u8, a: u8) -> (c: u32) {
        let r32: u32 = (r as u32) << 24;
        let g32: u32 = (g as u32) << 16;
        let b32: u32 = (b as u32) << 8;
        assert(r32 == r * 16777216 && g32 == g * 65536 && b32 == b * 256) by (bit_vector)
            requires
                r32 == (r as u32) << 24,
                g32 == (g as u32) << 16,
                b32 == (b as u32) << 8,
        ;
        r32 + g32 + b32 + a as u32
    }
}

/// Taking the channels of a 32-bit colour and packing them again gives the
/// colour.
pub proof fn lemma_pack32_channels(c: u32)
    ensures
        pack32(rgba32(c).0, rgba32(c).1, rgba32(c).2, rgba32(c).3) == c,
{
}

/// A black 16-bit colour has no red, green or blue.
pub proof fn lemma_black_channels(c: u16)
    ensures
        is_black(c) <==> rgba16(c).0 == 0 && rgba16(c).1 == 0 && rgba16(c).2 == 0,
{
}

} // verus!
