//! Colours with eight bits per channel and the 32-bit pixel words they pack into.

use vstd::prelude::*;

verus! {

/// The word of a pixel whose ray met no surface.
pub const BACKGROUND: u32 = 0x0000_0000;

/// The alpha of a fully opaque colour.
pub const OPAQUE: u8 = 0xFF;

/// A colour with red, green, blue and alpha channels of one byte each.
#[derive(Clone, Copy, Debug, PartialEq, Eq, Structural)]
pub struct U8Color {
    pub r: u8,
    pub g: u8,
    pub b: u8,
    pub a: u8,
}

impl U8Color {
    /// The number this colour packs into: alpha is the most significant
    /// byte, then red, then green, and blue is the least significant.
    pub open spec fn packed(self) -> nat {
        (self.a * 0x100_0000 + self.r * 0x1_0000 + self.g * 0x100 + self.b) as nat
    }

    /// Packs the colour into one pixel word.
    pub fn as_u32(self) -> (word: u32)
        ensures
            word == self.packed(),
    {
        let (r, g, b, a) = (self.r, self.g, self.b, self.a);
        let word = b as u32 | ((g as u32) << 8) | ((r as u32) << 16) | ((a as u32) << 24);
        assert(word == a * 0x100_0000 + r * 0x1_0000 + g * 0x100 + b) by (bit_vector)
            requires
                word == b as u32 | ((g as u32) << 8) | ((r as u32) << 16) | ((a as u32) << 24),
        ;
        word
    }
}

/// The word stored for one pixel: the packed colour where the ray met a
/// surface, the background word where it did not.
pub fn pixel_word(surface: Option<U8Color>) -> (word: u32)
    ensures
        word == match surface {
            Some(color) => color.packed(),
            None => BACKGROUND as nat,
        },
{
    match surface {
        Some(color) => color.as_u32(),
        None => BACKGROUND,
    }
}

/// Every packed colour fits a 32-bit word, and each byte of that word is one
/// channel: shifting and masking the word gives back alpha, red, green and
/// blue from the top byte down.
pub proof fn lemma_packed_bytes(color: U8Color)
    ensures
        color.packed() <= u32::MAX,
        (color.packed() as u32) >> 24 == color.a,
        ((color.packed() as u32) >> 16) & 0xFF == color.r,
        ((color.packed() as u32) >> 8) & 0xFF == color.g,
        (color.packed() as u32) & 0xFF == color.b,
{
    let (r, g, b, a) = (color.r, color.g, color.b, color.a);
    let word = color.packed() as u32;
    assert(word == a * 0x100_0000 + r * 0x1_0000 + g * 0x100 + b);
    assert(word >> 24 == a && (word >> 16) & 0xFF == r && (word >> 8) & 0xFF == g && word & 0xFF
        == b) by (bit_vector)
        requires
            word == a * 0x100_0000 + r * 0x1_0000 + g * 0x100 + b,
    ;
}

/// Packing loses nothing: two colours with the same word are the same colour.
pub proof fn lemma_packed_injective(first: U8Color, second: U8Color)
    requires
        first.packed() == second.packed(),
    ensures
        first == second,
{
    lemma_packed_bytes(first);
    lemma_packed_bytes(second);
}

/// A colour that is not fully transparent never packs into the background
/// word, so a shaded pixel can always be told from a missed one.
pub proof fn lemma_visible_is_not_background(color: U8Color)
    requires
        color.a != 0,
    ensures
        color.packed() != BACKGROUND,
        color.packed() >= 0x100_0000,
{
}

} // verus!
