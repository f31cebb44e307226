//! RGB samples and the scalar operations on them.

use vstd::prelude::*;

verus! {

/// One RGB sample: three 8-bit channel intensities.
#[derive(Clone, Copy, Debug, PartialEq, Eq, Structural)]
pub struct Color {
    pub r: u8,
    pub g: u8,
    pub b: u8,
}

/// Pure white, the value of an untouched canvas cell.
pub open spec fn white() -> Color {
    Color { r: 255, g: 255, b: 255 }
}

/// Pure black.
pub open spec fn black() -> Color {
    Color { r: 0, g: 0, b: 0 }
}

/// The gray sample whose three channels all hold `v`.
pub open spec fn gray(v: u8) -> Color {
    Color { r: v, g: v, b: v }
}

/// `v` limited to the channel range 0..=255.
pub open spec fn clamp_channel(v: int) -> int {
    if v < 0 {
        0
    } else if v > 255 {
        255
    } else {
        v
    }
}

/// The gray level of every sample of `s`, in the same order.
pub open spec fn levels_of(s: Seq<Color>) -> Seq<u8> {
    Seq::new(s.len(), |k: int| s[k].level())
}

impl Color {
    /// The gray level of a sample: the truncated mean of its channels.
    pub open spec fn level(self) -> u8 {
        ((self.r + self.g + self.b) / 3) as u8
    }

    /// The sample with the given channels.
    pub fn new(r: u8, g: u8, b: u8) -> (c: Color)
        ensures
            c == (Color { r, g, b }),
    {
        Color { r, g, b }
    }

    /// Pure white.
    pub fn white() -> (c: Color)
        ensures
            c == white(),
    {
        Color { r: 255, g: 255, b: 255 }
    }

    /// Pure black.
    pub fn black() -> (c: Color)
        ensures
            c == black(),
    {
        Color { r: 0, g: 0, b: 0 }
    }

    /// The gray sample of level `v`.
    pub fn gray(v: u8) -> (c: Color)
        ensures
            c == gray(v),
    {
        Color { r: v, g: v, b: v }
    }

    /// Reduces the sample to its gray level.
    pub fn gray_level(&self) -> (v: u8)
        ensures
            v == self.level(),
            v as int == (self.r + self.g + self.b) / 3,
    {
        let sum: u32 = self.r as u32 + self.g as u32 + self.b as u32;
        (sum / 3) as u8
    }
}

/// Limits a signed value to the channel range.
pub fn clamp_to_channel(v: i64) -> (c: u8)
    ensures
        c as int == clamp_channel(v as int),
{
    if v < 0 {
        0
    } else if v > 255 {
        255
    } else {
        v as u8
    }
}

} // verus!
