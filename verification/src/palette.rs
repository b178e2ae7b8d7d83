//! Colors and the 16-token UI palette that themes provide.
use vstd::prelude::*;

verus! {

/// A packed `(red, green, blue)` triple.
pub type Rgb = (u8, u8, u8);

/// A terminal color, with the same variants as the renderer's color type.
#[derive(Clone, Copy, Debug, PartialEq, Eq, Structural)]
pub enum Color {
    Reset,
    Black,
    Red,
    Green,
    Yellow,
    Blue,
    Magenta,
    Cyan,
    Gray,
    DarkGray,
    LightRed,
    LightGreen,
    LightYellow,
    LightBlue,
    LightMagenta,
    LightCyan,
    White,
    Rgb(u8, u8, u8),
    Indexed(u8),
}

/// herdr's 16 UI color tokens, in palette-token order.
#[derive(Clone, Copy, Debug, PartialEq, Eq, Structural)]
pub struct Palette {
    pub accent: Color,
    pub panel_bg: Color,
    pub surface0: Color,
    pub surface1: Color,
    pub surface_dim: Color,
    pub overlay0: Color,
    pub overlay1: Color,
    pub text: Color,
    pub subtext0: Color,
    pub mauve: Color,
    pub green: Color,
    pub yellow: Color,
    pub red: Color,
    pub blue: Color,
    pub teal: Color,
    pub peach: Color,
}

/// The packed `0xRRGGBB` value of a color triple.
pub open spec fn packed_rgb(rgb: Rgb) -> int {
    rgb.0 as int * 65536 + rgb.1 as int * 256 + rgb.2 as int
}

/// Packs a color triple as `0xRRGGBB`.
pub fn pack(rgb: Rgb) -> (packed: u32)
    ensures
        packed == packed_rgb(rgb),
        packed < 0x0100_0000,
{
    let (r, g, b) = rgb;
    let packed = (r as u32) << 16u32 | (g as u32) << 8u32 | (b as u32);
    assert(packed == (r as u32) * 65536 + (g as u32) * 256 + (b as u32)) by (bit_vector)
        requires
            packed == (r as u32) << 16u32 | (g as u32) << 8u32 | (b as u32),
            r <= 255u8,
            g <= 255u8,
            b <= 255u8,
    ;
    packed
}

/// Distinct color triples pack to distinct values, and packing is undone by
/// taking the three bytes back out.
pub proof fn lemma_pack_injective(a: Rgb, b: Rgb)
    ensures
        packed_rgb(a) == packed_rgb(b) <==> a == b,
        packed_rgb(a) / 65536 == a.0,
        (packed_rgb(a) / 256) % 256 == a.1,
        packed_rgb(a) % 256 == a.2,
{
}

} // verus!
