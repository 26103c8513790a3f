//! Colours with four 8-bit channels, and the 15-bit console palette.

use vstd::prelude::*;

verus! {

/// A colour: red, green, blue and opacity, each from 0 to 255.
#[derive(Copy, Clone, Debug, PartialEq, Eq, Structural)]
pub struct Rgba {
    pub r: u8,
    pub g: u8,
    pub b: u8,
    pub a: u8,
}

impl Rgba {
    /// An opaque colour.
    pub fn rgb(r: u8, g: u8, b: u8) -> (c: Rgba)
        ensures
            c == (Rgba { r, g, b, a: 255 }),
    {
        Rgba { r, g, b, a: 255 }
    }

    pub fn rgba(r: u8, g: u8, b: u8, a: u8) -> (c: Rgba)
        ensures
            c == (Rgba { r, g, b, a }),
    {
        Rgba { r, g, b, a }
    }

    /// Opaque white, the colour of a cell that was never painted.
    pub open spec fn white() -> Rgba {
        Rgba { r: 255, g: 255, b: 255, a: 255 }
    }
}

pub const GBA_PALETTE_ROWS: usize = 4;

pub const GBA_PALETTE_COLS: usize = 8;

/// The number of levels per channel in the extended palette.
pub const GBA_EXTENDED_STEPS: usize = 7;

/// A 5-bit channel value widened to 8 bits: 0 stays 0 and 31 becomes 255.
/// Above 31 the result keeps its low 8 bits only.
pub open spec fn gba5_to_u8_spec(c5: u8) -> u8 {
    (((c5 as int * 255) / 31) % 256) as u8
}

pub fn gba5_to_u8(c5: u8) -> (c8: u8)
    ensures
        c8 == gba5_to_u8_spec(c5),
        c5 <= 31 ==> c8 == (c5 as int * 255) / 31,
{
    let wide: u16 = (c5 as u16 * 255) / 31;
    (wide % 256) as u8
}

/// The 5-bit level of step `i` of the extended palette: seven levels spread
/// evenly from 0 to 31.
pub open spec fn gba_step_spec(i: int) -> u8 {
    if i == 0 {
        0
    } else if i == 1 {
        5
    } else if i == 2 {
        10
    } else if i == 3 {
        15
    } else if i == 4 {
        20
    } else if i == 5 {
        25
    } else {
        31
    }
}

/// Entry `i` of the extended palette. Green varies slowest, then red, then
/// blue; every entry is opaque.
pub open spec fn gba_extended_color_spec(i: int) -> Rgba {
    Rgba {
        r: gba5_to_u8_spec(gba_step_spec((i / 7) % 7)),
        g: gba5_to_u8_spec(gba_step_spec(i / 49)),
        b: gba5_to_u8_spec(gba_step_spec(i % 7)),
        a: 255,
    }
}

fn gba_step(i: usize) -> (s: u8)
    requires
        i < 7,
    ensures
        s == gba_step_spec(i as int),
{
    if i == 0 {
        0
    } else if i == 1 {
        5
    } else if i == 2 {
        10
    } else if i == 3 {
        15
    } else if i == 4 {
        20
    } else if i == 5 {
        25
    } else {
        31
    }
}

/// The extended palette: 7 x 7 x 7 = 343 colours.
pub fn generate_gba_extended_palette() -> (colors: Vec<Rgba>)
    ensures
        colors@.len() == 343,
        forall|i: int| 0 <= i < 343 ==> #[trigger] colors@[i] == gba_extended_color_spec(i),
{
    let mut colors: Vec<Rgba> = Vec::new();
    let mut g: usize = 0;
    while g < 7
        invariant
            g <= 7,
            colors@.len() == g * 49,
            forall|i: int| 0 <= i < colors@.len() ==> #[trigger] colors@[i] == gba_extended_color_spec(i),
        decreases 7 - g,
    {
        let mut r: usize = 0;
        while r < 7
            invariant
                g < 7,
                r <= 7,
                colors@.len() == g * 49 + r * 7,
                forall|i: int| 0 <= i < colors@.len() ==> #[trigger] colors@[i] == gba_extended_color_spec(i),
            decreases 7 - r,
        {
            let mut b: usize = 0;
            while b < 7
                invariant
                    g < 7,
                    r < 7,
                    b <= 7,
                    colors@.len() == g * 49 + r * 7 + b,
                    forall|i: int| 0 <= i < colors@.len() ==> #[trigger] colors@[i] == gba_extended_color_spec(i),
                decreases 7 - b,
            {
                let c = Rgba::rgba(gba5_to_u8(gba_step(r)), gba5_to_u8(gba_step(g)), gba5_to_u8(gba_step(b)), 255);
                colors.push(c);
                b += 1;
            }
            r += 1;
        }
        g += 1;
    }
    colors
}

} // verus!
