//! The packed per-cell color attribute: a foreground and a background color,
//! each one of sixteen named values, packed into one byte.

use vstd::prelude::*;

verus! {

/// The sixteen colors of the text mode palette.
#[derive(Clone, Copy, PartialEq, Eq, Structural, Debug)]
pub enum Color {
    Black,
    Blue,
    Green,
    Cyan,
    Red,
    Magenta,
    Brown,
    LightGray,
    DarkGray,
    LightBlue,
    LightGreen,
    LightCyan,
    LightRed,
    LightMagenta,
    Yellow,
    White,
}

/// The 4-bit code of a palette color.
pub open spec fn spec_nibble(c: Color) -> u8 {
    match c {
        Color::Black => 0,
        Color::Blue => 1,
        Color::Green => 2,
        Color::Cyan => 3,
        Color::Red => 4,
        Color::Magenta => 5,
        Color::Brown => 6,
        Color::LightGray => 7,
        Color::DarkGray => 8,
        Color::LightBlue => 9,
        Color::LightGreen => 10,
        Color::LightCyan => 11,
        Color::LightRed => 12,
        Color::LightMagenta => 13,
        Color::Yellow => 14,
        Color::White => 15,
    }
}

impl Color {
    /// The 4-bit code of this color.
    pub fn nibble(self) -> (r: u8)
        ensures
            r == spec_nibble(self),
            r < 16,
    {
        match self {
            Color::Black => 0,
            Color::Blue => 1,
            Color::Green => 2,
            Color::Cyan => 3,
            Color::Red => 4,
            Color::Magenta => 5,
            Color::Brown => 6,
            Color::LightGray => 7,
            Color::DarkGray => 8,
            Color::LightBlue => 9,
            Color::LightGreen => 10,
            Color::LightCyan => 11,
            Color::LightRed => 12,
            Color::LightMagenta => 13,
            Color::Yellow => 14,
            Color::White => 15,
        }
    }
}

/// A packed color attribute byte. The view of a `ColorCode` is the packed
/// byte itself: background code in the high nibble, foreground code in the
/// low nibble.
#[derive(Clone, Copy, PartialEq, Eq, Structural, Debug)]
pub struct ColorCode(u8);

impl View for ColorCode {
    type V = u8;

    closed spec fn view(&self) -> u8 {
        self.0
    }
}

/// The packed byte for a foreground/background pair.
pub open spec fn spec_color_code(foreground: Color, background: Color) -> u8 {
    (spec_nibble(background) * 16 + spec_nibble(foreground)) as u8
}

impl ColorCode {
    /// Packs a foreground and a background color into one attribute byte.
    pub fn new(foreground: Color, background: Color) -> (r: ColorCode)
        ensures
            r@ == spec_color_code(foreground, background),
    {
        let f = foreground.nibble();
        let b = background.nibble();
        proof {
            assert((b << 4) | f == b * 16 + f) by (bit_vector)
                requires
                    b < 16 && f < 16,
            ;
        }
        ColorCode((b << 4) | f)
    }

    /// The packed attribute byte, for building the hardware image.
    pub(crate) fn raw(self) -> (r: u8)
        ensures
            r == self@,
    {
        self.0
    }
}

/// The packed byte of the process-wide default attribute: light green text on
/// a black background.
pub open spec fn spec_default_color() -> u8 {
    spec_color_code(Color::LightGreen, Color::Black)
}

/// The process-wide default attribute: light green text on a black background.
pub fn default_color() -> (r: ColorCode)
    ensures
        r@ == spec_default_color(),
{
    ColorCode::new(Color::LightGreen, Color::Black)
}

} // verus!
