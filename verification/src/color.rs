//! Colors of text and background.
use vstd::prelude::*;
use vstd::std_specs::convert::{FromSpec, FromSpecImpl};

verus! {

/// The sixteen colors that every terminal palette starts with, in the order of
/// their palette entries.
#[derive(Debug, Clone, Copy, PartialEq, Eq, Structural)]
pub enum AnsiColor {
    Black,
    Maroon,
    Green,
    Olive,
    Navy,
    Purple,
    Teal,
    Silver,
    Grey,
    Red,
    Lime,
    Yellow,
    Blue,
    Fuschia,
    Aqua,
    White,
}

/// A color given by its red, green and blue parts.
#[derive(Debug, Clone, Copy, PartialEq, Eq, Structural)]
pub struct RgbColor {
    pub red: u8,
    pub green: u8,
    pub blue: u8,
}

/// The color of a cell's text or background.
#[derive(Debug, Clone, Copy, PartialEq, Eq, Structural)]
pub enum ColorAttribute {
    /// The color that the terminal uses when none was asked for.
    Default,
    /// An entry of the terminal's palette.
    PaletteIndex(u8),
    /// An exact color, with a palette entry for terminals that have no exact
    /// colors.
    TrueColorWithPaletteFallback(RgbColor, u8),
    /// An exact color; terminals that have no exact colors use their default.
    TrueColorWithDefaultFallback(RgbColor),
}

impl AnsiColor {
    /// The palette entry of this color.
    pub open spec fn spec_palette_index(self) -> u8 {
        match self {
            AnsiColor::Black => 0,
            AnsiColor::Maroon => 1,
            AnsiColor::Green => 2,
            AnsiColor::Olive => 3,
            AnsiColor::Navy => 4,
            AnsiColor::Purple => 5,
            AnsiColor::Teal => 6,
            AnsiColor::Silver => 7,
            AnsiColor::Grey => 8,
            AnsiColor::Red => 9,
            AnsiColor::Lime => 10,
            AnsiColor::Yellow => 11,
            AnsiColor::Blue => 12,
            AnsiColor::Fuschia => 13,
            AnsiColor::Aqua => 14,
            AnsiColor::White => 15,
        }
    }

    /// The palette entry of this color.
    pub fn palette_index(self) -> (index: u8)
        ensures
            index == self.spec_palette_index(),
    {
        match self {
            AnsiColor::Black => 0,
            AnsiColor::Maroon => 1,
            AnsiColor::Green => 2,
            AnsiColor::Olive => 3,
            AnsiColor::Navy => 4,
            AnsiColor::Purple => 5,
            AnsiColor::Teal => 6,
            AnsiColor::Silver => 7,
            AnsiColor::Grey => 8,
            AnsiColor::Red => 9,
            AnsiColor::Lime => 10,
            AnsiColor::Yellow => 11,
            AnsiColor::Blue => 12,
            AnsiColor::Fuschia => 13,
            AnsiColor::Aqua => 14,
            AnsiColor::White => 15,
        }
    }
}

impl From<AnsiColor> for ColorAttribute {
    fn from(color: AnsiColor) -> (attribute: ColorAttribute) {
        ColorAttribute::PaletteIndex(color.palette_index())
    }
}

impl FromSpecImpl<AnsiColor> for ColorAttribute {
    open spec fn obeys_from_spec() -> bool {
        true
    }

    open spec fn from_spec(color: AnsiColor) -> ColorAttribute {
        ColorAttribute::PaletteIndex(color.spec_palette_index())
    }
}

/// The sixteen colors are the first sixteen palette entries, in this order.
pub proof fn law_palette_entries(color: AnsiColor)
    ensures
        ({
            let entry = color.spec_palette_index() as int;
            &&& entry == 0 <==> color == AnsiColor::Black
            &&& entry == 1 <==> color == AnsiColor::Maroon
            &&& entry == 2 <==> color == AnsiColor::Green
            &&& entry == 3 <==> color == AnsiColor::Olive
            &&& entry == 4 <==> color == AnsiColor::Navy
            &&& entry == 5 <==> color == AnsiColor::Purple
            &&& entry == 6 <==> color == AnsiColor::Teal
            &&& entry == 7 <==> color == AnsiColor::Silver
            &&& entry == 8 <==> color == AnsiColor::Grey
            &&& entry == 9 <==> color == AnsiColor::Red
            &&& entry == 10 <==> color == AnsiColor::Lime
            &&& entry == 11 <==> color == AnsiColor::Yellow
            &&& entry == 12 <==> color == AnsiColor::Blue
            &&& entry == 13 <==> color == AnsiColor::Fuschia
            &&& entry == 14 <==> color == AnsiColor::Aqua
            &&& entry == 15 <==> color == AnsiColor::White
            &&& 0 <= entry < 16
        }),
        <ColorAttribute as FromSpec<AnsiColor>>::from_spec(color) == ColorAttribute::PaletteIndex(
            color.spec_palette_index(),
        ),
{
}

} // verus!
