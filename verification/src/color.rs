//! Colour samples and the palette the renderer draws with.

use vstd::prelude::*;

verus! {

/// One colour sample: red, green, blue and opacity.
#[derive(Clone, Copy, Debug, PartialEq, Eq, Structural)]
pub struct Color {
    pub r: u8,
    pub g: u8,
    pub b: u8,
    pub a: u8,
}

impl Color {
    pub open spec fn spec_new(r: u8, g: u8, b: u8, a: u8) -> Color {
        Color { r, g, b, a }
    }

    #[verifier::when_used_as_spec(spec_new)]
    pub fn new(r: u8, g: u8, b: u8, a: u8) -> (c: Color)
        ensures
            c == Color::spec_new(r, g, b, a),
    {
        Color { r, g, b, a }
    }

    pub open spec fn spec_white() -> Color {
        Color::spec_new(255, 255, 255, 255)
    }

    #[verifier::when_used_as_spec(spec_white)]
    pub fn white() -> (c: Color)
        ensures
            c == Color::spec_white(),
    {
        Color::new(255, 255, 255, 255)
    }

    pub open spec fn spec_black() -> Color {
        Color::spec_new(0, 0, 0, 255)
    }

    #[verifier::when_used_as_spec(spec_black)]
    pub fn black() -> (c: Color)
        ensures
            c == Color::spec_black(),
    {
        Color::new(0, 0, 0, 255)
    }

    pub open spec fn spec_white_smoke() -> Color {
        Color::spec_new(245, 245, 245, 255)
    }

    #[verifier::when_used_as_spec(spec_white_smoke)]
    pub fn white_smoke() -> (c: Color)
        ensures
            c == Color::spec_white_smoke(),
    {
        Color::new(245, 245, 245, 255)
    }

    pub open spec fn spec_red() -> Color {
        Color::spec_new(255, 0, 0, 255)
    }

    #[verifier::when_used_as_spec(spec_red)]
    pub fn red() -> (c: Color)
        ensures
            c == Color::spec_red(),
    {
        Color::new(255, 0, 0, 255)
    }

    pub open spec fn spec_blue() -> Color {
        Color::spec_new(0, 0, 255, 255)
    }

    #[verifier::when_used_as_spec(spec_blue)]
    pub fn blue() -> (c: Color)
        ensures
            c == Color::spec_blue(),
    {
        Color::new(0, 0, 255, 255)
    }

    pub open spec fn spec_gray() -> Color {
        Color::spec_new(128, 128, 128, 255)
    }

    #[verifier::when_used_as_spec(spec_gray)]
    pub fn gray() -> (c: Color)
        ensures
            c == Color::spec_gray(),
    {
        Color::new(128, 128, 128, 255)
    }

    pub open spec fn spec_dark_gray() -> Color {
        Color::spec_new(169, 169, 169, 255)
    }

    #[verifier::when_used_as_spec(spec_dark_gray)]
    pub fn dark_gray() -> (c: Color)
        ensures
            c == Color::spec_dark_gray(),
    {
        Color::new(169, 169, 169, 255)
    }

    pub open spec fn spec_gold() -> Color {
        Color::spec_new(255, 215, 0, 255)
    }

    #[verifier::when_used_as_spec(spec_gold)]
    pub fn gold() -> (c: Color)
        ensures
            c == Color::spec_gold(),
    {
        Color::new(255, 215, 0, 255)
    }
}

} // verus!
