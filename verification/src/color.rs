//! Pen colours.

use vstd::prelude::*;

verus! {

/// A colour as the drawing surface stores it: red, green and blue already
/// multiplied by the opacity, and the opacity itself.
#[derive(Clone, Copy, Debug, PartialEq, Eq, Structural)]
pub struct Color {
    pub r: u8,
    pub g: u8,
    pub b: u8,
    pub a: u8,
}

/// The stored channels of the colour that `egui` makes of four channels
/// given without premultiplied opacity.
pub uninterp spec fn premultiplied(r: u8, g: u8, b: u8, a: u8) -> (u8, u8, u8, u8);

/// Calls `egui::Color32::from_rgba_unmultiplied` and reads the four stored
/// channels of the colour it returns. The channels are a function of the
/// arguments, named [`premultiplied`]. Of that function the contract states
/// what the source shows directly: the opacity is stored as given, a fully
/// opaque colour keeps its channels, and a fully transparent one has none.
#[verifier::external_body]
pub(crate) fn from_unmultiplied(r: u8, g: u8, b: u8, a: u8) -> (c: Color)
    ensures
        (c.r, c.g, c.b, c.a) == premultiplied(r, g, b, a),
        c.a == a,
        a == 255 ==> c.r == r && c.g == g && c.b == b,
        a == 0 ==> c.r == 0 && c.g == 0 && c.b == 0,
{
    let c = egui::Color32::from_rgba_unmultiplied(r, g, b, a);
    Color { r: c.r(), g: c.g(), b: c.b(), a: c.a() }
}

impl Color {
    /// Opaque black, the pen colour of a new turtle.
    pub fn black() -> (c: Color)
        ensures
            c == (Color { r: 0, g: 0, b: 0, a: 255 }),
    {
        Color { r: 0, g: 0, b: 0, a: 255 }
    }
}

} // verus!
