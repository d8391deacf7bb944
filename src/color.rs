//! Pixels and their HSL lightness.
use colors_transform::Color;
use vstd::prelude::*;
use vstd::relations::total_ordering;

verus! {

/// An 8-bit-per-channel RGB pixel.
#[derive(Clone, Copy, Debug, PartialEq, Eq, Structural)]
pub struct Rgb {
    pub r: u8,
    pub g: u8,
    pub b: u8,
}

/// The largest of three channels.
pub open spec fn max3(a: u8, b: u8, c: u8) -> int {
    if a >= b && a >= c {
        a as int
    } else if b >= c {
        b as int
    } else {
        c as int
    }
}

/// The smallest of three channels.
pub open spec fn min3(a: u8, b: u8, c: u8) -> int {
    if a <= b && a <= c {
        a as int
    } else if b <= c {
        b as int
    } else {
        c as int
    }
}

/// The HSL lightness of `c`, scaled by 510: lightness is
/// `(max + min) / 2` of the channels taken as fractions of 255.
pub open spec fn lightness_key(c: Rgb) -> int {
    max3(c.r, c.g, c.b) + min3(c.r, c.g, c.b)
}

/// The order in which pixels are laid out in a palette: by lightness, and
/// pixels of equal lightness by red, then green, then blue.
pub open spec fn rgb_leq(a: Rgb, b: Rgb) -> bool {
    if lightness_key(a) != lightness_key(b) {
        lightness_key(a) < lightness_key(b)
    } else if a.r != b.r {
        a.r < b.r
    } else if a.g != b.g {
        a.g < b.g
    } else {
        a.b <= b.b
    }
}

/// `rgb_leq` as a relation, for sorting.
pub open spec fn lightness_leq() -> spec_fn(Rgb, Rgb) -> bool {
    |a: Rgb, b: Rgb| rgb_leq(a, b)
}

/// The palette order is a total order: reflexive, antisymmetric, transitive
/// and total.
pub proof fn lemma_lightness_leq_total()
    ensures
        total_ordering(lightness_leq()),
{
    assert forall|a: Rgb, b: Rgb|
        #[trigger] lightness_leq()(a, b) && #[trigger] lightness_leq()(b, a) implies a == b by {
    }
}

/// What converting `c` to HSL and back to RGB gives, each channel truncated
/// to an integer.
pub uninterp spec fn hsl_round_trip_of(c: Rgb) -> Rgb;

impl Rgb {
    /// The lightness of this pixel, scaled by 510 (0 for black, 510 for white).
    pub fn lightness(&self) -> (r: u16)
        ensures
            r as int == lightness_key(*self),
    {
        let hi = if self.r >= self.g && self.r >= self.b {
            self.r
        } else if self.g >= self.b {
            self.g
        } else {
            self.b
        };
        let lo = if self.r <= self.g && self.r <= self.b {
            self.r
        } else if self.g <= self.b {
            self.g
        } else {
            self.b
        };
        hi as u16 + lo as u16
    }

    /// The key that orders pixels as `rgb_leq` does, compared as a tuple.
    pub fn order_key(&self) -> (k: (u16, u8, u8, u8))
        ensures
            k.0 as int == lightness_key(*self),
            k.1 == self.r,
            k.2 == self.g,
            k.3 == self.b,
    {
        (self.lightness(), self.r, self.g, self.b)
    }
}

/// Relies on colors_transform's `Rgb::to_hsl` and `Hsl::to_rgb`: converts
/// the pixel to HSL and back; each channel that comes back is truncated to
/// an integer, as `as u8` does. The result depends on the pixel alone.
#[verifier::external_body]
pub(crate) fn hsl_round_trip(c: Rgb) -> (r: Rgb)
    ensures
        r == hsl_round_trip_of(c),
{
    let hsl = colors_transform::Rgb::from(c.r.into(), c.g.into(), c.b.into()).to_hsl();
    let back = hsl.to_rgb();
    Rgb { r: back.get_red() as u8, g: back.get_green() as u8, b: back.get_blue() as u8 }
}

} // verus!
