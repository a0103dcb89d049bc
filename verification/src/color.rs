//! Colours with fixed-point channels and their encoding as bytes.
use vstd::prelude::*;
use std::ops::{Add, AddAssign, Div, Mul};
use crate::fixed::{fits, product, product_spec, quot, quotient, quotient_spec, ONE};

verus! {

/// The mathematical colour that a [`Color`] stands for, in raw units.
pub struct Channels {
    pub r: int,
    pub g: int,
    pub b: int,
}

/// The byte that encodes one channel: the channel clamped to the interval
/// from zero to one, scaled to 255 and rounded down.
pub open spec fn byte_spec(c: int) -> int {
    if c <= 0 {
        0
    } else if c >= ONE {
        255
    } else {
        c * 255 / (ONE as int)
    }
}

impl Channels {
    /// Whether every channel can be held in a scalar.
    pub open spec fn fits(self) -> bool {
        fits(self.r) && fits(self.g) && fits(self.b)
    }

    /// Whether every channel lies between `low` and `high`.
    pub open spec fn between(self, low: int, high: int) -> bool {
        &&& low <= self.r <= high
        &&& low <= self.g <= high
        &&& low <= self.b <= high
    }

    /// Channelwise sum.
    pub open spec fn plus(self, rhs: Channels) -> Channels {
        Channels { r: self.r + rhs.r, g: self.g + rhs.g, b: self.b + rhs.b }
    }

    /// Every channel multiplied by the fixed-point scalar `s`.
    pub open spec fn scaled(self, s: int) -> Channels {
        Channels { r: quot(self.r * s, ONE as int), g: quot(self.g * s, ONE as int), b: quot(self.b * s, ONE as int) }
    }

    /// Every channel divided by the fixed-point scalar `s`.
    pub open spec fn divided(self, s: int) -> Channels {
        Channels { r: quot(self.r * ONE, s), g: quot(self.g * ONE, s), b: quot(self.b * ONE, s) }
    }

    /// The four bytes of the pixel: red, green, blue and an opaque alpha.
    pub open spec fn bytes(self) -> Seq<u8> {
        seq![byte_spec(self.r) as u8, byte_spec(self.g) as u8, byte_spec(self.b) as u8, 255u8]
    }
}

/// Black: every channel at zero.
pub open spec fn black_spec() -> Channels {
    Channels { r: 0, g: 0, b: 0 }
}

/// White: every channel at one.
pub open spec fn white_spec() -> Channels {
    Channels { r: ONE as int, g: ONE as int, b: ONE as int }
}

/// A colour of three fixed-point channels.
#[derive(Clone, Copy, Debug, PartialEq, Eq, Structural)]
pub struct Color {
    pub r: i64,
    pub g: i64,
    pub b: i64,
}

impl View for Color {
    type V = Channels;

    open spec fn view(&self) -> Channels {
        Channels { r: self.r as int, g: self.g as int, b: self.b as int }
    }
}

/// The byte that encodes one channel.
fn encode(c: i64) -> (b: u8)
    ensures
        b == byte_spec(c as int),
{
    if c <= 0 {
        0
    } else if c >= ONE {
        255
    } else {
        (c * 255 / 1_000_000) as u8
    }
}

impl Color {
    /// No light at all.
    pub fn black() -> (c: Color)
        ensures
            c@ == black_spec(),
    {
        Color { r: 0, g: 0, b: 0 }
    }

    /// Every channel at one.
    pub fn white() -> (c: Color)
        ensures
            c@ == white_spec(),
    {
        Color { r: ONE, g: ONE, b: ONE }
    }

    /// A colour from its three channels.
    pub fn new(r: i64, g: i64, b: i64) -> (c: Color)
        ensures
            c == (Color { r, g, b }),
    {
        Color { r, g, b }
    }

    /// The pixel as red, green, blue and alpha bytes; alpha is always opaque.
    pub fn into_u8(self) -> (out: [u8; 4])
        ensures
            out@ == self@.bytes(),
    {
        let out: [u8; 4] = [encode(self.r), encode(self.g), encode(self.b), 255];
        assert(out@ =~= self@.bytes());
        out
    }
}

impl Add<Color> for Color {
    type Output = Color;

    fn add(self, rhs: Color) -> (c: Color)
        ensures
            c@ == self@.plus(rhs@),
    {
        Color { r: self.r + rhs.r, g: self.g + rhs.g, b: self.b + rhs.b }
    }
}

impl vstd::std_specs::ops::AddSpecImpl<Color> for Color {
    open spec fn obeys_add_spec() -> bool {
        true
    }

    open spec fn add_req(self, rhs: Color) -> bool {
        self@.plus(rhs@).fits()
    }

    open spec fn add_spec(self, rhs: Color) -> Color {
        Color { r: (self.r + rhs.r) as i64, g: (self.g + rhs.g) as i64, b: (self.b + rhs.b) as i64 }
    }
}

impl AddAssign<Color> for Color {
    fn add_assign(&mut self, rhs: Color)
        requires
            old(self)@.plus(rhs@).fits(),
        ensures
            final(self)@ == old(self)@.plus(rhs@),
    {
        *self = *self + rhs;
    }
}

impl Mul<i64> for Color {
    type Output = Color;

    fn mul(self, arg: i64) -> (c: Color)
        ensures
            c@ == self@.scaled(arg as int),
    {
        Color { r: product(self.r, arg), g: product(self.g, arg), b: product(self.b, arg) }
    }
}

impl vstd::std_specs::ops::MulSpecImpl<i64> for Color {
    open spec fn obeys_mul_spec() -> bool {
        true
    }

    open spec fn mul_req(self, arg: i64) -> bool {
        self@.scaled(arg as int).fits()
    }

    open spec fn mul_spec(self, arg: i64) -> Color {
        Color {
            r: product_spec(self.r as int, arg as int) as i64,
            g: product_spec(self.g as int, arg as int) as i64,
            b: product_spec(self.b as int, arg as int) as i64,
        }
    }
}

impl Div<i64> for Color {
    type Output = Color;

    fn div(self, arg: i64) -> (c: Color)
        ensures
            c@ == self@.divided(arg as int),
    {
        Color { r: quotient(self.r, arg), g: quotient(self.g, arg), b: quotient(self.b, arg) }
    }
}

impl vstd::std_specs::ops::DivSpecImpl<i64> for Color {
    open spec fn obeys_div_spec() -> bool {
        true
    }

    open spec fn div_req(self, arg: i64) -> bool {
        arg != 0 && self@.divided(arg as int).fits()
    }

    open spec fn div_spec(self, arg: i64) -> Color {
        Color {
            r: quotient_spec(self.r as int, arg as int) as i64,
            g: quotient_spec(self.g as int, arg as int) as i64,
            b: quotient_spec(self.b as int, arg as int) as i64,
        }
    }
}

} // verus!
