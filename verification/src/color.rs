//! Colours with four channels of eight bits each.

use vstd::prelude::*;

verus! {

/// A colour: red, green, blue and alpha, each from 0 to 255.
#[derive(Debug, Clone, Copy)]
pub struct Color {
    r: u8,
    g: u8,
    b: u8,
    a: u8,
}

/// The 32-bit number that holds the four channels, red in the highest
/// byte, then green, then blue, and alpha in the lowest byte.
pub open spec fn packed(r: u8, g: u8, b: u8, a: u8) -> u32 {
    ((r as u32) << 24) | ((g as u32) << 16) | ((b as u32) << 8) | (a as u32)
}

impl Color {
    pub closed spec fn spec_alpha(&self) -> u8 {
        self.a
    }

    pub closed spec fn spec_red(&self) -> u8 {
        self.r
    }

    pub closed spec fn spec_green(&self) -> u8 {
        self.g
    }

    pub closed spec fn spec_blue(&self) -> u8 {
        self.b
    }

    /// The 32-bit number that holds the four channels of the colour.
    pub open spec fn spec_value(self) -> u32 {
        packed(self.spec_red(), self.spec_green(), self.spec_blue(), self.spec_alpha())
    }

    /// The colour whose channels are the four bytes of `val`: red in the
    /// highest byte, then green, then blue, and alpha in the lowest.
    pub fn new_hex(val: u32) -> (c: Self)
        ensures
            c.spec_red() == (val >> 24) & 0xff,
            c.spec_green() == (val >> 16) & 0xff,
            c.spec_blue() == (val >> 8) & 0xff,
            c.spec_alpha() == val & 0xff,
            c.spec_value() == val,
    {
        assert((val >> 16) & 0xff <= 0xff) by (bit_vector);
        assert((val >> 8) & 0xff <= 0xff) by (bit_vector);
        assert(val & 0xff <= 0xff) by (bit_vector);
        assert(val >> 24 <= 0xff && (val >> 24) & 0xff == val >> 24) by (bit_vector);
        let g = ((val >> 16) & 0xff) as u8;
        let b = ((val >> 8) & 0xff) as u8;
        let a = (val & 0xff) as u8;
        let r = (val >> 24) as u8;
        assert(packed(r, g, b, a) == val) by (bit_vector)
            requires
                r == (val >> 24) & 0xff,
                g == (val >> 16) & 0xff,
                b == (val >> 8) & 0xff,
                a == val & 0xff,
        ;
        Color { r, g, b, a }
    }

    pub fn new_argb(a: u8, r: u8, g: u8, b: u8) -> (c: Self)
        ensures
            c.spec_alpha() == a,
            c.spec_red() == r,
            c.spec_green() == g,
            c.spec_blue() == b,
    {
        Color { a, r, g, b }
    }

    #[verifier::when_used_as_spec(spec_alpha)]
    pub fn alpha(&self) -> (v: u8)
        ensures
            v == self.spec_alpha(),
    {
        self.a
    }

    #[verifier::when_used_as_spec(spec_red)]
    pub fn red(&self) -> (v: u8)
        ensures
            v == self.spec_red(),
    {
        self.r
    }

    #[verifier::when_used_as_spec(spec_green)]
    pub fn green(&self) -> (v: u8)
        ensures
            v == self.spec_green(),
    {
        self.g
    }

    #[verifier::when_used_as_spec(spec_blue)]
    pub fn blue(&self) -> (v: u8)
        ensures
            v == self.spec_blue(),
    {
        self.b
    }

    pub fn with_alpha(self, alpha: u8) -> (c: Self)
        ensures
            c.alpha() == alpha,
            c.red() == self.red(),
            c.green() == self.green(),
            c.blue() == self.blue(),
    {
        let mut c = self;
        c.a = alpha;
        c
    }

    pub fn with_red(self, red: u8) -> (c: Self)
        ensures
            c.alpha() == self.alpha(),
            c.red() == red,
            c.green() == self.green(),
            c.blue() == self.blue(),
    {
        let mut c = self;
        c.r = red;
        c
    }

    pub fn with_green(self, green: u8) -> (c: Self)
        ensures
            c.alpha() == self.alpha(),
            c.red() == self.red(),
            c.green() == green,
            c.blue() == self.blue(),
    {
        let mut c = self;
        c.g = green;
        c
    }

    pub fn with_blue(self, blue: u8) -> (c: Self)
        ensures
            c.alpha() == self.alpha(),
            c.red() == self.red(),
            c.green() == self.green(),
            c.blue() == blue,
    {
        let mut c = self;
        c.b = blue;
        c
    }

    /// The 32-bit number that holds the four channels of the colour.
    #[verifier::when_used_as_spec(spec_value)]
    pub fn value(self) -> (v: u32)
        ensures
            v == self.spec_value(),
    {
        ((self.r as u32) << 24) | ((self.g as u32) << 16) | ((self.b as u32) << 8) | (
        self.a as u32)
    }
}

/// A colour is determined by its 32-bit number: building a colour from
/// the number of another gives the same channels.
pub proof fn lemma_value_roundtrip(c: Color)
    ensures
        (c.value() >> 24) & 0xff == c.red(),
        (c.value() >> 16) & 0xff == c.green(),
        (c.value() >> 8) & 0xff == c.blue(),
        c.value() & 0xff == c.alpha(),
{
    let r = c.red();
    let g = c.green();
    let b = c.blue();
    let a = c.alpha();
    assert((packed(r, g, b, a) >> 24) & 0xff == r && (packed(r, g, b, a) >> 16) & 0xff == g && (
    packed(r, g, b, a) >> 8) & 0xff == b && packed(r, g, b, a) & 0xff == a) by (bit_vector);
}

} // verus!
