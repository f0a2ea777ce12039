//! Stroke colors as plain RGBA bytes.
//!
//! The engine keeps colors as four 8-bit channels. CSS color strings are
//! understood by the `csscolorparser` crate; the engine only ever reads
//! the parsed color back as RGBA bytes, so that is what it stores.

use vstd::prelude::*;

verus! {

/// A color as red, green, blue and alpha channels in `0..=255`.
#[derive(Clone, Copy, PartialEq, Eq, Structural, Debug)]
pub struct Rgba {
    pub r: u8,
    pub g: u8,
    pub b: u8,
    pub a: u8,
}

/// The RGBA bytes that the `csscolorparser` crate reads out of a CSS color
/// string, or `None` where the bytes are not a CSS color.
pub uninterp spec fn css_rgba_of(s: Seq<u8>) -> Option<Rgba>;

/// Relies on `csscolorparser::parse` and `Color::to_rgba8`: the parse is a
/// pure function of the string, and `to_rgba8` reads the color's four
/// channels back as bytes.
#[verifier::external_body]
pub fn parse_css_color(s: &[u8]) -> (r: Option<Rgba>)
    ensures
        r == css_rgba_of(s@),
{
    match core::str::from_utf8(s) {
        Ok(text) => match csscolorparser::parse(text) {
            Ok(color) => {
                let [r, g, b, a] = color.to_rgba8();
                Some(Rgba { r, g, b, a })
            },
            Err(_) => None,
        },
        Err(_) => None,
    }
}

/// One channel premultiplied by the alpha channel: `c * a / 255`,
/// rounding down.
pub open spec fn spec_premultiply_channel(c: u8, a: u8) -> u8 {
    ((c * a) / 255) as u8
}

/// The color with its red, green and blue channels premultiplied by its
/// alpha channel; the alpha channel itself is unchanged.
pub open spec fn spec_premultiplied(c: Rgba) -> Rgba {
    Rgba {
        r: spec_premultiply_channel(c.r, c.a),
        g: spec_premultiply_channel(c.g, c.a),
        b: spec_premultiply_channel(c.b, c.a),
        a: c.a,
    }
}

impl Rgba {
    /// This color premultiplied by its own alpha channel, as a compositor
    /// with premultiplied-alpha blending expects it.
    pub fn premultiplied(self) -> (r: Rgba)
        ensures
            r == spec_premultiplied(self),
    {
        Rgba {
            r: premultiply_channel(self.r, self.a),
            g: premultiply_channel(self.g, self.a),
            b: premultiply_channel(self.b, self.a),
            a: self.a,
        }
    }
}

fn premultiply_channel(c: u8, a: u8) -> (r: u8)
    ensures
        r == spec_premultiply_channel(c, a),
{
    proof {
        assert(c as int * a as int <= 255 * 255) by (nonlinear_arith)
            requires
                c <= 255 && a <= 255,
        ;
    }
    ((c as u16 * a as u16) / 255) as u8
}

/// The byte of the ASCII lowercase hexadecimal digit for `n`.
pub open spec fn spec_hex_digit(n: int) -> u8 {
    if n < 10 {
        (48 + n) as u8
    } else {
        (87 + n) as u8
    }
}

/// `#rrggbbaa`: the CSS hex form of a color, in lowercase ASCII bytes.
pub open spec fn spec_css_hex(c: Rgba) -> Seq<u8> {
    seq![
        35u8,
        spec_hex_digit(c.r as int / 16),
        spec_hex_digit(c.r as int % 16),
        spec_hex_digit(c.g as int / 16),
        spec_hex_digit(c.g as int % 16),
        spec_hex_digit(c.b as int / 16),
        spec_hex_digit(c.b as int % 16),
        spec_hex_digit(c.a as int / 16),
        spec_hex_digit(c.a as int % 16),
    ]
}

fn hex_digit(n: u8) -> (r: u8)
    requires
        n < 16,
    ensures
        r == spec_hex_digit(n as int),
{
    if n < 10 {
        48 + n
    } else {
        87 + n
    }
}

impl Rgba {
    /// The `#rrggbbaa` CSS hex form of this color, as ASCII bytes.
    pub fn to_css_hex(&self) -> (r: Vec<u8>)
        ensures
            r@ == spec_css_hex(*self),
    {
        let mut v: Vec<u8> = Vec::new();
        v.push(35);
        v.push(hex_digit(self.r / 16));
        v.push(hex_digit(self.r % 16));
        v.push(hex_digit(self.g / 16));
        v.push(hex_digit(self.g % 16));
        v.push(hex_digit(self.b / 16));
        v.push(hex_digit(self.b % 16));
        v.push(hex_digit(self.a / 16));
        v.push(hex_digit(self.a % 16));
        proof {
            assert(v@ =~= spec_css_hex(*self));
        }
        v
    }
}

} // verus!
