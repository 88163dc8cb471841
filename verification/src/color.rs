//! Four-channel colors and the arithmetic of alpha compositing.
//!
//! Channels are 8-bit integers. A fraction in `[0, 1]` (an alpha value, a
//! layer opacity) is stored as a `u8` in units of 1/255, so that 255 stands
//! for 1.0 and every blend can be computed exactly in integers.

use vstd::prelude::*;

verus! {

/// An RGBA color with straight (non-premultiplied) alpha.
#[derive(Clone, Copy, Debug, PartialEq, Eq, Structural)]
pub struct Color {
    pub r: u8,
    pub g: u8,
    pub b: u8,
    pub a: u8,
}

/// `a * opacity / 255`, rounded to the nearest integer.
pub open spec fn scaled_alpha(a: u8, opacity: u8) -> u8 {
    ((a as int * opacity as int + 127) / 255) as u8
}

/// `a * base * (5 - step) / (255 * 5)`, rounded down: the alpha of a pixel
/// that is shown through `step` animation frames of distance, each of which
/// takes a fifth of the base opacity away.
pub open spec fn ghost_alpha(a: u8, base: u8, step: nat) -> u8 {
    if step >= 5 {
        0u8
    } else {
        ((a as int * base as int * (5 - step)) / 1275) as u8
    }
}

/// A pixel without alpha has none at any opacity.
pub proof fn scaled_alpha_of_nothing(opacity: u8)
    ensures
        scaled_alpha(0, opacity) == 0,
{
    assert(0 * opacity as int == 0) by (nonlinear_arith);
}

/// A pixel without alpha has none as a ghost either.
pub proof fn ghost_alpha_of_nothing(base: u8, step: nat)
    ensures
        ghost_alpha(0, base, step) == 0,
{
    if step < 5 {
        assert(0 * base as int * (5 - step) == 0) by (nonlinear_arith);
    }
}

/// Seven parts of `c` and three parts of `t`, rounded down.
pub open spec fn tint_channel(c: u8, t: u8) -> u8 {
    ((7 * c as int + 3 * t as int) / 10) as u8
}

/// The common denominator of the "over" operator, in units of 1/255²:
/// `fg_a + bg_a * (1 - fg_a)`.
pub open spec fn blend_weight(bg_a: u8, fg_a: u8) -> int {
    255 * fg_a as int + bg_a as int * (255 - fg_a as int)
}

/// One color channel of `fg` over `bg`:
/// `(f * fg_a + b * bg_a * (1 - fg_a)) / out_a`, rounded down.
pub open spec fn blend_channel(b: u8, f: u8, bg_a: u8, fg_a: u8) -> u8 {
    ((255 * fg_a as int * f as int + bg_a as int * (255 - fg_a as int) * b as int) / blend_weight(
        bg_a,
        fg_a,
    )) as u8
}

/// The alpha channel of `fg` over `bg`, rounded down.
pub open spec fn blend_alpha(bg_a: u8, fg_a: u8) -> u8 {
    (blend_weight(bg_a, fg_a) / 255) as u8
}

/// `fg` composited over `bg` with the non-premultiplied "over" operator. A
/// foreground without any alpha leaves the background as it is, whatever
/// its color channels hold.
pub open spec fn blend(bg: Color, fg: Color) -> Color {
    if fg.a == 0 {
        bg
    } else {
        Color {
            r: blend_channel(bg.r, fg.r, bg.a, fg.a),
            g: blend_channel(bg.g, fg.g, bg.a, fg.a),
            b: blend_channel(bg.b, fg.b, bg.a, fg.a),
            a: blend_alpha(bg.a, fg.a),
        }
    }
}

/// A product of bounded naturals is bounded by the product of the bounds.
pub proof fn product_bound(a: int, b: int, x: int, y: int)
    requires
        0 <= a <= x,
        0 <= b <= y,
    ensures
        0 <= a * b <= x * y,
{
    assert(0 <= a * b <= x * y) by (nonlinear_arith)
        requires
            0 <= a <= x,
            0 <= b <= y,
    ;
}

/// The quotient of the "over" operator stays within a channel.
pub proof fn blend_channel_bounds(b: u8, f: u8, bg_a: u8, fg_a: u8)
    requires
        fg_a > 0,
    ensures
        blend_weight(bg_a, fg_a) >= 255,
        blend_weight(bg_a, fg_a) <= 65025,
        0 <= (255 * fg_a as int * f as int + bg_a as int * (255 - fg_a as int) * b as int)
            / blend_weight(bg_a, fg_a) <= 255,
        1 <= blend_weight(bg_a, fg_a) / 255 <= 255,
{
    let fa = fg_a as int;
    let ba = bg_a as int;
    let w = blend_weight(bg_a, fg_a);
    let n = 255 * fa * f as int + ba * (255 - fa) * b as int;
    assert(ba * (255 - fa) >= 0) by (nonlinear_arith)
        requires
            ba >= 0,
            255 - fa >= 0,
    ;
    assert(ba * (255 - fa) <= 255 * (255 - fa)) by (nonlinear_arith)
        requires
            ba <= 255,
            255 - fa >= 0,
    ;
    assert(255 * fa * f as int <= 255 * fa * 255) by (nonlinear_arith)
        requires
            f <= 255,
            fa >= 0,
    ;
    assert(255 * fa * f as int >= 0) by (nonlinear_arith)
        requires
            f >= 0,
            fa >= 0,
    ;
    assert(ba * (255 - fa) * b as int <= ba * (255 - fa) * 255) by (nonlinear_arith)
        requires
            b <= 255,
            ba * (255 - fa) >= 0,
    ;
    assert(ba * (255 - fa) * b as int >= 0) by (nonlinear_arith)
        requires
            b >= 0,
            ba * (255 - fa) >= 0,
    ;
    assert(0 <= n <= 255 * w);
    assert(0 <= n / w <= 255) by (nonlinear_arith)
        requires
            0 <= n <= 255 * w,
            w > 0,
    ;
}

/// A foreground without alpha leaves any background unchanged.
pub proof fn blend_transparent_foreground(bg: Color, fg: Color)
    requires
        fg.a == 0,
    ensures
        blend(bg, fg) == bg,
{
}

/// A fully opaque foreground replaces any background.
pub proof fn blend_opaque_foreground(bg: Color, fg: Color)
    requires
        fg.a == 255,
    ensures
        blend(bg, fg) == fg,
{
    assert(blend_weight(bg.a, fg.a) == 65025);
    assert forall|f: u8, b: u8| #[trigger] blend_channel(b, f, bg.a, fg.a) == f by {
        assert(255 * 255 * f as int + bg.a as int * 0 * b as int == 65025 * f as int);
        assert((65025 * f as int) / 65025 == f as int);
    }
}

/// Over a background without alpha, the foreground shows as it is.
pub proof fn blend_over_nothing(bg: Color, fg: Color)
    requires
        bg.a == 0,
        fg.a > 0,
    ensures
        blend(bg, fg) == fg,
{
    let w = blend_weight(bg.a, fg.a);
    assert(w == 255 * fg.a);
    assert(w / 255 == fg.a as int);
    assert forall|f: u8, b: u8| #[trigger] blend_channel(b, f, bg.a, fg.a) == f by {
        assert(bg.a as int * (255 - fg.a as int) * b as int == 0) by (nonlinear_arith)
            requires
                bg.a == 0,
        ;
        assert(255 * fg.a as int * f as int == f as int * w) by (nonlinear_arith)
            requires
                w == 255 * fg.a,
        ;
        assert((f as int * w) / w == f as int) by (nonlinear_arith)
            requires
                w > 0,
        ;
    }
}

impl Color {
    /// Builds a color from its four channels.
    pub fn new(r: u8, g: u8, b: u8, a: u8) -> (c: Color)
        ensures
            c == (Color { r, g, b, a }),
    {
        Color { r, g, b, a }
    }

    /// The four channels as a tuple, in the order red, green, blue, alpha.
    pub fn to_rgba(&self) -> (t: (u8, u8, u8, u8))
        ensures
            t == (self.r, self.g, self.b, self.a),
    {
        (self.r, self.g, self.b, self.a)
    }

    /// No color at all: every channel zero.
    pub open spec fn spec_transparent() -> Color {
        Color { r: 0, g: 0, b: 0, a: 0 }
    }

    /// No color at all: every channel zero.
    #[verifier::when_used_as_spec(spec_transparent)]
    pub fn transparent() -> (c: Color)
        ensures
            c == Color::spec_transparent(),
    {
        Color { r: 0, g: 0, b: 0, a: 0 }
    }

    /// Opaque black.
    pub fn black() -> (c: Color)
        ensures
            c == (Color { r: 0, g: 0, b: 0, a: 255 }),
    {
        Color { r: 0, g: 0, b: 0, a: 255 }
    }

    /// Opaque white.
    pub fn white() -> (c: Color)
        ensures
            c == (Color { r: 255, g: 255, b: 255, a: 255 }),
    {
        Color { r: 255, g: 255, b: 255, a: 255 }
    }

    /// Opaque red.
    pub fn red() -> (c: Color)
        ensures
            c == (Color { r: 255, g: 0, b: 0, a: 255 }),
    {
        Color { r: 255, g: 0, b: 0, a: 255 }
    }

    /// Opaque green.
    pub fn green() -> (c: Color)
        ensures
            c == (Color { r: 0, g: 255, b: 0, a: 255 }),
    {
        Color { r: 0, g: 255, b: 0, a: 255 }
    }

    /// Opaque blue.
    pub fn blue() -> (c: Color)
        ensures
            c == (Color { r: 0, g: 0, b: 255, a: 255 }),
    {
        Color { r: 0, g: 0, b: 255, a: 255 }
    }

    /// This color with its alpha replaced.
    pub open spec fn spec_with_alpha(self, a: u8) -> Color {
        Color { r: self.r, g: self.g, b: self.b, a }
    }

    /// This color with its alpha replaced.
    #[verifier::when_used_as_spec(spec_with_alpha)]
    pub fn with_alpha(self, a: u8) -> (c: Color)
        ensures
            c == self.spec_with_alpha(a),
    {
        Color { r: self.r, g: self.g, b: self.b, a }
    }

    /// This color seen through a layer of the given opacity: the alpha is
    /// scaled and rounded to the nearest channel value.
    pub open spec fn spec_faded(self, opacity: u8) -> Color {
        self.spec_with_alpha(scaled_alpha(self.a, opacity))
    }

    /// This color seen through a layer of the given opacity.
    #[verifier::when_used_as_spec(spec_faded)]
    pub fn faded(self, opacity: u8) -> (c: Color)
        ensures
            c == self.spec_faded(opacity),
            opacity == 255 ==> c == self,
            c.a <= self.a,
    {
        proof {
            product_bound(self.a as int, opacity as int, 255, 255);
            product_bound(opacity as int, self.a as int, 255, self.a as int);
            assert(self.a as int * opacity as int == opacity as int * self.a as int)
                by (nonlinear_arith);
        }
        let n: u32 = self.a as u32 * opacity as u32;
        let a: u8 = ((n + 127) / 255) as u8;
        Color { r: self.r, g: self.g, b: self.b, a }
    }

    /// This color as an onion-skin ghost: each color channel mixed 7:3 with
    /// the tint, the alpha scaled by `base` less a fifth for every step.
    pub open spec fn spec_ghosted(self, tint: Color, base: u8, step: nat) -> Color {
        Color {
            r: tint_channel(self.r, tint.r),
            g: tint_channel(self.g, tint.g),
            b: tint_channel(self.b, tint.b),
            a: ghost_alpha(self.a, base, step),
        }
    }

    /// This color as an onion-skin ghost.
    pub fn ghosted(self, tint: Color, base: u8, step: usize) -> (c: Color)
        ensures
            c == self.spec_ghosted(tint, base, step as nat),
    {
        let a: u8 = if step >= 5 {
            0
        } else {
            let left: u32 = 5 - step as u32;
            proof {
                product_bound(self.a as int, base as int, 255, 255);
                product_bound(self.a as int * base as int, left as int, 65025, 5);
            }
            let ab: u32 = self.a as u32 * base as u32;
            let n: u32 = ab * left;
            (n / 1275) as u8
        };
        Color {
            r: ((7 * self.r as u32 + 3 * tint.r as u32) / 10) as u8,
            g: ((7 * self.g as u32 + 3 * tint.g as u32) / 10) as u8,
            b: ((7 * self.b as u32 + 3 * tint.b as u32) / 10) as u8,
            a,
        }
    }
}

/// One channel of the "over" operator, computed without leaving `u32`.
fn blend_one(b: u8, f: u8, bg_a: u8, fg_a: u8) -> (c: u8)
    requires
        fg_a > 0,
    ensures
        c == blend_channel(b, f, bg_a, fg_a),
{
    proof {
        blend_channel_bounds(b, f, bg_a, fg_a);
    }
    proof {
        product_bound(bg_a as int, 255 - fg_a as int, 255, 255);
        product_bound(255 * fg_a as int, f as int, 65025, 255);
        product_bound(bg_a as int * (255 - fg_a as int), b as int, 65025, 255);
    }
    let rest: u32 = bg_a as u32 * (255 - fg_a as u32);
    let front: u32 = 255 * fg_a as u32 * f as u32;
    let back: u32 = rest * b as u32;
    let weight: u32 = 255 * fg_a as u32 + rest;
    ((front + back) / weight) as u8
}

/// Composites `fg` over `bg` with the non-premultiplied "over" operator.
pub fn blend_colors(bg: Color, fg: Color) -> (out: Color)
    ensures
        out == blend(bg, fg),
        fg.a == 0 ==> out == bg,
        fg.a == 255 ==> out == fg,
        fg.a > 0 ==> out.a > 0,
{
    if fg.a == 0 {
        return bg;
    }
    proof {
        blend_channel_bounds(bg.r, fg.r, bg.a, fg.a);
        if fg.a == 255 {
            blend_opaque_foreground(bg, fg);
        }
    }
    proof {
        product_bound(bg.a as int, 255 - fg.a as int, 255, 255);
    }
    let weight: u32 = 255 * fg.a as u32 + bg.a as u32 * (255 - fg.a as u32);
    Color {
        r: blend_one(bg.r, fg.r, bg.a, fg.a),
        g: blend_one(bg.g, fg.g, bg.a, fg.a),
        b: blend_one(bg.b, fg.b, bg.a, fg.a),
        a: (weight / 255) as u8,
    }
}

/// An opaque color.
pub open spec fn opaque(r: u8, g: u8, b: u8) -> Color {
    Color { r, g, b, a: 255 }
}

/// The sixteen colors of the default palette.
pub open spec fn default_palette() -> Seq<Color> {
    seq![
        opaque(0, 0, 0),
        opaque(255, 255, 255),
        opaque(255, 0, 0),
        opaque(0, 255, 0),
        opaque(0, 0, 255),
        opaque(255, 255, 0),
        opaque(173, 216, 230),
        opaque(255, 165, 0),
        opaque(128, 0, 128),
        opaque(255, 192, 203),
        opaque(165, 42, 42),
        opaque(160, 160, 160),
        opaque(96, 96, 96),
        opaque(220, 220, 220),
        opaque(0, 128, 128),
        opaque(128, 128, 0),
    ]
}

/// The default palette: black, white, red, green, blue, yellow, light
/// blue, orange, purple, pink, brown, three grays, teal and olive.
pub fn get_default_palette() -> (palette: Vec<Color>)
    ensures
        palette@ == default_palette(),
{
    let mut palette: Vec<Color> = Vec::new();
    palette.push(Color::new(0, 0, 0, 255));
    palette.push(Color::new(255, 255, 255, 255));
    palette.push(Color::new(255, 0, 0, 255));
    palette.push(Color::new(0, 255, 0, 255));
    palette.push(Color::new(0, 0, 255, 255));
    palette.push(Color::new(255, 255, 0, 255));
    palette.push(Color::new(173, 216, 230, 255));
    palette.push(Color::new(255, 165, 0, 255));
    palette.push(Color::new(128, 0, 128, 255));
    palette.push(Color::new(255, 192, 203, 255));
    palette.push(Color::new(165, 42, 42, 255));
    palette.push(Color::new(160, 160, 160, 255));
    palette.push(Color::new(96, 96, 96, 255));
    palette.push(Color::new(220, 220, 220, 255));
    palette.push(Color::new(0, 128, 128, 255));
    palette.push(Color::new(128, 128, 0, 255));
    assert(palette@ =~= default_palette());
    palette
}

} // verus!
