//! 8-bit RGBA color with alpha compositing.

use vstd::prelude::*;

verus! {

/// An RGBA color with four 8-bit channels. An alpha of 0 means fully
/// transparent, 255 fully opaque.
#[derive(Copy, Clone, Debug, PartialEq, Eq, Structural)]
pub struct RGBA {
    pub r: u8,
    pub g: u8,
    pub b: u8,
    pub a: u8,
}

impl RGBA {
    /// Creates a new RGBA color.
    pub fn new(r: u8, g: u8, b: u8, a: u8) -> (c: RGBA)
        ensures
            c == (RGBA { r, g, b, a }),
    {
        RGBA { r, g, b, a }
    }

    /// A color is transparent exactly when its alpha channel is 0; a
    /// transparent fill color means "no fill".
    pub fn is_transparent(&self) -> (t: bool)
        ensures
            t == (self.a == 0),
    {
        self.a == 0
    }
}

impl Default for RGBA {
    /// The default color is black with alpha 0.
    fn default() -> (c: RGBA)
        ensures
            c == (RGBA { r: 0, g: 0, b: 0, a: 0 }),
    {
        RGBA { r: 0, g: 0, b: 0, a: 0 }
    }
}

/// One channel of the compositing rule: the source channel weighted by
/// its alpha plus the destination channel weighted by the remainder.
pub open spec fn mix_channel(new: u8, old: u8, alpha: u8) -> int {
    (new * alpha + old * (255 - alpha)) / 255
}

/// The color obtained by compositing `new` over `old`: each channel is
/// interpolated by `new`'s alpha and the output alpha is forced to 255.
/// When `new` is fully opaque this reduces to `new` itself.
pub open spec fn mix_spec(new: RGBA, old: RGBA) -> RGBA {
    RGBA {
        r: mix_channel(new.r, old.r, new.a) as u8,
        g: mix_channel(new.g, old.g, new.a) as u8,
        b: mix_channel(new.b, old.b, new.a) as u8,
        a: 255,
    }
}

/// Composites the color `new` over the color `old` using `new`'s alpha
/// channel as the interpolation weight.
pub fn mix_colors(new: RGBA, old: RGBA) -> (c: RGBA)
    ensures
        c == mix_spec(new, old),
{
    let al: u32 = new.a as u32;
    let rest: u32 = 255 - al;
    proof {
        assert(forall|p: u32, q: u32| p <= 255 && q <= 255 ==> #[trigger] (p * q) <= 65025)
            by (nonlinear_arith);
        lemma_mix_channel_bounded(new.r, old.r, new.a);
        lemma_mix_channel_bounded(new.g, old.g, new.a);
        lemma_mix_channel_bounded(new.b, old.b, new.a);
    }
    let r: u32 = (new.r as u32 * al + old.r as u32 * rest) / 255;
    let g: u32 = (new.g as u32 * al + old.g as u32 * rest) / 255;
    let b: u32 = (new.b as u32 * al + old.b as u32 * rest) / 255;
    RGBA { r: r as u8, g: g as u8, b: b as u8, a: 255 }
}

/// A composited channel stays within the 8-bit range.
proof fn lemma_mix_channel_bounded(new: u8, old: u8, alpha: u8)
    ensures
        0 <= mix_channel(new, old, alpha) <= 255,
{
    assert(new * alpha <= 255 * alpha) by (nonlinear_arith)
        requires
            new <= 255,
            alpha >= 0,
    ;
    assert(old * (255 - alpha) <= 255 * (255 - alpha)) by (nonlinear_arith)
        requires
            old <= 255,
            alpha <= 255,
    ;
    assert(new * alpha >= 0) by (nonlinear_arith)
        requires
            new >= 0,
            alpha >= 0,
    ;
    assert(old * (255 - alpha) >= 0) by (nonlinear_arith)
        requires
            old >= 0,
            alpha <= 255,
    ;
}

/// Builds an RGBA color from its four channels.
pub fn rgba(r: u8, g: u8, b: u8, a: u8) -> (c: RGBA)
    ensures
        c == (RGBA { r, g, b, a }),
{
    RGBA { r, g, b, a }
}

/// Tells whether a color is fully transparent.
pub fn is_transparent(color: RGBA) -> (t: bool)
    ensures
        t == (color.a == 0),
{
    color.a == 0
}

} // verus!
