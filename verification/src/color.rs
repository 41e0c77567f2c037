use vstd::prelude::*;
use vstd::arithmetic::div_mod::{lemma_fundamental_div_mod, lemma_mod_bound};

verus! {

/// An RGBA color with one byte per channel. Alpha 0 is fully transparent,
/// 255 fully opaque.
#[derive(Clone, Copy, Debug, PartialEq, Eq, Structural)]
pub struct Rgba {
    pub red: u8,
    pub green: u8,
    pub blue: u8,
    pub alpha: u8,
}

impl Rgba {
    pub fn new(red: u8, green: u8, blue: u8, alpha: u8) -> (r: Rgba)
        ensures
            r == (Rgba { red, green, blue, alpha }),
    {
        Rgba { red, green, blue, alpha }
    }

    /// The color as the four bytes a frame buffer stores, in RGBA order.
    pub fn as_raw(&self) -> (r: [u8; 4])
        ensures
            r@ == seq![self.red, self.green, self.blue, self.alpha],
    {
        let r = [self.red, self.green, self.blue, self.alpha];
        proof {
            assert(r@ =~= seq![self.red, self.green, self.blue, self.alpha]);
        }
        r
    }
}

impl From<[u8; 4]> for Rgba {
    fn from(raw: [u8; 4]) -> (r: Rgba) {
        Rgba { red: raw[0], green: raw[1], blue: raw[2], alpha: raw[3] }
    }
}

impl vstd::std_specs::convert::FromSpecImpl<[u8; 4]> for Rgba {
    open spec fn obeys_from_spec() -> bool {
        true
    }

    open spec fn from_spec(raw: [u8; 4]) -> Rgba {
        Rgba { red: raw[0], green: raw[1], blue: raw[2], alpha: raw[3] }
    }
}

/// Scale a channel by a ratio given as a byte, `c * t / 255`, so that a
/// ratio of 255 keeps the channel and a ratio of 0 clears it.
pub open spec fn spec_scale_channel(c: int, t: int) -> int {
    (c * t) / 255
}

pub fn scale_channel(c: u8, t: u8) -> (r: u8)
    ensures
        r == spec_scale_channel(c as int, t as int),
{
    proof {
        let p = (c as int) * (t as int);
        assert(0 <= p <= 65025) by (nonlinear_arith)
            requires
                0 <= c <= 255,
                0 <= t <= 255,
                p == (c as int) * (t as int),
        ;
        lemma_fundamental_div_mod(p, 255);
        lemma_mod_bound(p, 255);
        assert(0 <= p / 255 <= 255) by (nonlinear_arith)
            requires
                p == 255 * (p / 255) + p % 255,
                0 <= p % 255 < 255,
                0 <= p <= 65025,
        ;
    }
    (((c as u32) * (t as u32)) / 255) as u8
}

/// The color a blit writes after the optional color tint and alpha scale:
/// the tint multiplies each color channel by its own channel's ratio, and
/// the alpha factor scales the alpha channel.
pub open spec fn spec_tinted(c: Rgba, tint: Option<Rgba>, alpha: Option<u8>) -> Rgba {
    let t = match tint {
        Some(t) => Rgba {
            red: spec_scale_channel(c.red as int, t.red as int) as u8,
            green: spec_scale_channel(c.green as int, t.green as int) as u8,
            blue: spec_scale_channel(c.blue as int, t.blue as int) as u8,
            alpha: c.alpha,
        },
        None => c,
    };
    match alpha {
        Some(a) => Rgba { alpha: spec_scale_channel(t.alpha as int, a as int) as u8, ..t },
        None => t,
    }
}

pub fn tinted(c: Rgba, tint: Option<Rgba>, alpha: Option<u8>) -> (r: Rgba)
    ensures
        r == spec_tinted(c, tint, alpha),
{
    proof {
        lemma_scale_channel_in_range(c.red as int, 255);
    }
    let t = match tint {
        Some(t) => Rgba {
            red: scale_channel(c.red, t.red),
            green: scale_channel(c.green, t.green),
            blue: scale_channel(c.blue, t.blue),
            alpha: c.alpha,
        },
        None => c,
    };
    match alpha {
        Some(a) => Rgba { alpha: scale_channel(t.alpha, a), ..t },
        None => t,
    }
}

/// Scaling a byte channel stays within a byte.
pub proof fn lemma_scale_channel_in_range(c: int, t: int)
    requires
        0 <= c <= 255,
        0 <= t <= 255,
    ensures
        0 <= spec_scale_channel(c, t) <= 255,
{
    let p = c * t;
    assert(0 <= p <= 65025) by (nonlinear_arith)
        requires
            0 <= c <= 255,
            0 <= t <= 255,
            p == c * t,
    ;
    lemma_fundamental_div_mod(p, 255);
    lemma_mod_bound(p, 255);
    assert(0 <= p / 255 <= 255) by (nonlinear_arith)
        requires
            p == 255 * (p / 255) + p % 255,
            0 <= p % 255 < 255,
            0 <= p <= 65025,
    ;
}

} // verus!
