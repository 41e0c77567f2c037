use vstd::prelude::*;
use vstd::arithmetic::div_mod::{
    lemma_div_multiples_vanish, lemma_fundamental_div_mod, lemma_mod_bound,
    lemma_multiply_divide_lt,
};

verus! {

use crate::color::{spec_tinted, tinted, Rgba};
use crate::framebuffer::{lemma_pixel_index, pixel_index, FrameBuffer};
use crate::geometry::{
    cos_mdeg, round_unscale, sin_mdeg, spec_cos_mdeg, spec_norm_mdeg, spec_rotate_x,
    spec_rotate_y, spec_sin_mdeg, TRIG_ONE,
};
use crate::raster::lemma_index_coords;
use crate::rect::Rect;
use crate::texture::Texture;

/// Clip `v` into the closed range `[lo, hi]`.
pub open spec fn spec_clip(v: int, lo: int, hi: int) -> int {
    if v < lo {
        lo
    } else if v > hi {
        hi
    } else {
        v
    }
}

/// The source region a blit reads, clipped to the texture extents:
/// `(x0, y0, width, height)`. Without a crop rectangle the whole texture
/// is read. The crop rectangle's rotation and fill flag are ignored; only
/// its position and size matter.
pub open spec fn spec_crop(tex: Texture, src: Option<Rect>) -> (int, int, int, int) {
    match src {
        None => (0, 0, tex.width as int, tex.height as int),
        Some(s) => {
            let cx0 = spec_clip(s.position.x as int, 0, tex.width as int);
            let cy0 = spec_clip(s.position.y as int, 0, tex.height as int);
            let cx1 = spec_clip(s.position.x + s.size.width, cx0, tex.width as int);
            let cy1 = spec_clip(s.position.y + s.size.height, cy0, tex.height as int);
            (cx0, cy0, cx1 - cx0, cy1 - cy0)
        },
    }
}

/// The texture pixel a destination pixel `(x, y)` samples, if any: the
/// pixel is rotated backward about the destination's center, tested
/// against the destination bounds, and mapped into the cropped source by
/// nearest neighbor.
pub open spec fn spec_blit_sample(tex: Texture, src: Option<Rect>, dest: Rect, x: int, y: int)
    -> Option<Rgba> {
    let m = dest.rotation.spec_millidegrees();
    let ux = spec_rotate_x(x, y, -m, dest.spec_center_x(), dest.spec_center_y());
    let uy = spec_rotate_y(x, y, -m, dest.spec_center_x(), dest.spec_center_y());
    if dest.spec_contains(ux, uy) {
        let crop = spec_crop(tex, src);
        if crop.2 > 0 && crop.3 > 0 {
            let rx = ux - dest.position.x;
            let ry = uy - dest.position.y;
            let sxx = crop.0 + (rx * crop.2) / (dest.size.width as int);
            let syy = crop.1 + (ry * crop.3) / (dest.size.height as int);
            Some(tex.spec_pixel(sxx, syy))
        } else {
            None
        }
    } else {
        None
    }
}

/// What a blit writes at the destination pixel `(x, y)`: the sampled
/// source pixel after the optional tint and alpha scale, or `None` when
/// the pixel is outside the destination footprint or the resulting alpha
/// is zero. A transparent source pixel never overwrites the background;
/// a pixel with any other alpha overwrites it outright. This deliberately
/// keeps the simple alpha-test rule rather than blending.
pub open spec fn spec_blit_pixel(
    tex: Texture,
    src: Option<Rect>,
    dest: Rect,
    tint: Option<Rgba>,
    alpha: Option<u8>,
    x: int,
    y: int,
) -> Option<Rgba> {
    match spec_blit_sample(tex, src, dest, x, y) {
        None => None,
        Some(px) => {
            let t = spec_tinted(px, tint, alpha);
            if t.alpha == 0 {
                None
            } else {
                Some(t)
            }
        },
    }
}

/// Blitting a texture, as a function on the buffer contents.
pub open spec fn spec_blit(
    p: Seq<Rgba>,
    w: int,
    tex: Texture,
    src: Option<Rect>,
    dest: Rect,
    tint: Option<Rgba>,
    alpha: Option<u8>,
) -> Seq<Rgba> {
    Seq::new(
        p.len(),
        |i: int|
            match spec_blit_pixel(tex, src, dest, tint, alpha, i % w, i / w) {
                Some(c) => c,
                None => p[i],
            },
    )
}

/// The crop bounds lie within the texture.
proof fn lemma_crop_in_tex(tex: Texture, src: Option<Rect>)
    ensures
        0 <= spec_crop(tex, src).0,
        0 <= spec_crop(tex, src).1,
        0 <= spec_crop(tex, src).2,
        0 <= spec_crop(tex, src).3,
        spec_crop(tex, src).0 + spec_crop(tex, src).2 <= tex.width,
        spec_crop(tex, src).1 + spec_crop(tex, src).3 <= tex.height,
{
}

/// The crop region, executed once per blit: `(x0, y0, width, height)`.
fn compute_crop(tex: &Texture, src: &Option<Rect>) -> (r: (i64, i64, i64, i64))
    requires
        tex.wf(),
    ensures
        (r.0 as int, r.1 as int, r.2 as int, r.3 as int) == spec_crop(*tex, *src),
{
    match src {
        None => (0, 0, tex.width as i64, tex.height as i64),
        Some(s) => {
            let tw = tex.width as i64;
            let th = tex.height as i64;
            let px = s.position.x as i64;
            let py = s.position.y as i64;
            let cx0: i64 = if px < 0 {
                0
            } else if px > tw {
                tw
            } else {
                px
            };
            let cy0: i64 = if py < 0 {
                0
            } else if py > th {
                th
            } else {
                py
            };
            let px1: i64 = px + (s.size.width as i64);
            let py1: i64 = py + (s.size.height as i64);
            let cx1: i64 = if px1 < cx0 {
                cx0
            } else if px1 > tw {
                tw
            } else {
                px1
            };
            let cy1: i64 = if py1 < cy0 {
                cy0
            } else if py1 > th {
                th
            } else {
                py1
            };
            (cx0, cy0, cx1 - cx0, cy1 - cy0)
        },
    }
}

/// One destination pixel of a blit, executed with the trigonometry and the
/// crop precomputed by the caller.
#[verifier::rlimit(30)]
fn blit_pixel_at(
    tex: &Texture,
    dest: &Rect,
    tint: Option<Rgba>,
    alpha: Option<u8>,
    x: i32,
    y: i32,
    s: i64,
    c: i64,
    cx: i32,
    cy: i32,
    crop: (i64, i64, i64, i64),
    Ghost(src): Ghost<Option<Rect>>,
) -> (r: Option<Rgba>)
    requires
        tex.wf(),
        s == spec_sin_mdeg(-dest.rotation.spec_millidegrees()),
        c == spec_cos_mdeg(-dest.rotation.spec_millidegrees()),
        -TRIG_ONE <= s <= TRIG_ONE,
        -TRIG_ONE <= c <= TRIG_ONE,
        cx == dest.spec_center_x(),
        cy == dest.spec_center_y(),
        (crop.0 as int, crop.1 as int, crop.2 as int, crop.3 as int) == spec_crop(*tex, src),
    ensures
        r == spec_blit_pixel(*tex, src, *dest, tint, alpha, x as int, y as int),
{
    let dx: i64 = (x as i64) - (cx as i64);
    let dy: i64 = (y as i64) - (cy as i64);
    proof {
        crate::geometry::lemma_rotate_products_bounded(c as int, s as int, dx as int, dy as int);
        lemma_crop_in_tex(*tex, src);
    }
    let vx: i128 = (c as i128) * (dx as i128) - (s as i128) * (dy as i128);
    let vy: i128 = (s as i128) * (dx as i128) + (c as i128) * (dy as i128);
    let ux: i64 = (cx as i64) + round_unscale(vx);
    let uy: i64 = (cy as i64) + round_unscale(vy);
    let x0 = dest.position.x as i64;
    let y0 = dest.position.y as i64;
    let dw = dest.size.width as i64;
    let dh = dest.size.height as i64;
    if !(x0 <= ux && ux < x0 + dw && y0 <= uy && uy < y0 + dh) {
        return None;
    }
    if !(crop.2 > 0 && crop.3 > 0) {
        return None;
    }
    let rx: u64 = (ux - x0) as u64;
    let ry: u64 = (uy - y0) as u64;
    proof {
        assert((rx as int) * (crop.2 as int) < dw * (crop.2 as int)) by (nonlinear_arith)
            requires
                0 <= rx < dw,
                crop.2 > 0,
        ;
        lemma_multiply_divide_lt((rx as int) * (crop.2 as int), dw as int, crop.2 as int);
        assert(dw as int * (crop.2 as int) == (crop.2 as int) * (dw as int)) by (nonlinear_arith);
        lemma_fundamental_div_mod((rx as int) * (crop.2 as int), dw as int);
        lemma_mod_bound((rx as int) * (crop.2 as int), dw as int);
        assert((ry as int) * (crop.3 as int) < dh * (crop.3 as int)) by (nonlinear_arith)
            requires
                0 <= ry < dh,
                crop.3 > 0,
        ;
        lemma_multiply_divide_lt((ry as int) * (crop.3 as int), dh as int, crop.3 as int);
        assert(dh as int * (crop.3 as int) == (crop.3 as int) * (dh as int)) by (nonlinear_arith);
        lemma_fundamental_div_mod((ry as int) * (crop.3 as int), dh as int);
        lemma_mod_bound((ry as int) * (crop.3 as int), dh as int);
    }
    proof {
        assert((rx as int) * (crop.2 as int) <= 0xffff_ffff * 0x7fff_ffff) by (nonlinear_arith)
            requires
                0 <= rx <= 0xffff_ffff,
                0 <= crop.2 <= 0x7fff_ffff,
        ;
        assert((ry as int) * (crop.3 as int) <= 0xffff_ffff * 0x7fff_ffff) by (nonlinear_arith)
            requires
                0 <= ry <= 0xffff_ffff,
                0 <= crop.3 <= 0x7fff_ffff,
        ;
        assert(0 <= (rx as int) * (crop.2 as int) / (dw as int)) by (nonlinear_arith)
            requires
                (rx as int) * (crop.2 as int) == (dw as int) * ((rx as int) * (crop.2 as int) / (
                dw as int)) + (rx as int) * (crop.2 as int) % (dw as int),
                0 <= (rx as int) * (crop.2 as int) % (dw as int) < dw,
                0 <= (rx as int) * (crop.2 as int),
                dw > 0,
        ;
        assert(0 <= (ry as int) * (crop.3 as int) / (dh as int)) by (nonlinear_arith)
            requires
                (ry as int) * (crop.3 as int) == (dh as int) * ((ry as int) * (crop.3 as int) / (
                dh as int)) + (ry as int) * (crop.3 as int) % (dh as int),
                0 <= (ry as int) * (crop.3 as int) % (dh as int) < dh,
                0 <= (ry as int) * (crop.3 as int),
                dh > 0,
        ;
    }
    let sxx: i64 = crop.0 + (((rx * (crop.2 as u64)) / (dw as u64)) as i64);
    let syy: i64 = crop.1 + (((ry * (crop.3 as u64)) / (dh as u64)) as i64);
    let n: usize = tex.pixels.len();
    proof {
        lemma_pixel_index(tex.width as int, tex.height as int, sxx as int, syy as int);
    }
    let idx: usize = ((syy as u64) * (tex.width as u64) + (sxx as u64)) as usize;
    let px = tex.pixels[idx];
    let t = tinted(px, tint, alpha);
    if t.alpha == 0 {
        None
    } else {
        Some(t)
    }
}

/// Copy the cropped source region of the texture into the destination
/// rectangle of the frame buffer: nearest-neighbor scaling to the
/// destination extents, rotation about the destination's center, optional
/// color and alpha tint. Transparent source pixels leave the background;
/// destination pixels outside the buffer are silently clipped.
pub fn blit(
    fb: &mut FrameBuffer,
    tex: &Texture,
    src: Option<Rect>,
    dest: &Rect,
    tint: Option<Rgba>,
    alpha: Option<u8>,
)
    requires
        old(fb).wf(),
        tex.wf(),
    ensures
        final(fb).wf(),
        final(fb).spec_width() == old(fb).spec_width(),
        final(fb).spec_height() == old(fb).spec_height(),
        final(fb)@ == spec_blit(old(fb)@, old(fb).spec_width(), *tex, src, *dest, tint, alpha),
{
    let w: u32 = fb.width();
    let h: u32 = fb.height();
    let m: i64 = dest.rotation.to_millidegrees();
    let s: i64 = sin_mdeg(-m);
    let c: i64 = cos_mdeg(-m);
    let ctr = dest.center();
    let crop = compute_crop(tex, &src);
    let ghost p0 = fb@;
    let ghost wi = fb.spec_width();
    let mut y: u32 = 0;
    while y < h
        invariant
            fb.wf(),
            fb.spec_width() == w,
            fb.spec_height() == h,
            wi == w as int,
            fb@.len() == p0.len(),
            p0.len() == wi * h,
            y <= h,
            w <= i32::MAX,
            h <= i32::MAX,
            tex.wf(),
            s == spec_sin_mdeg(-dest.rotation.spec_millidegrees()),
            c == spec_cos_mdeg(-dest.rotation.spec_millidegrees()),
            -TRIG_ONE <= s <= TRIG_ONE,
            -TRIG_ONE <= c <= TRIG_ONE,
            ctr.x == dest.spec_center_x(),
            ctr.y == dest.spec_center_y(),
            (crop.0 as int, crop.1 as int, crop.2 as int, crop.3 as int) == spec_crop(*tex, src),
            forall|i: int|
                0 <= i < p0.len() ==> fb@[i] == (if i < y * wi {
                    match spec_blit_pixel(*tex, src, *dest, tint, alpha, i % wi, i / wi) {
                        Some(cc) => cc,
                        None => p0[i],
                    }
                } else {
                    p0[i]
                }),
        decreases h - y,
    {
        let mut x: u32 = 0;
        while x < w
            invariant
                fb.wf(),
                fb.spec_width() == w,
                fb.spec_height() == h,
                wi == w as int,
                fb@.len() == p0.len(),
                p0.len() == wi * h,
                y < h,
                x <= w,
                w <= i32::MAX,
                h <= i32::MAX,
                tex.wf(),
                s == spec_sin_mdeg(-dest.rotation.spec_millidegrees()),
                c == spec_cos_mdeg(-dest.rotation.spec_millidegrees()),
                -TRIG_ONE <= s <= TRIG_ONE,
                -TRIG_ONE <= c <= TRIG_ONE,
                ctr.x == dest.spec_center_x(),
                ctr.y == dest.spec_center_y(),
                (crop.0 as int, crop.1 as int, crop.2 as int, crop.3 as int) == spec_crop(
                    *tex,
                    src,
                ),
                forall|i: int|
                    0 <= i < p0.len() ==> fb@[i] == (if i < y * wi + x {
                        match spec_blit_pixel(*tex, src, *dest, tint, alpha, i % wi, i / wi) {
                            Some(cc) => cc,
                            None => p0[i],
                        }
                    } else {
                        p0[i]
                    }),
            decreases w - x,
        {
            let out = blit_pixel_at(
                tex,
                dest,
                tint,
                alpha,
                x as i32,
                y as i32,
                s,
                c,
                ctr.x,
                ctr.y,
                crop,
                Ghost(src),
            );
            proof {
                lemma_pixel_index(wi, h as int, x as int, y as int);
            }
            match out {
                Some(px) => {
                    fb.set_pixel(x as i32, y as i32, px);
                },
                None => {},
            }
            x = x + 1;
        }
        proof {
            assert(y * wi + w == (y + 1) * wi) by (nonlinear_arith)
                requires
                    wi == w as int,
            ;
        }
        y = y + 1;
    }
    proof {
        assert forall|i: int| 0 <= i < p0.len() implies fb@[i] == spec_blit(
            p0,
            wi,
            *tex,
            src,
            *dest,
            tint,
            alpha,
        )[i] by {
            assert(wi > 0) by (nonlinear_arith)
                requires
                    0 <= i < wi * (h as int),
                    wi >= 0,
            ;
            lemma_index_coords(wi, h as int, i);
            assert(i < h as int * wi) by (nonlinear_arith)
                requires
                    0 <= i < wi * (h as int),
            ;
        }
        assert(fb@ =~= spec_blit(p0, wi, *tex, src, *dest, tint, alpha));
    }
}

/// Law: blitting a texture with no crop, a destination of the texture's
/// native extents and no rotation or tint reproduces the texture at the
/// destination offset exactly, except where the source alpha is zero,
/// which leaves the background pixel.
pub proof fn lemma_blit_reproduces_texture(
    p: Seq<Rgba>,
    w: int,
    h: int,
    tex: Texture,
    dest: Rect,
    tx: int,
    ty: int,
)
    requires
        p.len() == w * h,
        tex.wf(),
        dest.size.width == tex.width,
        dest.size.height == tex.height,
        spec_norm_mdeg(dest.rotation.spec_millidegrees()) == 0,
        0 <= tx < tex.width,
        0 <= ty < tex.height,
        0 <= dest.position.x + tx < w,
        0 <= dest.position.y + ty < h,
    ensures
        spec_blit(p, w, tex, None, dest, None, None)[pixel_index(
            w,
            dest.position.x + tx,
            dest.position.y + ty,
        )] == (if tex.spec_pixel(tx, ty).alpha == 0 {
            p[pixel_index(w, dest.position.x + tx, dest.position.y + ty)]
        } else {
            tex.spec_pixel(tx, ty)
        }),
{
    let x = dest.position.x + tx;
    let y = dest.position.y + ty;
    lemma_pixel_index(w, h, x, y);
    let m = dest.rotation.spec_millidegrees();
    crate::geometry::lemma_norm_neg(m);
    crate::geometry::lemma_rotate_quarter_turn(x, y, -m, dest.spec_center_x(), dest.spec_center_y());
    assert(dest.spec_contains(x, y));
    assert(spec_crop(tex, None) == (0int, 0int, tex.width as int, tex.height as int));
    lemma_div_multiples_vanish(tx, tex.width as int);
    assert(tx * (tex.width as int) == (tex.width as int) * tx) by (nonlinear_arith);
    lemma_div_multiples_vanish(ty, tex.height as int);
    assert(ty * (tex.height as int) == (tex.height as int) * ty) by (nonlinear_arith);
}

} // verus!
