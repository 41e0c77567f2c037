use vstd::prelude::*;
use vstd::arithmetic::div_mod::{lemma_fundamental_div_mod, lemma_mod_bound};

verus! {

use crate::color::Rgba;
use crate::framebuffer::{lemma_pixel_index, pixel_index, FrameBuffer};
use crate::geometry::{
    clamp_i32, cos_mdeg, rotate_point, round_unscale, sin_mdeg, spec_clamp_i32, spec_norm_mdeg,
    spec_rotate_point, spec_rotate_x, spec_rotate_y, TRIG_ONE,
};
use crate::rect::Rect;
use crate::Vec2;

/// Whether the pixel `(x, y)` lies inside the rotated footprint of `r`:
/// the pixel is rotated by the negated angle about the rectangle's center
/// (sampling backward from the destination into the unrotated shape) and
/// tested against the unrotated bounds.
pub open spec fn spec_rect_covers(r: Rect, x: int, y: int) -> bool {
    let m = r.rotation.spec_millidegrees();
    let ux = spec_rotate_x(x, y, -m, r.spec_center_x(), r.spec_center_y());
    let uy = spec_rotate_y(x, y, -m, r.spec_center_x(), r.spec_center_y());
    r.spec_contains(ux, uy)
}

/// Filling a rectangle, as a function on the buffer contents: every pixel
/// in the rotated footprint takes the color, every other pixel is kept.
pub open spec fn spec_fill_rect(p: Seq<Rgba>, w: int, r: Rect, c: Rgba) -> Seq<Rgba> {
    Seq::new(p.len(), |i: int| if spec_rect_covers(r, i % w, i / w) { c } else { p[i] })
}

/// For an index within a `w` by `h` row-major buffer, the recovered
/// coordinates lie within the extents.
pub proof fn lemma_index_coords(w: int, h: int, i: int)
    requires
        w > 0,
        0 <= i < w * h,
    ensures
        0 <= i % w < w,
        0 <= i / w < h,
{
    lemma_fundamental_div_mod(i, w);
    lemma_mod_bound(i, w);
    assert(0 <= i / w < h) by (nonlinear_arith)
        requires
            i == w * (i / w) + i % w,
            0 <= i % w < w,
            0 <= i < w * h,
            w > 0,
    ;
}

/// The inverse-rotation test of `spec_rect_covers`, executed with the
/// sine and cosine values computed once by the caller.
fn rect_covers_with(r: &Rect, x: i32, y: i32, s: i64, c: i64, cx: i32, cy: i32) -> (b: bool)
    requires
        s == crate::geometry::spec_sin_mdeg(-r.rotation.spec_millidegrees()),
        c == crate::geometry::spec_cos_mdeg(-r.rotation.spec_millidegrees()),
        -TRIG_ONE <= s <= TRIG_ONE,
        -TRIG_ONE <= c <= TRIG_ONE,
        cx == r.spec_center_x(),
        cy == r.spec_center_y(),
    ensures
        b == spec_rect_covers(*r, x as int, y as int),
{
    let dx: i64 = (x as i64) - (cx as i64);
    let dy: i64 = (y as i64) - (cy as i64);
    proof {
        crate::geometry::lemma_rotate_products_bounded(c as int, s as int, dx as int, dy as int);
    }
    let vx: i128 = (c as i128) * (dx as i128) - (s as i128) * (dy as i128);
    let vy: i128 = (s as i128) * (dx as i128) + (c as i128) * (dy as i128);
    let ux: i64 = (cx as i64) + round_unscale(vx);
    let uy: i64 = (cy as i64) + round_unscale(vy);
    let x0 = r.position.x as i64;
    let y0 = r.position.y as i64;
    x0 <= ux && ux < x0 + (r.size.width as i64) && y0 <= uy && uy < y0 + (r.size.height as i64)
}

/// Fill the (optionally rotated) rectangle with the color. Pixels outside
/// the frame buffer are silently clipped; nothing else changes.
pub fn fill_rect(fb: &mut FrameBuffer, rect: &Rect, color: Rgba)
    requires
        old(fb).wf(),
    ensures
        final(fb).wf(),
        final(fb).spec_width() == old(fb).spec_width(),
        final(fb).spec_height() == old(fb).spec_height(),
        final(fb)@ == spec_fill_rect(old(fb)@, old(fb).spec_width(), *rect, color),
    {
    let w: u32 = fb.width();
    let h: u32 = fb.height();
    let m: i64 = rect.rotation.to_millidegrees();
    let s: i64 = sin_mdeg(-m);
    let c: i64 = cos_mdeg(-m);
    let ctr = rect.center();
    let ghost p0 = fb@;
    let ghost wi = fb.spec_width();
    let mut y: u32 = 0;
    while y < h
        invariant
            fb.wf(),
            fb.spec_width() == w,
            fb.spec_height() == h,
            wi == w as int,
            fb@.len() == p0.len(),
            p0.len() == wi * h,
            y <= h,
            w <= i32::MAX,
            h <= i32::MAX,
            s == crate::geometry::spec_sin_mdeg(-rect.rotation.spec_millidegrees()),
            c == crate::geometry::spec_cos_mdeg(-rect.rotation.spec_millidegrees()),
            -TRIG_ONE <= s <= TRIG_ONE,
            -TRIG_ONE <= c <= TRIG_ONE,
            ctr.x == rect.spec_center_x(),
            ctr.y == rect.spec_center_y(),
            forall|i: int|
                0 <= i < p0.len() ==> fb@[i] == (if i < y * wi && spec_rect_covers(
                    *rect,
                    i % wi,
                    i / wi,
                ) {
                    color
                } else {
                    p0[i]
                }),
        decreases h - y,
    {
        let mut x: u32 = 0;
        while x < w
            invariant
                fb.wf(),
                fb.spec_width() == w,
                fb.spec_height() == h,
                wi == w as int,
                fb@.len() == p0.len(),
                p0.len() == wi * h,
                y < h,
                x <= w,
                w <= i32::MAX,
                h <= i32::MAX,
                s == crate::geometry::spec_sin_mdeg(-rect.rotation.spec_millidegrees()),
                c == crate::geometry::spec_cos_mdeg(-rect.rotation.spec_millidegrees()),
                -TRIG_ONE <= s <= TRIG_ONE,
                -TRIG_ONE <= c <= TRIG_ONE,
                ctr.x == rect.spec_center_x(),
                ctr.y == rect.spec_center_y(),
                forall|i: int|
                    0 <= i < p0.len() ==> fb@[i] == (if i < y * wi + x && spec_rect_covers(
                        *rect,
                        i % wi,
                        i / wi,
                    ) {
                        color
                    } else {
                        p0[i]
                    }),
            decreases w - x,
        {
            let covered = rect_covers_with(rect, x as i32, y as i32, s, c, ctr.x, ctr.y);
            proof {
                lemma_pixel_index(wi, h as int, x as int, y as int);
            }
            if covered {
                fb.set_pixel(x as i32, y as i32, color);
            }
            x = x + 1;
        }
        proof {
            assert(y * wi + w == (y + 1) * wi) by (nonlinear_arith)
                requires
                    wi == w as int,
            ;
        }
        y = y + 1;
    }
    proof {
        assert forall|i: int| 0 <= i < p0.len() implies fb@[i] == spec_fill_rect(
            p0,
            wi,
            *rect,
            color,
        )[i] by {
            assert(wi > 0) by (nonlinear_arith)
                requires
                    0 <= i < wi * (h as int),
                    wi >= 0,
            ;
            lemma_index_coords(wi, h as int, i);
            assert(i < h as int * wi) by (nonlinear_arith)
                requires
                    0 <= i < wi * (h as int),
            ;
        }
        assert(fb@ =~= spec_fill_rect(p0, wi, *rect, color));
    }
}

/// One pixel of a Bresenham walk after another: starting from `(x, y)` the
/// walk steps toward `(x1, y1)`, moving along x when twice the error
/// exceeds `-dx` and along y when twice the error is below `dy`, until the
/// end point is reached (the end point itself is drawn) or the fuel runs
/// out. `dx` and `dy` are the absolute coordinate distances of the whole
/// segment; `sx` and `sy` the step directions.
pub open spec fn spec_walk(
    x: int,
    y: int,
    x1: int,
    y1: int,
    dx: int,
    dy: int,
    sx: int,
    sy: int,
    err: int,
    fuel: nat,
) -> Seq<(int, int)>
    decreases fuel,
{
    if x == x1 && y == y1 {
        seq![(x, y)]
    } else if fuel == 0 {
        seq![(x, y)]
    } else {
        let e2 = 2 * err;
        let x2 = if e2 > -dx {
            x + sx
        } else {
            x
        };
        let e3 = if e2 > -dx {
            err - dy
        } else {
            err
        };
        let y2 = if e2 < dy {
            y + sy
        } else {
            y
        };
        let e4 = if e2 < dy {
            e3 + dx
        } else {
            e3
        };
        seq![(x, y)] + spec_walk(x2, y2, x1, y1, dx, dy, sx, sy, e4, (fuel - 1) as nat)
    }
}

/// The error term the walk starts from, given the whole segment's
/// absolute distances.
pub open spec fn spec_line_err0(dx: int, dy: int) -> int {
    if dx > dy {
        dx / 2
    } else {
        -(dy / 2)
    }
}

/// The pixels of the line from `(x0, y0)` to `(x1, y1)`, in visiting order:
/// the Bresenham walk with the error seeded from the driving axis and
/// enough fuel to reach the end point.
pub open spec fn spec_line_points(x0: int, y0: int, x1: int, y1: int) -> Seq<(int, int)> {
    let dx = if x1 >= x0 {
        x1 - x0
    } else {
        x0 - x1
    };
    let dy = if y1 >= y0 {
        y1 - y0
    } else {
        y0 - y1
    };
    let sx: int = if x0 < x1 {
        1
    } else {
        -1
    };
    let sy: int = if y0 < y1 {
        1
    } else {
        -1
    };
    spec_walk(x0, y0, x1, y1, dx, dy, sx, sy, spec_line_err0(dx, dy), (dx + dy + 1) as nat)
}

/// Whether the line from `(x0, y0)` to `(x1, y1)` visits the pixel `(x, y)`.
pub open spec fn spec_line_contains(x0: int, y0: int, x1: int, y1: int, x: int, y: int) -> bool {
    spec_line_points(x0, y0, x1, y1).contains((x, y))
}

/// Drawing a line, as a function on the buffer contents: every pixel the
/// walk visits takes the color, every other pixel is kept.
pub open spec fn spec_draw_line(
    p: Seq<Rgba>,
    w: int,
    x0: int,
    y0: int,
    x1: int,
    y1: int,
    c: Rgba,
) -> Seq<Rgba> {
    Seq::new(
        p.len(),
        |i: int|
            if spec_line_contains(x0, y0, x1, y1, i % w, i / w) {
                c
            } else {
                p[i]
            },
    )
}

/// Whether one of the first `k` entries of `pts` is the pixel `(x, y)`.
pub open spec fn spec_hit_before(pts: Seq<(int, int)>, k: int, x: int, y: int) -> bool {
    exists|j: int| 0 <= j < k && pts[j] == (x, y)
}

/// Draw the segment from `start` to `end` with an integer Bresenham walk.
/// Every visited pixel inside the buffer is set to the color; pixels
/// outside are silently skipped.
pub fn draw_line(fb: &mut FrameBuffer, start: Vec2, end: Vec2, color: Rgba)
    requires
        old(fb).wf(),
    ensures
        final(fb).wf(),
        final(fb).spec_width() == old(fb).spec_width(),
        final(fb).spec_height() == old(fb).spec_height(),
        final(fb)@ == spec_draw_line(
            old(fb)@,
            old(fb).spec_width(),
            start.x as int,
            start.y as int,
            end.x as int,
            end.y as int,
            color,
        ),
{
    let w: u32 = fb.width();
    let h: u32 = fb.height();
    let ghost p0 = fb@;
    let ghost wi = fb.spec_width();
    let ghost hi = fb.spec_height();
    let x1: i64 = end.x as i64;
    let y1: i64 = end.y as i64;
    let mut x: i64 = start.x as i64;
    let mut y: i64 = start.y as i64;
    let dx: i64 = if x1 >= x {
        x1 - x
    } else {
        x - x1
    };
    let dy: i64 = if y1 >= y {
        y1 - y
    } else {
        y - y1
    };
    let sx: i64 = if x < x1 {
        1
    } else {
        -1
    };
    let sy: i64 = if y < y1 {
        1
    } else {
        -1
    };
    proof {
        lemma_fundamental_div_mod(dx as int, 2);
        lemma_mod_bound(dx as int, 2);
        lemma_fundamental_div_mod(dy as int, 2);
        lemma_mod_bound(dy as int, 2);
    }
    let mut err: i64 = if dx > dy {
        (dx as u64 / 2) as i64
    } else {
        -((dy as u64 / 2) as i64)
    };
    let n0: u64 = (dx as u64) + (dy as u64) + 1;
    let mut fuel: u64 = n0;
    let ghost points = spec_line_points(start.x as int, start.y as int, end.x as int, end.y as int);
    let ghost mut k: int = 0;
    proof {
        assert(points.skip(0) =~= points);
    }
    loop
        invariant_except_break
            fb.wf(),
            fb.spec_width() == wi,
            fb.spec_height() == hi,
            wi == w as int,
            hi == h as int,
            fb@.len() == p0.len(),
            p0.len() == wi * hi,
            w <= i32::MAX,
            h <= i32::MAX,
            0 <= dx <= 0x1_0000_0000,
            0 <= dy <= 0x1_0000_0000,
            sx == 1 || sx == -1,
            sy == 1 || sy == -1,
            -0x1_0000_0001 <= x1 <= 0x1_0000_0001,
            -0x1_0000_0001 <= y1 <= 0x1_0000_0001,
            -0x1_0000_0001 - ((n0 - fuel) as int) <= x <= 0x1_0000_0001 + ((n0 - fuel) as int),
            -0x1_0000_0001 - ((n0 - fuel) as int) <= y <= 0x1_0000_0001 + ((n0 - fuel) as int),
            -(dx + dy) <= err <= dx + dy,
            fuel <= n0,
            n0 == dx + dy + 1,
            0 <= k <= points.len(),
            points.skip(k) == spec_walk(
                x as int,
                y as int,
                x1 as int,
                y1 as int,
                dx as int,
                dy as int,
                sx as int,
                sy as int,
                err as int,
                fuel as nat,
            ),
            forall|i: int|
                0 <= i < p0.len() ==> fb@[i] == (if spec_hit_before(points, k, i % wi, i / wi) {
                    color
                } else {
                    p0[i]
                }),
        ensures
            fb.wf(),
            fb.spec_width() == wi,
            fb.spec_height() == hi,
            fb@.len() == p0.len(),
            forall|i: int|
                0 <= i < p0.len() ==> fb@[i] == (if spec_hit_before(
                    points,
                    points.len() as int,
                    i % wi,
                    i / wi,
                ) {
                    color
                } else {
                    p0[i]
                }),
        decreases fuel,
    {
        let ghost kold = k;
        let ghost fbpre = fb@;
        let ghost walk_cur = spec_walk(
            x as int,
            y as int,
            x1 as int,
            y1 as int,
            dx as int,
            dy as int,
            sx as int,
            sy as int,
            err as int,
            fuel as nat,
        );
        proof {
            assert(walk_cur[0] == (x as int, y as int));
            assert(walk_cur.len() >= 1);
            assert(points.skip(kold).len() == points.len() - kold);
            assert(kold < points.len());
            assert(points.skip(kold)[0] == points[kold]);
            assert(points[kold] == (x as int, y as int));
        }
        if x >= i32::MIN as i64 && x <= i32::MAX as i64 && y >= i32::MIN as i64 && y
            <= i32::MAX as i64 {
            fb.set_pixel(x as i32, y as i32, color);
        }
        proof {
            k = kold + 1;
            assert forall|i: int| 0 <= i < p0.len() implies fb@[i] == (if spec_hit_before(
                points,
                k,
                i % wi,
                i / wi,
            ) {
                color
            } else {
                p0[i]
            }) by {
                assert(wi > 0) by (nonlinear_arith)
                    requires
                        0 <= i < wi * hi,
                        wi >= 0,
                ;
                lemma_index_coords(wi, hi, i);
                lemma_fundamental_div_mod(i, wi);
                let cxi = i % wi;
                let cyi = i / wi;
                if spec_hit_before(points, kold, cxi, cyi) {
                    let j = choose|j: int| 0 <= j < kold && points[j] == (cxi, cyi);
                    assert(0 <= j < k && points[j] == (cxi, cyi));
                    assert(spec_hit_before(points, k, cxi, cyi));
                }
                if cxi == x as int && cyi == y as int {
                    lemma_pixel_index(wi, hi, cxi, cyi);
                    assert(i == wi * cyi + cxi);
                    assert(wi * cyi == cyi * wi) by (nonlinear_arith);
                    assert(i == pixel_index(wi, cxi, cyi));
                    assert(points[kold] == (cxi, cyi));
                    assert(spec_hit_before(points, k, cxi, cyi));
                    assert(fb@[i] == color);
                } else {
                    if spec_hit_before(points, k, cxi, cyi) {
                        let j = choose|j: int| 0 <= j < k && points[j] == (cxi, cyi);
                        assert(j != kold);
                        assert(spec_hit_before(points, kold, cxi, cyi));
                    }
                    if 0 <= x < wi && 0 <= y < hi {
                        lemma_pixel_index(wi, hi, x as int, y as int);
                        assert(i == wi * cyi + cxi);
                        assert(wi * cyi == cyi * wi) by (nonlinear_arith);
                        assert(i == pixel_index(wi, cxi, cyi));
                        assert(i != pixel_index(wi, x as int, y as int));
                    }
                    assert(fb@[i] == fbpre[i]);
                }
            }
        }
        if x == x1 && y == y1 {
            proof {
                assert(walk_cur =~= seq![(x as int, y as int)]);
                assert(points.skip(kold).len() == 1);
                assert(k == points.len());
            }
            break ;
        }
        if fuel == 0 {
            proof {
                assert(walk_cur =~= seq![(x as int, y as int)]);
                assert(points.skip(kold).len() == 1);
                assert(k == points.len());
            }
            break ;
        }
        fuel = fuel - 1;
        let e2: i64 = 2 * err;
        let ghost xo = x as int;
        let ghost yo = y as int;
        let ghost erro = err as int;
        if e2 > -dx {
            err = err - dy;
            x = x + sx;
        }
        if e2 < dy {
            err = err + dx;
            y = y + sy;
        }
        proof {
            let walk_next = spec_walk(
                x as int,
                y as int,
                x1 as int,
                y1 as int,
                dx as int,
                dy as int,
                sx as int,
                sy as int,
                err as int,
                fuel as nat,
            );
            assert(walk_cur == seq![(xo, yo)] + walk_next);
            assert(points.skip(k) =~= walk_next) by {
                assert(points.skip(kold).len() == 1 + walk_next.len());
                assert forall|j: int| 0 <= j < walk_next.len() implies points.skip(k)[j]
                    == walk_next[j] by {
                    assert(points.skip(kold)[j + 1] == walk_next[j]);
                    assert(points.skip(kold)[j + 1] == points[kold + j + 1]);
                    assert(points.skip(k)[j] == points[k + j]);
                }
            }
        }
    }
    proof {
        assert forall|i: int| 0 <= i < p0.len() implies fb@[i] == spec_draw_line(
            p0,
            wi,
            start.x as int,
            start.y as int,
            end.x as int,
            end.y as int,
            color,
        )[i] by {
            assert(wi > 0) by (nonlinear_arith)
                requires
                    0 <= i < wi * hi,
                    wi >= 0,
            ;
            lemma_index_coords(wi, hi, i);
            assert(i < hi * wi) by (nonlinear_arith)
                requires
                    0 <= i < wi * hi,
            ;
            let cxi = i % wi;
            let cyi = i / wi;
            assert(spec_hit_before(points, points.len() as int, cxi, cyi) == points.contains(
                (cxi, cyi),
            ));
        }
        assert(fb@ =~= spec_draw_line(
            p0,
            wi,
            start.x as int,
            start.y as int,
            end.x as int,
            end.y as int,
            color,
        ));
    }
}

/// Outlining a rectangle, as a function on the buffer contents: the four
/// corners of the unrotated rectangle are rotated about its center and the
/// four connecting segments are drawn in order: top-left to bottom-left to
/// bottom-right to top-right and back.
pub open spec fn spec_outline_rect(p: Seq<Rgba>, w: int, r: Rect, c: Rgba) -> Seq<Rgba> {
    let m = r.rotation.spec_millidegrees();
    let ctr = (r.spec_center_x(), r.spec_center_y());
    let x0 = r.position.x as int;
    let y0 = r.position.y as int;
    let xw = spec_clamp_i32(x0 + r.size.width);
    let yh = spec_clamp_i32(y0 + r.size.height);
    let tl = spec_rotate_point((x0, y0), m, ctr);
    let bl = spec_rotate_point((x0, yh), m, ctr);
    let br = spec_rotate_point((xw, yh), m, ctr);
    let tr = spec_rotate_point((xw, y0), m, ctr);
    let s1 = spec_draw_line(p, w, tl.0, tl.1, bl.0, bl.1, c);
    let s2 = spec_draw_line(s1, w, bl.0, bl.1, br.0, br.1, c);
    let s3 = spec_draw_line(s2, w, br.0, br.1, tr.0, tr.1, c);
    spec_draw_line(s3, w, tr.0, tr.1, tl.0, tl.1, c)
}

/// Draw the rectangle's outline: its four corners, rotated about its
/// center, joined by four Bresenham segments.
pub fn outline_rect(fb: &mut FrameBuffer, rect: &Rect, color: Rgba)
    requires
        old(fb).wf(),
    ensures
        final(fb).wf(),
        final(fb).spec_width() == old(fb).spec_width(),
        final(fb).spec_height() == old(fb).spec_height(),
        final(fb)@ == spec_outline_rect(old(fb)@, old(fb).spec_width(), *rect, color),
{
    let ctr = rect.center();
    let x0 = rect.position.x;
    let y0 = rect.position.y;
    let xw: i32 = clamp_i32((x0 as i64) + (rect.size.width as i64));
    let yh: i32 = clamp_i32((y0 as i64) + (rect.size.height as i64));
    let tl = rotate_point(Vec2 { x: x0, y: y0 }, rect.rotation, ctr);
    let bl = rotate_point(Vec2 { x: x0, y: yh }, rect.rotation, ctr);
    let br = rotate_point(Vec2 { x: xw, y: yh }, rect.rotation, ctr);
    let tr = rotate_point(Vec2 { x: xw, y: y0 }, rect.rotation, ctr);
    draw_line(fb, tl, bl, color);
    draw_line(fb, bl, br, color);
    draw_line(fb, br, tr, color);
    draw_line(fb, tr, tl, color);
}

/// With an unrotated rectangle the footprint test reduces to the plain
/// bounds test: the backward rotation is the identity.
pub proof fn lemma_axis_aligned_covers(r: Rect, x: int, y: int)
    requires
        spec_norm_mdeg(r.rotation.spec_millidegrees()) == 0,
    ensures
        spec_rect_covers(r, x, y) == r.spec_contains(x, y),
{
    let m = r.rotation.spec_millidegrees();
    crate::geometry::lemma_norm_neg(m);
    crate::geometry::lemma_rotate_quarter_turn(x, y, -m, r.spec_center_x(), r.spec_center_y());
}

/// Law: filling an unrotated rectangle colors exactly the pixels of the
/// half-open box `[x0, x0 + w) x [y0, y0 + h)` that lie inside the buffer,
/// each with the requested color, and leaves every other pixel unchanged.
pub proof fn lemma_fill_rect_unrotated(p: Seq<Rgba>, w: int, h: int, r: Rect, c: Rgba)
    requires
        p.len() == w * h,
        spec_norm_mdeg(r.rotation.spec_millidegrees()) == 0,
    ensures
        forall|x: int, y: int|
            0 <= x < w && 0 <= y < h && r.spec_contains(x, y) ==> spec_fill_rect(p, w, r, c)[
                pixel_index(w, x, y)
            ] == c,
        forall|x: int, y: int|
            0 <= x < w && 0 <= y < h && !r.spec_contains(x, y) ==> spec_fill_rect(p, w, r, c)[
                pixel_index(w, x, y)
            ] == p[pixel_index(w, x, y)],
{
    assert forall|x: int, y: int| 0 <= x < w && 0 <= y < h implies spec_fill_rect(p, w, r, c)[
        pixel_index(w, x, y)
    ] == (if r.spec_contains(x, y) {
        c
    } else {
        p[pixel_index(w, x, y)]
    }) by {
        lemma_pixel_index(w, h, x, y);
        lemma_axis_aligned_covers(r, x, y);
    }
}

/// The Bresenham walk along a horizontal segment: with no vertical
/// distance the error never triggers a vertical step, so the walk visits
/// one pixel per column.
proof fn lemma_walk_horizontal(
    x: int,
    y: int,
    x1: int,
    dx: int,
    sy: int,
    err: int,
    fuel: nat,
)
    requires
        x <= x1,
        dx >= x1 - x,
        err >= 0,
        fuel >= x1 - x,
    ensures
        spec_walk(x, y, x1, y, dx, 0, 1, sy, err, fuel) =~= Seq::new(
            (x1 - x + 1) as nat,
            |i: int| (x + i, y),
        ),
    decreases x1 - x,
{
    let out = Seq::new((x1 - x + 1) as nat, |i: int| (x + i, y));
    if x == x1 {
        assert(spec_walk(x, y, x1, y, dx, 0, 1, sy, err, fuel) =~= out);
    } else {
        assert(2 * err > -dx);
        assert(!(2 * err < 0));
        lemma_walk_horizontal(x + 1, y, x1, dx, sy, err, (fuel - 1) as nat);
        assert(spec_walk(x, y, x1, y, dx, 0, 1, sy, err, fuel) =~= out);
    }
}

/// Law: an axis-aligned horizontal line from `(x0, y)` to `(x1, y)` with
/// `x0 <= x1` visits exactly the pixels `(x0, y), (x0 + 1, y), ..., (x1, y)`.
pub proof fn lemma_line_points_horizontal(x0: int, y: int, x1: int)
    requires
        x0 <= x1,
    ensures
        spec_line_points(x0, y, x1, y) =~= Seq::new((x1 - x0 + 1) as nat, |i: int| (x0 + i, y)),
{
    let dx = x1 - x0;
    if dx > 0 {
        lemma_fundamental_div_mod(dx, 2);
        lemma_mod_bound(dx, 2);
        assert(dx / 2 >= 0) by (nonlinear_arith)
            requires
                dx == 2 * (dx / 2) + dx % 2,
                0 <= dx % 2 < 2,
                dx > 0,
        ;
        lemma_walk_horizontal(x0, y, x1, dx, -1, dx / 2, (dx + 1) as nat);
    } else {
        assert(spec_line_points(x0, y, x1, y) =~= Seq::new(1, |i: int| (x0 + i, y)));
    }
}

/// The pixel coordinates of the half-open box `[x0, x0 + w) x [y0, y0 + h)`.
pub open spec fn spec_box_pixels(x0: int, y0: int, w: int, h: int) -> Set<(int, int)> {
    Set::new(|p: (int, int)| x0 <= p.0 < x0 + w && y0 <= p.1 < y0 + h)
}

/// Law: the box of an unrotated `w` by `h` rectangle holds exactly
/// `w * h` pixels; with `lemma_fill_rect_unrotated` this says that the
/// fill colors exactly that many pixels when the rectangle lies inside
/// the buffer.
pub proof fn lemma_box_pixel_count(x0: int, y0: int, w: int, h: int)
    requires
        w >= 0,
        h >= 0,
    ensures
        spec_box_pixels(x0, y0, w, h).finite(),
        spec_box_pixels(x0, y0, w, h).len() == w * h,
{
    let b = spec_box_pixels(x0, y0, w, h);
    if w == 0 || h == 0 {
        assert(w * h == 0) by (nonlinear_arith)
            requires
                w == 0 || h == 0,
        ;
        assert(b =~= Set::<(int, int)>::empty());
    } else {
        let n = w * h;
        assert(n > 0) by (nonlinear_arith)
            requires
                w > 0,
                h > 0,
                n == w * h,
        ;
        let r = vstd::set_lib::set_int_range(0, n);
        vstd::set_lib::lemma_int_range(0, n);
        let f = |i: int| (x0 + i % w, y0 + i / w);
        assert(vstd::relations::injective_on(f, r)) by {
            assert forall|i: int, j: int|
                r.contains(i) && r.contains(j) && #[trigger] f(i) == #[trigger] f(j) implies i
                == j by {
                lemma_fundamental_div_mod(i, w);
                lemma_fundamental_div_mod(j, w);
            }
        }
        assert(r.map(f) =~= b) by {
            assert forall|p: (int, int)| #[trigger] b.contains(p) implies r.map(f).contains(
                p,
            ) by {
                let i = (p.1 - y0) * w + (p.0 - x0);
                lemma_pixel_index(w, h, p.0 - x0, p.1 - y0);
                assert(r.contains(i));
                assert(f(i) == p);
            }
            assert forall|p: (int, int)| r.map(f).contains(p) implies b.contains(p) by {
                let i = choose|i: int| r.contains(i) && p == f(i);
                lemma_index_coords(w, h, i);
            }
        }
        vstd::set_lib::lemma_map_size(r, b, f);
    }
}

/// The error term of a Bresenham walk encodes how far the walk still has
/// to go: it always equals the seed plus `rx * dy - ry * dx`, where `rx`
/// and `ry` are the remaining distances. From that single invariant the
/// walk provably never steps past the end point on either axis, and
/// reaches it while the fuel of `spec_line_points` lasts.
proof fn lemma_walk_reaches_end(
    x: int,
    y: int,
    x1: int,
    y1: int,
    dx: int,
    dy: int,
    sx: int,
    sy: int,
    err: int,
    fuel: nat,
)
    requires
        dx >= 0,
        dy >= 0,
        sx == 1 || sx == -1,
        sy == 1 || sy == -1,
        (x1 - x) * sx >= 0,
        (y1 - y) * sy >= 0,
        (x1 - x) * sx > 0 ==> dx > 0,
        (y1 - y) * sy > 0 ==> dy > 0,
        err == spec_line_err0(dx, dy) + ((x1 - x) * sx) * dy - ((y1 - y) * sy) * dx,
        fuel >= (x1 - x) * sx + (y1 - y) * sy,
    ensures
        spec_walk(x, y, x1, y1, dx, dy, sx, sy, err, fuel).last() == (x1, y1),
        spec_walk(x, y, x1, y1, dx, dy, sx, sy, err, fuel).no_duplicates(),
        spec_walk(x, y, x1, y1, dx, dy, sx, sy, err, fuel).len() <= (x1 - x) * sx + (y1 - y) * sy
            + 1,
        forall|i: int|
            0 <= i < spec_walk(x, y, x1, y1, dx, dy, sx, sy, err, fuel).len() ==> (x1 - (
            #[trigger] spec_walk(x, y, x1, y1, dx, dy, sx, sy, err, fuel)[i]).0) * sx + (y1
                - spec_walk(x, y, x1, y1, dx, dy, sx, sy, err, fuel)[i].1) * sy <= (x1 - x) * sx
                + (y1 - y) * sy,
    decreases (x1 - x) * sx + (y1 - y) * sy,
{
    let rx = (x1 - x) * sx;
    let ry = (y1 - y) * sy;
    let e0 = spec_line_err0(dx, dy);
    lemma_fundamental_div_mod(dx, 2);
    lemma_mod_bound(dx, 2);
    lemma_fundamental_div_mod(dy, 2);
    lemma_mod_bound(dy, 2);
    if x == x1 && y == y1 {
    } else {
        assert(rx > 0 || ry > 0) by (nonlinear_arith)
            requires
                rx == (x1 - x) * sx,
                ry == (y1 - y) * sy,
                rx >= 0,
                ry >= 0,
                sx == 1 || sx == -1,
                sy == 1 || sy == -1,
                !(x == x1 && y == y1),
        ;
        assert(fuel > 0);
        let e2 = 2 * err;
        let xstep = e2 > -dx;
        let ystep = e2 < dy;
        if rx == 0 {
            // The walk must not move past the end column: the error is
            // low enough that no horizontal step fires.
            assert(ry > 0);
            assert(2 * err <= -dx) by (nonlinear_arith)
                requires
                    err == e0 + rx * dy - ry * dx,
                    rx == 0,
                    ry >= 1,
                    dx >= 0,
                    2 * e0 <= dx,
            ;
            assert(!xstep);
            assert(ystep);
        } else if ry == 0 {
            // Likewise no vertical step past the end row.
            assert(2 * err >= dy) by (nonlinear_arith)
                requires
                    err == e0 + rx * dy - ry * dx,
                    ry == 0,
                    rx >= 1,
                    dy >= 0,
                    2 * e0 >= -dy,
            ;
            assert(!ystep);
            assert(dx > 0);
            assert(xstep);
        } else {
            // Away from the end point at least one axis advances.
            if !xstep && !ystep {
                assert(dy <= 2 * err <= -dx);
                assert(false);
            }
        }
        let x2 = if xstep {
            x + sx
        } else {
            x
        };
        let y2 = if ystep {
            y + sy
        } else {
            y
        };
        let e4 = if xstep {
            err - dy
        } else {
            err
        } + if ystep {
            dx
        } else {
            0
        };
        let rx2 = (x1 - x2) * sx;
        let ry2 = (y1 - y2) * sy;
        assert(rx2 == if xstep {
            rx - 1
        } else {
            rx
        }) by (nonlinear_arith)
            requires
                rx == (x1 - x) * sx,
                rx2 == (x1 - x2) * sx,
                x2 == if xstep {
                    x + sx
                } else {
                    x
                },
                sx == 1 || sx == -1,
        ;
        assert(ry2 == if ystep {
            ry - 1
        } else {
            ry
        }) by (nonlinear_arith)
            requires
                ry == (y1 - y) * sy,
                ry2 == (y1 - y2) * sy,
                y2 == if ystep {
                    y + sy
                } else {
                    y
                },
                sy == 1 || sy == -1,
        ;
        assert(xstep ==> rx >= 1);
        assert(ystep ==> ry >= 1);
        assert(e4 == e0 + rx2 * dy - ry2 * dx) by (nonlinear_arith)
            requires
                err == e0 + rx * dy - ry * dx,
                e4 == (if xstep {
                    err - dy
                } else {
                    err
                }) + if ystep {
                    dx
                } else {
                    0
                },
                rx2 == if xstep {
                    rx - 1
                } else {
                    rx
                },
                ry2 == if ystep {
                    ry - 1
                } else {
                    ry
                },
        ;
        lemma_walk_reaches_end(x2, y2, x1, y1, dx, dy, sx, sy, e4, (fuel - 1) as nat);
        let rest = spec_walk(x2, y2, x1, y1, dx, dy, sx, sy, e4, (fuel - 1) as nat);
        let whole = spec_walk(x, y, x1, y1, dx, dy, sx, sy, err, fuel);
        assert(whole == seq![(x, y)] + rest);
        assert(rx2 + ry2 < rx + ry);
        assert forall|i: int| 0 <= i < whole.len() implies (x1 - (#[trigger] whole[i]).0) * sx + (
        y1 - whole[i].1) * sy <= rx + ry by {
            if i > 0 {
                assert(whole[i] == rest[i - 1]);
            }
        }
        assert(!rest.contains((x, y))) by {
            if rest.contains((x, y)) {
                let i = choose|i: int| 0 <= i < rest.len() && rest[i] == (x, y);
                assert((x1 - rest[i].0) * sx + (y1 - rest[i].1) * sy <= rx2 + ry2);
            }
        }
        assert(whole.no_duplicates()) by {
            assert forall|i: int, j: int|
                0 <= i < whole.len() && 0 <= j < whole.len() && i != j implies whole[i] != whole[
            j] by {
                if i == 0 && j > 0 {
                    assert(whole[j] == rest[j - 1]);
                    assert(rest.contains(rest[j - 1]));
                } else if j == 0 && i > 0 {
                    assert(whole[i] == rest[i - 1]);
                    assert(rest.contains(rest[i - 1]));
                } else if i > 0 && j > 0 {
                    assert(whole[i] == rest[i - 1]);
                    assert(whole[j] == rest[j - 1]);
                }
            }
        }
    }
}

/// Law: a line's walk starts at its start point and ends at its end
/// point: the walk terminates exactly when it reaches the end, which is
/// drawn like every other visited pixel.
pub proof fn lemma_line_endpoints(x0: int, y0: int, x1: int, y1: int)
    ensures
        spec_line_points(x0, y0, x1, y1).len() >= 1,
        spec_line_points(x0, y0, x1, y1).first() == (x0, y0),
        spec_line_points(x0, y0, x1, y1).last() == (x1, y1),
{
    let dx = if x1 >= x0 {
        x1 - x0
    } else {
        x0 - x1
    };
    let dy = if y1 >= y0 {
        y1 - y0
    } else {
        y0 - y1
    };
    let sx: int = if x0 < x1 {
        1
    } else {
        -1
    };
    let sy: int = if y0 < y1 {
        1
    } else {
        -1
    };
    assert((x1 - x0) * sx == dx) by (nonlinear_arith)
        requires
            dx == if x1 >= x0 {
                x1 - x0
            } else {
                x0 - x1
            },
            sx == if x0 < x1 {
                1int
            } else {
                -1int
            },
    ;
    assert((y1 - y0) * sy == dy) by (nonlinear_arith)
        requires
            dy == if y1 >= y0 {
                y1 - y0
            } else {
                y0 - y1
            },
            sy == if y0 < y1 {
                1int
            } else {
                -1int
            },
    ;
    assert(spec_line_err0(dx, dy) == spec_line_err0(dx, dy) + dx * dy - dy * dx)
        by (nonlinear_arith);
    lemma_walk_reaches_end(x0, y0, x1, y1, dx, dy, sx, sy, spec_line_err0(dx, dy), (dx + dy
        + 1) as nat);
}

/// Law: a line's walk never visits a pixel twice, and visits at most one
/// pixel more than the two axis distances together: the count of pixels
/// a line colors is exactly the walk's length.
pub proof fn lemma_line_points_distinct(x0: int, y0: int, x1: int, y1: int)
    ensures
        spec_line_points(x0, y0, x1, y1).no_duplicates(),
        spec_line_points(x0, y0, x1, y1).len() <= (if x1 >= x0 {
            x1 - x0
        } else {
            x0 - x1
        }) + (if y1 >= y0 {
            y1 - y0
        } else {
            y0 - y1
        }) + 1,
{
    let dx = if x1 >= x0 {
        x1 - x0
    } else {
        x0 - x1
    };
    let dy = if y1 >= y0 {
        y1 - y0
    } else {
        y0 - y1
    };
    let sx: int = if x0 < x1 {
        1
    } else {
        -1
    };
    let sy: int = if y0 < y1 {
        1
    } else {
        -1
    };
    assert((x1 - x0) * sx == dx) by (nonlinear_arith)
        requires
            dx == if x1 >= x0 {
                x1 - x0
            } else {
                x0 - x1
            },
            sx == if x0 < x1 {
                1int
            } else {
                -1int
            },
    ;
    assert((y1 - y0) * sy == dy) by (nonlinear_arith)
        requires
            dy == if y1 >= y0 {
                y1 - y0
            } else {
                y0 - y1
            },
            sy == if y0 < y1 {
                1int
            } else {
                -1int
            },
    ;
    assert(spec_line_err0(dx, dy) == spec_line_err0(dx, dy) + dx * dy - dy * dx)
        by (nonlinear_arith);
    lemma_walk_reaches_end(x0, y0, x1, y1, dx, dy, sx, sy, spec_line_err0(dx, dy), (dx + dy
        + 1) as nat);
}

/// The Bresenham walk along a vertical segment: with no horizontal
/// distance the error never triggers a horizontal step, so the walk
/// visits one pixel per row.
proof fn lemma_walk_vertical(y: int, x: int, y1: int, dy: int, sx: int, err: int, fuel: nat)
    requires
        y <= y1,
        dy >= y1 - y,
        err <= 0,
        fuel >= y1 - y,
    ensures
        spec_walk(x, y, x, y1, 0, dy, sx, 1, err, fuel) =~= Seq::new(
            (y1 - y + 1) as nat,
            |i: int| (x, y + i),
        ),
    decreases y1 - y,
{
    let out = Seq::new((y1 - y + 1) as nat, |i: int| (x, y + i));
    if y == y1 {
        assert(spec_walk(x, y, x, y1, 0, dy, sx, 1, err, fuel) =~= out);
    } else {
        assert(!(2 * err > 0));
        assert(2 * err < dy);
        lemma_walk_vertical(y + 1, x, y1, dy, sx, err, (fuel - 1) as nat);
        assert(spec_walk(x, y, x, y1, 0, dy, sx, 1, err, fuel) =~= out);
    }
}

/// Law: an axis-aligned vertical line from `(x, y0)` to `(x, y1)` with
/// `y0 <= y1` visits exactly the pixels `(x, y0), (x, y0 + 1), ..., (x, y1)`.
pub proof fn lemma_line_points_vertical(x: int, y0: int, y1: int)
    requires
        y0 <= y1,
    ensures
        spec_line_points(x, y0, x, y1) =~= Seq::new((y1 - y0 + 1) as nat, |i: int| (x, y0 + i)),
{
    let dy = y1 - y0;
    if dy > 0 {
        lemma_fundamental_div_mod(dy, 2);
        lemma_mod_bound(dy, 2);
        lemma_walk_vertical(y0, x, y1, dy, -1, -(dy / 2), (dy + 1) as nat);
    } else {
        assert(spec_line_points(x, y0, x, y1) =~= Seq::new(1, |i: int| (x, y0 + i)));
    }
}

} // verus!
