use vstd::prelude::*;
use vstd::arithmetic::div_mod::lemma_fundamental_div_mod_converse;

verus! {

use crate::color::Rgba;

/// The index of the pixel at `(x, y)` in a row-major buffer `w` pixels wide.
pub open spec fn pixel_index(w: int, x: int, y: int) -> int {
    y * w + x
}

/// A row-major RGBA pixel buffer sized to the viewport. All drawing in the
/// crate ends up here; the host copies the raw bytes to the display.
pub struct FrameBuffer {
    pub width: u32,
    pub height: u32,
    pub pixels: Vec<Rgba>,
}

impl View for FrameBuffer {
    type V = Seq<Rgba>;

    open spec fn view(&self) -> Seq<Rgba> {
        self.pixels@
    }
}

/// The pixel of (x, y), row-major, for indices within bounds.
pub open spec fn spec_pixel_at(p: Seq<Rgba>, w: int, x: int, y: int) -> Rgba {
    p[pixel_index(w, x, y)]
}

/// Writing one pixel, as a function on the buffer contents: out-of-bounds
/// coordinates leave the buffer unchanged.
pub open spec fn spec_set_pixel(p: Seq<Rgba>, w: int, h: int, x: int, y: int, c: Rgba) -> Seq<
    Rgba,
> {
    if 0 <= x < w && 0 <= y < h {
        p.update(pixel_index(w, x, y), c)
    } else {
        p
    }
}

/// A pixel index within bounds indexes within the buffer, and row-major
/// indexing is invertible by division and remainder.
pub proof fn lemma_pixel_index(w: int, h: int, x: int, y: int)
    requires
        0 <= x < w,
        0 <= y < h,
    ensures
        0 <= pixel_index(w, x, y) < w * h,
        pixel_index(w, x, y) % w == x,
        pixel_index(w, x, y) / w == y,
{
    assert(0 <= y * w + x < w * h) by (nonlinear_arith)
        requires
            0 <= x < w,
            0 <= y < h,
    ;
    lemma_fundamental_div_mod_converse(y * w + x, w, y, x);
}

impl FrameBuffer {
    pub open spec fn wf(self) -> bool {
        &&& self@.len() == (self.width as int) * (self.height as int)
        &&& self.width <= i32::MAX
        &&& self.height <= i32::MAX
    }

    pub open spec fn spec_width(self) -> int {
        self.width as int
    }

    pub open spec fn spec_height(self) -> int {
        self.height as int
    }

    /// Whether `(x, y)` lies inside the buffer.
    pub open spec fn spec_in_bounds(self, x: int, y: int) -> bool {
        0 <= x < self.spec_width() && 0 <= y < self.spec_height()
    }

    /// A fresh buffer of the given extents, with every pixel set to the
    /// given background color.
    pub fn new(width: u32, height: u32, background: Rgba) -> (fb: FrameBuffer)
        requires
            width * height <= usize::MAX,
            width <= i32::MAX,
            height <= i32::MAX,
        ensures
            fb.wf(),
            fb.spec_width() == width,
            fb.spec_height() == height,
            fb@.len() == width * height,
            forall|i: int| 0 <= i < fb@.len() ==> fb@[i] == background,
    {
        proof {
            assert((width as int) * (height as int) == (width as usize) * (height as usize));
        }
        let n: usize = (width as usize) * (height as usize);
        let pixels: Vec<Rgba> = vec![background; n];
        FrameBuffer { width, height, pixels }
    }

    pub fn width(&self) -> (r: u32)
        ensures
            r == self.spec_width(),
    {
        self.width
    }

    pub fn height(&self) -> (r: u32)
        ensures
            r == self.spec_height(),
    {
        self.height
    }

    /// The pixel at `(x, y)`, or `None` outside the buffer.
    pub fn get_pixel(&self, x: i32, y: i32) -> (r: Option<Rgba>)
        requires
            self.wf(),
        ensures
            r is Some <==> self.spec_in_bounds(x as int, y as int),
            r is Some ==> r->0 == spec_pixel_at(self@, self.spec_width(), x as int, y as int),
    {
        if x < 0 || y < 0 {
            return None;
        }
        let xu = x as usize;
        let yu = y as usize;
        if xu >= self.width as usize || yu >= self.height as usize {
            return None;
        }
        let n: usize = self.pixels.len();
        proof {
            lemma_pixel_index(self.spec_width(), self.spec_height(), x as int, y as int);
        }
        Some(self.pixels[yu * (self.width as usize) + xu])
    }

    /// Write the pixel at `(x, y)`; coordinates outside the buffer are
    /// silently skipped, never an error.
    pub fn set_pixel(&mut self, x: i32, y: i32, c: Rgba)
        requires
            old(self).wf(),
        ensures
            final(self).wf(),
            final(self).spec_width() == old(self).spec_width(),
            final(self).spec_height() == old(self).spec_height(),
            final(self)@ == spec_set_pixel(
                old(self)@,
                old(self).spec_width(),
                old(self).spec_height(),
                x as int,
                y as int,
                c,
            ),
    {
        if x < 0 || y < 0 {
            return ;
        }
        let xu = x as usize;
        let yu = y as usize;
        if xu >= self.width as usize || yu >= self.height as usize {
            return ;
        }
        let n: usize = self.pixels.len();
        proof {
            lemma_pixel_index(self.spec_width(), self.spec_height(), x as int, y as int);
        }
        let idx: usize = yu * (self.width as usize) + xu;
        self.pixels.set(idx, c);
    }

    /// Set every pixel to the given color, keeping the extents.
    pub fn clear(&mut self, c: Rgba)
        requires
            old(self).wf(),
        ensures
            final(self).wf(),
            final(self).spec_width() == old(self).spec_width(),
            final(self).spec_height() == old(self).spec_height(),
            final(self)@.len() == old(self)@.len(),
            forall|i: int| 0 <= i < final(self)@.len() ==> final(self)@[i] == c,
    {
        let n: usize = self.pixels.len();
        let mut i: usize = 0;
        while i < n
            invariant
                n == self.pixels.len(),
                self.width == old(self).width,
                self.height == old(self).height,
                self.wf(),
                i <= n,
                forall|j: int| 0 <= j < i ==> self@[j] == c,
            decreases n - i,
        {
            self.pixels.set(i, c);
            i = i + 1;
        }
    }

    /// The buffer as raw bytes, four per pixel in RGBA order, row-major,
    /// with no padding: what a host presentation layer copies to the screen.
    pub fn as_raw_bytes(&self) -> (r: Vec<u8>)
        requires
            self.wf(),
            4 * self@.len() <= usize::MAX,
        ensures
            r@.len() == 4 * self@.len(),
            forall|i: int|
                0 <= i < self@.len() ==> {
                    &&& r@[4 * i] == self@[i].red
                    &&& r@[4 * i + 1] == self@[i].green
                    &&& r@[4 * i + 2] == self@[i].blue
                    &&& r@[4 * i + 3] == self@[i].alpha
                },
    {
        let n: usize = self.pixels.len();
        let mut r: Vec<u8> = Vec::new();
        let mut i: usize = 0;
        while i < n
            invariant
                n == self@.len(),
                4 * n <= usize::MAX,
                i <= n,
                r@.len() == 4 * i,
                forall|j: int|
                    0 <= j < i ==> {
                        &&& r@[4 * j] == self@[j].red
                        &&& r@[4 * j + 1] == self@[j].green
                        &&& r@[4 * j + 2] == self@[j].blue
                        &&& r@[4 * j + 3] == self@[j].alpha
                    },
            decreases n - i,
        {
            let px = self.pixels[i];
            r.push(px.red);
            r.push(px.green);
            r.push(px.blue);
            r.push(px.alpha);
            i = i + 1;
        }
        r
    }
}

} // verus!
