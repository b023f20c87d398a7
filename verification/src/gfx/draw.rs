//! Surfaces and drawing primitives.
//!
//! A `Surface` is a plain 32-bit XRGB pixel buffer with a clip rectangle.
//! The screen's back buffer is one; so is every window's contents.

use vstd::prelude::*;
use super::palette::{self, Color, blend_value, scale_value, blend, scale};

verus! {

#[derive(Clone, Copy, Debug, PartialEq, Eq, Structural)]
pub struct Rect {
    pub x: i32,
    pub y: i32,
    pub w: i32,
    pub h: i32,
}

/// An int lies in the range of `i32`.
pub open spec fn in_i32(v: int) -> bool {
    i32::MIN <= v <= i32::MAX
}

pub open spec fn max_int(a: int, b: int) -> int {
    if a >= b { a } else { b }
}

pub open spec fn min_int(a: int, b: int) -> int {
    if a <= b { a } else { b }
}

impl Rect {
    /// The right and bottom edges are representable.
    pub open spec fn fits(self) -> bool {
        in_i32(self.x + self.w) && in_i32(self.y + self.h)
    }

    pub open spec fn right_spec(self) -> int {
        self.x + self.w
    }

    pub open spec fn bottom_spec(self) -> int {
        self.y + self.h
    }

    pub open spec fn empty_spec(self) -> bool {
        self.w <= 0 || self.h <= 0
    }

    pub open spec fn contains_spec(self, px: int, py: int) -> bool {
        px >= self.x && py >= self.y && px < self.x + self.w && py < self.y + self.h
    }

    /// The overlap of two rectangles, with negative extents clamped to zero.
    pub open spec fn intersect_spec(self, other: Rect) -> Rect {
        let x = max_int(self.x as int, other.x as int);
        let y = max_int(self.y as int, other.y as int);
        let right = min_int(self.right_spec(), other.right_spec());
        let bottom = min_int(self.bottom_spec(), other.bottom_spec());
        Rect {
            x: x as i32,
            y: y as i32,
            w: max_int(right - x, 0) as i32,
            h: max_int(bottom - y, 0) as i32,
        }
    }

    /// `intersect` can compute its result without overflow.
    pub open spec fn intersect_ok(self, other: Rect) -> bool {
        self.fits() && other.fits() && in_i32(
            min_int(self.right_spec(), other.right_spec()) - max_int(self.x as int, other.x as int),
        ) && in_i32(
            min_int(self.bottom_spec(), other.bottom_spec()) - max_int(self.y as int, other.y as int),
        )
    }

    /// Lies within a `width` x `height` area with non-negative extents.
    pub open spec fn inside(self, width: int, height: int) -> bool {
        0 <= self.x && 0 <= self.y && 0 <= self.w && 0 <= self.h && self.x + self.w <= width
            && self.y + self.h <= height
    }

    pub fn new(x: i32, y: i32, w: i32, h: i32) -> (r: Rect)
        ensures
            r == (Rect { x, y, w, h }),
    {
        Rect { x, y, w, h }
    }

    pub fn right(&self) -> (r: i32)
        requires
            in_i32(self.x + self.w),
        ensures
            r == self.x + self.w,
    {
        self.x + self.w
    }

    pub fn bottom(&self) -> (b: i32)
        requires
            in_i32(self.y + self.h),
        ensures
            b == self.y + self.h,
    {
        self.y + self.h
    }

    pub fn is_empty(&self) -> (e: bool)
        ensures
            e == self.empty_spec(),
    {
        self.w <= 0 || self.h <= 0
    }

    pub fn contains(&self, px: i32, py: i32) -> (c: bool)
        requires
            self.fits(),
        ensures
            c == self.contains_spec(px as int, py as int),
    {
        px >= self.x && py >= self.y && px < self.right() && py < self.bottom()
    }

    pub fn intersect(&self, other: &Rect) -> (r: Rect)
        requires
            self.intersect_ok(*other),
        ensures
            r == self.intersect_spec(*other),
    {
        let x = if self.x >= other.x { self.x } else { other.x };
        let y = if self.y >= other.y { self.y } else { other.y };
        let sr = self.right();
        let or = other.right();
        let sb = self.bottom();
        let ob = other.bottom();
        let right = if sr <= or { sr } else { or };
        let bottom = if sb <= ob { sb } else { ob };
        let w = right - x;
        let h = bottom - y;
        Rect::new(x, y, if w >= 0 { w } else { 0 }, if h >= 0 { h } else { 0 })
    }

    pub fn inset(&self, by: i32) -> (r: Rect)
        requires
            in_i32(self.x + by),
            in_i32(self.y + by),
            in_i32(2 * by),
            in_i32(self.w - 2 * by),
            in_i32(self.h - 2 * by),
        ensures
            r == (Rect { x: (self.x + by) as i32, y: (self.y + by) as i32, w: (self.w - 2 * by) as i32, h: (self.h - 2 * by) as i32 }),
    {
        Rect::new(self.x + by, self.y + by, self.w - 2 * by, self.h - 2 * by)
    }

    pub fn offset(&self, dx: i32, dy: i32) -> (r: Rect)
        requires
            in_i32(self.x + dx),
            in_i32(self.y + dy),
        ensures
            r == (Rect { x: (self.x + dx) as i32, y: (self.y + dy) as i32, w: self.w, h: self.h }),
    {
        Rect::new(self.x + dx, self.y + dy, self.w, self.h)
    }
}


/// A point lies in the intersection exactly when it lies in both rectangles.
pub proof fn law_intersect_contains(a: Rect, b: Rect, px: int, py: int)
    requires
        a.intersect_ok(b),
    ensures
        a.intersect_spec(b).contains_spec(px, py) <==> (a.contains_spec(px, py) && b.contains_spec(px, py)),
{
}

/// Intersection does not depend on the order of its operands.
pub proof fn law_intersect_commutes(a: Rect, b: Rect)
    requires
        a.intersect_ok(b),
    ensures
        b.intersect_ok(a),
        a.intersect_spec(b) == b.intersect_spec(a),
{
}

/// A non-empty intersection with a rectangle inside an area lies inside that area.
pub proof fn lemma_intersect_inside(a: Rect, b: Rect, width: int, height: int)
    requires
        a.intersect_ok(b),
        b.inside(width, height),
        !a.intersect_spec(b).empty_spec(),
    ensures
        a.intersect_spec(b).inside(width, height),
{
}

} // verus!

verus! {

/// The pixel at column `x`, row `y` of a buffer `w` pixels wide.
pub open spec fn at(s: Seq<u32>, w: int, x: int, y: int) -> u32 {
    s[y * w + x]
}

pub proof fn lemma_index_bound(w: int, h: int, x: int, y: int)
    requires
        0 <= x < w,
        0 <= y < h,
    ensures
        0 <= y * w + x < w * h,
{
    assert(0 <= y * w + x < w * h) by (nonlinear_arith)
        requires 0 <= x < w, 0 <= y < h;
}

pub proof fn lemma_index_distinct(w: int, x1: int, y1: int, x2: int, y2: int)
    requires
        0 <= x1 < w,
        0 <= x2 < w,
        0 <= y1,
        0 <= y2,
        x1 != x2 || y1 != y2,
    ensures
        y1 * w + x1 != y2 * w + x2,
{
    if y1 == y2 {
    } else if y1 < y2 {
        assert(y1 * w + w <= y2 * w) by (nonlinear_arith) requires y1 < y2, w > 0;
    } else {
        assert(y2 * w + w <= y1 * w) by (nonlinear_arith) requires y2 < y1, w > 0;
    }
}

/// What a pass over an area does to each pixel in it.
#[derive(Clone, Copy, PartialEq, Eq, Structural)]
pub enum PixelOp {
    Fill(Color),
    Blend(Color, u8),
    Scale(u8),
    /// The scanline darkening: each channel loses a quarter of itself.
    Darken,
}

/// A channel-wise quarter of a colour, with no borrow between channels.
pub open spec fn darken_value(p: u32) -> u32 {
    (p - ((p >> 2u32) & 0x003F_3F3Fu32)) as u32
}

pub open spec fn op_value(op: PixelOp, p: u32) -> u32 {
    match op {
        PixelOp::Fill(c) => c,
        PixelOp::Blend(c, a) => blend_value(p, c, a) as u32,
        PixelOp::Scale(f) => scale_value(p, f) as u32,
        PixelOp::Darken => darken_value(p),
    }
}

fn op_apply(op: PixelOp, p: Color) -> (r: Color)
    ensures
        r == op_value(op, p),
{
    match op {
        PixelOp::Fill(c) => c,
        PixelOp::Blend(c, a) => blend(p, c, a),
        PixelOp::Scale(f) => scale(p, f),
        PixelOp::Darken => {
            assert(((p >> 2u32) & 0x003F_3F3Fu32) <= p) by (bit_vector);
            p - ((p >> 2u32) & 0x003F_3F3Fu32)
        },
    }
}

/// `new` is `old` with `op` applied to the pixel (x, y) if the clip holds it, and nothing else.
pub open spec fn painted_point(new: Seq<u32>, old: Seq<u32>, w: int, h: int, x: int, y: int, clip: Rect, op: PixelOp) -> bool {
    &&& new.len() == old.len()
    &&& forall|px: int, py: int|
        0 <= px < w && 0 <= py < h ==> #[trigger] at(new, w, px, py) == if px == x && py == y && clip.contains_spec(x, y) {
            op_value(op, at(old, w, px, py))
        } else {
            at(old, w, px, py)
        }
}

/// `new` is `old` with `op` applied to every pixel of `area` and nothing else.
pub open spec fn painted(new: Seq<u32>, old: Seq<u32>, w: int, h: int, area: Rect, op: PixelOp) -> bool {
    &&& new.len() == old.len()
    &&& forall|px: int, py: int|
        0 <= px < w && 0 <= py < h ==> #[trigger] at(new, w, px, py) == if area.contains_spec(px, py) {
            op_value(op, at(old, w, px, py))
        } else {
            at(old, w, px, py)
        }
}

pub struct Surface {
    pub pixels: Vec<Color>,
    pub width: usize,
    pub height: usize,
    /// Drawing outside this rectangle has no effect.
    pub clip: Rect,
}

impl Surface {
    /// The pixel buffer matches the dimensions and the clip lies on the surface.
    pub open spec fn wf(&self) -> bool {
        &&& self.pixels@.len() == self.width * self.height
        &&& self.width * self.height <= usize::MAX
        &&& self.width <= i32::MAX
        &&& self.height <= i32::MAX
        &&& self.clip.inside(self.width as int, self.height as int)
    }

    pub open spec fn clip_spec(&self) -> Rect {
        self.clip
    }

    pub open spec fn bounds_spec(&self) -> Rect {
        Rect { x: 0, y: 0, w: self.width as i32, h: self.height as i32 }
    }

    /// The colour at (x, y).
    pub open spec fn at(&self, x: int, y: int) -> u32 {
        at(self.pixels@, self.width as int, x, y)
    }

    pub proof fn lemma_wf(&self)
        requires
            self.wf(),
        ensures
            self.pixels@.len() == self.width * self.height,
            self.width <= i32::MAX,
            self.height <= i32::MAX,
            self.clip_spec().inside(self.width as int, self.height as int),
            self.clip_spec().fits(),
    {
    }

    /// A zero-sized surface.
    pub fn empty() -> (s: Surface)
        ensures
            s.wf(),
            s.width == 0,
            s.height == 0,
            s.pixels@.len() == 0,
            s.clip_spec() == Rect::new_spec(0, 0, 0, 0),
    {
        Surface { pixels: Vec::new(), width: 0, height: 0, clip: Rect::new(0, 0, 0, 0) }
    }

    /// A black surface, clipped to its own bounds.
    pub fn new(width: usize, height: usize) -> (s: Surface)
        requires
            width <= i32::MAX,
            height <= i32::MAX,
            width * height <= usize::MAX,
        ensures
            s.wf(),
            s.width == width,
            s.height == height,
            s.clip_spec() == s.bounds_spec(),
            forall|i: int| 0 <= i < s.pixels@.len() ==> s.pixels@[i] == 0,
    {
        let mut pixels: Vec<Color> = Vec::new();
        let n = width * height;
        let mut i: usize = 0;
        while i < n
            invariant
                i <= n,
                pixels@.len() == i,
                forall|j: int| 0 <= j < i ==> pixels@[j] == 0,
            decreases n - i,
        {
            pixels.push(0);
            i += 1;
        }
        Surface { pixels, width, height, clip: Rect::new(0, 0, width as i32, height as i32) }
    }

    pub fn bounds(&self) -> (r: Rect)
        requires
            self.wf(),
        ensures
            r == self.bounds_spec(),
    {
        Rect::new(0, 0, self.width as i32, self.height as i32)
    }

    pub fn clip(&self) -> (r: Rect)
        ensures
            r == self.clip_spec(),
    {
        self.clip
    }

    /// Restrict drawing to `rect` (intersected with the surface). Returns the
    /// previous clip so callers can restore it.
    pub fn set_clip(&mut self, rect: Rect) -> (previous: Rect)
        requires
            old(self).wf(),
            rect.intersect_ok(old(self).bounds_spec()),
        ensures
            final(self).wf(),
            previous == old(self).clip_spec(),
            final(self).pixels == old(self).pixels,
            final(self).width == old(self).width,
            final(self).height == old(self).height,
            final(self).clip_spec() == (if rect.intersect_spec(old(self).bounds_spec()).empty_spec() {
                Rect::new_spec(0, 0, 0, 0)
            } else {
                rect.intersect_spec(old(self).bounds_spec())
            }),
    {
        let previous = self.clip;
        let bounds = self.bounds();
        let area = rect.intersect(&bounds);
        // An empty clip is kept at the origin so it still lies on the surface.
        if area.is_empty() {
            self.clip = Rect::new(0, 0, 0, 0);
        } else {
            proof {
                lemma_intersect_inside(rect, bounds, self.width as int, self.height as int);
            }
            self.clip = area;
        }
        previous
    }

    pub fn reset_clip(&mut self)
        requires
            old(self).wf(),
        ensures
            final(self).wf(),
            final(self).pixels == old(self).pixels,
            final(self).width == old(self).width,
            final(self).height == old(self).height,
            final(self).clip_spec() == old(self).bounds_spec(),
    {
        self.clip = self.bounds();
    }

    /// Change the dimensions. The contents are lost (set to black) unless the
    /// dimensions are unchanged.
    pub fn resize(&mut self, width: usize, height: usize)
        requires
            old(self).wf(),
            width <= i32::MAX,
            height <= i32::MAX,
            width * height <= usize::MAX,
        ensures
            final(self).wf(),
            final(self).width == width,
            final(self).height == height,
            width == old(self).width && height == old(self).height ==> *final(self) == *old(self),
            !(width == old(self).width && height == old(self).height) ==> {
                &&& final(self).clip_spec() == final(self).bounds_spec()
                &&& forall|i: int| 0 <= i < final(self).pixels@.len() ==> final(self).pixels@[i] == 0
            },
    {
        if width == self.width && height == self.height {
            return;
        }
        *self = Surface::new(width, height);
    }
}

impl Rect {
    pub open spec fn new_spec(x: i32, y: i32, w: i32, h: i32) -> Rect {
        Rect { x, y, w, h }
    }
}

} // verus!

verus! {

impl Surface {
    /// Apply `op` to every pixel of `area`, which must lie on the surface.
    fn paint(&mut self, area: Rect, op: PixelOp)
        requires
            old(self).wf(),
            area.inside(old(self).width as int, old(self).height as int),
        ensures
            final(self).wf(),
            final(self).width == old(self).width,
            final(self).height == old(self).height,
            final(self).clip == old(self).clip,
            painted(final(self).pixels@, old(self).pixels@, old(self).width as int, old(self).height as int, area, op),
    {
        let ghost old_px = self.pixels@;
        let w = self.width;
        let ghost h = self.height as int;
        let x0 = area.x as usize;
        let x1 = (area.x + area.w) as usize;
        let y1 = (area.y + area.h) as usize;
        let mut y = area.y as usize;
        while y < y1
            invariant
                self.wf(),
                self.width == w,
                self.height == h,
                self.clip == old(self).clip,
                area.inside(w as int, h),
                x0 == area.x,
                x1 == area.x + area.w,
                y1 == area.y + area.h,
                area.y <= y <= y1,
                old_px.len() == self.pixels@.len(),
                forall|px: int, py: int|
                    0 <= px < w && 0 <= py < h ==> #[trigger] at(self.pixels@, w as int, px, py) == if area.contains_spec(px, py) && py < y {
                        op_value(op, at(old_px, w as int, px, py))
                    } else {
                        at(old_px, w as int, px, py)
                    },
            decreases y1 - y,
        {
            let mut x = x0;
            while x < x1
                invariant
                    self.wf(),
                    self.width == w,
                    self.height == h,
                    self.clip == old(self).clip,
                    area.inside(w as int, h),
                    x0 == area.x,
                    x1 == area.x + area.w,
                    y1 == area.y + area.h,
                    area.y <= y < y1,
                    x0 <= x <= x1,
                    old_px.len() == self.pixels@.len(),
                    forall|px: int, py: int|
                        0 <= px < w && 0 <= py < h ==> #[trigger] at(self.pixels@, w as int, px, py) == if area.contains_spec(px, py) && (py < y || (py == y && px < x)) {
                            op_value(op, at(old_px, w as int, px, py))
                        } else {
                            at(old_px, w as int, px, py)
                        },
                decreases x1 - x,
            {
                proof {
                    lemma_index_bound(w as int, h, x as int, y as int);
                }
                let i = y * w + x;
                let ghost before = self.pixels@;
                assert(at(before, w as int, x as int, y as int) == at(old_px, w as int, x as int, y as int));
                let value = op_apply(op, self.pixels[i]);
                self.pixels.set(i, value);
                proof {
                    assert forall|px: int, py: int| 0 <= px < w && 0 <= py < h implies #[trigger] at(self.pixels@, w as int, px, py) == if area.contains_spec(px, py) && (py < y || (py == y && px < x + 1)) {
                        op_value(op, at(old_px, w as int, px, py))
                    } else {
                        at(old_px, w as int, px, py)
                    } by {
                        lemma_index_bound(w as int, h, px, py);
                        if px != x || py != y {
                            lemma_index_distinct(w as int, px, py, x as int, y as int);
                            assert(at(before, w as int, px, py) == at(self.pixels@, w as int, px, py));
                        }
                    }
                }
                x += 1;
            }
            y += 1;
        }
    }

    /// Set one pixel, if it lies inside the clip.
    pub fn pixel(&mut self, x: i32, y: i32, color: Color)
        requires
            old(self).wf(),
        ensures
            final(self).wf(),
            final(self).width == old(self).width,
            final(self).height == old(self).height,
            final(self).clip == old(self).clip,
            painted_point(final(self).pixels@, old(self).pixels@, old(self).width as int, old(self).height as int, x as int, y as int, old(self).clip, PixelOp::Fill(color)),
    {
        self.pixel_op(x, y, PixelOp::Fill(color));
    }

    /// Blend one pixel towards `color`, if it lies inside the clip.
    pub fn pixel_blend(&mut self, x: i32, y: i32, color: Color, alpha: u8)
        requires
            old(self).wf(),
        ensures
            final(self).wf(),
            final(self).width == old(self).width,
            final(self).height == old(self).height,
            final(self).clip == old(self).clip,
            painted_point(final(self).pixels@, old(self).pixels@, old(self).width as int, old(self).height as int, x as int, y as int, old(self).clip, PixelOp::Blend(color, alpha)),
    {
        self.pixel_op(x, y, PixelOp::Blend(color, alpha));
    }

    fn pixel_op(&mut self, x: i32, y: i32, op: PixelOp)
        requires
            old(self).wf(),
        ensures
            final(self).wf(),
            final(self).width == old(self).width,
            final(self).height == old(self).height,
            final(self).clip == old(self).clip,
            painted_point(final(self).pixels@, old(self).pixels@, old(self).width as int, old(self).height as int, x as int, y as int, old(self).clip, op),
    {
        let ghost old_px = self.pixels@;
        let ghost w = self.width as int;
        let ghost h = self.height as int;
        let ghost clip = self.clip;
        if self.clip.contains(x, y) {
            proof {
                lemma_index_bound(w, h, x as int, y as int);
            }
            let index = y as usize * self.width + x as usize;
            let value = op_apply(op, self.pixels[index]);
            self.pixels.set(index, value);
            proof {
                assert forall|px: int, py: int| 0 <= px < w && 0 <= py < h implies #[trigger] at(self.pixels@, w, px, py) == if px == x && py == y && clip.contains_spec(x as int, y as int) {
                    op_value(op, at(old_px, w, px, py))
                } else {
                    at(old_px, w, px, py)
                } by {
                    lemma_index_bound(w, h, px, py);
                    if px != x || py != y {
                        lemma_index_distinct(w, px, py, x as int, y as int);
                    }
                }
            }
        }
    }

    /// The colour at (x, y), or black off the surface.
    pub fn get(&self, x: i32, y: i32) -> (c: Color)
        requires
            self.wf(),
        ensures
            c == if 0 <= x < self.width && 0 <= y < self.height { self.at(x as int, y as int) } else { 0 },
    {
        if x >= 0 && y >= 0 && (x as usize) < self.width && (y as usize) < self.height {
            proof {
                lemma_index_bound(self.width as int, self.height as int, x as int, y as int);
            }
            self.pixels[y as usize * self.width + x as usize]
        } else {
            0
        }
    }

    /// Every pixel becomes `color`, clip or no clip.
    pub fn clear(&mut self, color: Color)
        requires
            old(self).wf(),
        ensures
            final(self).wf(),
            final(self).width == old(self).width,
            final(self).height == old(self).height,
            final(self).clip == old(self).clip,
            final(self).pixels@.len() == old(self).pixels@.len(),
            forall|i: int| 0 <= i < final(self).pixels@.len() ==> final(self).pixels@[i] == color,
    {
        let n = self.pixels.len();
        let mut i: usize = 0;
        while i < n
            invariant
                self.wf(),
                self.width == old(self).width,
                self.height == old(self).height,
                self.clip == old(self).clip,
                n == self.pixels@.len(),
                i <= n,
                forall|j: int| 0 <= j < i ==> self.pixels@[j] == color,
            decreases n - i,
        {
            self.pixels.set(i, color);
            i += 1;
        }
    }

    /// Apply `op` over `rect` as cut down by the clip.
    fn paint_clipped(&mut self, rect: Rect, op: PixelOp)
        requires
            old(self).wf(),
            rect.intersect_ok(old(self).clip),
        ensures
            final(self).wf(),
            final(self).width == old(self).width,
            final(self).height == old(self).height,
            final(self).clip == old(self).clip,
            painted(final(self).pixels@, old(self).pixels@, old(self).width as int, old(self).height as int, rect.intersect_spec(old(self).clip), op),
    {
        let area = rect.intersect(&self.clip);
        if area.is_empty() {
            assert(painted(self.pixels@, self.pixels@, self.width as int, self.height as int, area, op));
            return;
        }
        proof {
            lemma_intersect_inside(rect, self.clip, self.width as int, self.height as int);
        }
        self.paint(area, op);
    }

    pub fn fill_rect(&mut self, rect: Rect, color: Color)
        requires
            old(self).wf(),
            rect.intersect_ok(old(self).clip),
        ensures
            final(self).wf(),
            final(self).width == old(self).width,
            final(self).height == old(self).height,
            final(self).clip == old(self).clip,
            painted(final(self).pixels@, old(self).pixels@, old(self).width as int, old(self).height as int, rect.intersect_spec(old(self).clip), PixelOp::Fill(color)),
    {
        self.paint_clipped(rect, PixelOp::Fill(color));
    }

    pub fn fill_rect_blend(&mut self, rect: Rect, color: Color, alpha: u8)
        requires
            old(self).wf(),
            rect.intersect_ok(old(self).clip),
        ensures
            final(self).wf(),
            final(self).width == old(self).width,
            final(self).height == old(self).height,
            final(self).clip == old(self).clip,
            painted(final(self).pixels@, old(self).pixels@, old(self).width as int, old(self).height as int, rect.intersect_spec(old(self).clip), PixelOp::Blend(color, alpha)),
    {
        self.paint_clipped(rect, PixelOp::Blend(color, alpha));
    }

    /// Darken a region -- used for window shadows.
    pub fn shade(&mut self, rect: Rect, factor: u8)
        requires
            old(self).wf(),
            rect.intersect_ok(old(self).clip),
        ensures
            final(self).wf(),
            final(self).width == old(self).width,
            final(self).height == old(self).height,
            final(self).clip == old(self).clip,
            painted(final(self).pixels@, old(self).pixels@, old(self).width as int, old(self).height as int, rect.intersect_spec(old(self).clip), PixelOp::Scale(factor)),
    {
        self.paint_clipped(rect, PixelOp::Scale(factor));
    }

    pub fn hline(&mut self, x: i32, y: i32, len: i32, color: Color)
        requires
            old(self).wf(),
            Rect::new_spec(x, y, len, 1).intersect_ok(old(self).clip),
        ensures
            final(self).wf(),
            final(self).width == old(self).width,
            final(self).height == old(self).height,
            final(self).clip == old(self).clip,
            painted(final(self).pixels@, old(self).pixels@, old(self).width as int, old(self).height as int, Rect::new_spec(x, y, len, 1).intersect_spec(old(self).clip), PixelOp::Fill(color)),
    {
        self.fill_rect(Rect::new(x, y, len, 1), color);
    }

    pub fn vline(&mut self, x: i32, y: i32, len: i32, color: Color)
        requires
            old(self).wf(),
            Rect::new_spec(x, y, 1, len).intersect_ok(old(self).clip),
        ensures
            final(self).wf(),
            final(self).width == old(self).width,
            final(self).height == old(self).height,
            final(self).clip == old(self).clip,
            painted(final(self).pixels@, old(self).pixels@, old(self).width as int, old(self).height as int, Rect::new_spec(x, y, 1, len).intersect_spec(old(self).clip), PixelOp::Fill(color)),
    {
        self.fill_rect(Rect::new(x, y, 1, len), color);
    }
}

} // verus!

verus! {

/// The four one-pixel edges of `r`: top, bottom, left, right.
pub open spec fn edges(r: Rect) -> Seq<Rect> {
    seq![
        Rect::new_spec(r.x, r.y, r.w, 1),
        Rect::new_spec(r.x, (r.y + r.h - 1) as i32, r.w, 1),
        Rect::new_spec(r.x, r.y, 1, r.h),
        Rect::new_spec((r.x + r.w - 1) as i32, r.y, 1, r.h),
    ]
}

/// Some rectangle of `rects`, cut down by `clip`, covers the point.
pub open spec fn covered(rects: Seq<Rect>, clip: Rect, px: int, py: int) -> bool {
    exists|k: int| 0 <= k < rects.len() && (#[trigger] rects[k]).intersect_spec(clip).contains_spec(px, py)
}

/// Every rectangle of `rects` can be intersected with `clip`.
pub open spec fn all_intersect_ok(rects: Seq<Rect>, clip: Rect) -> bool {
    forall|k: int| 0 <= k < rects.len() ==> (#[trigger] rects[k]).intersect_ok(clip)
}

/// The inner body and the outline of a panel: a rectangle with its corner
/// pixels knocked out.
pub open spec fn panel_body(r: Rect) -> Seq<Rect> {
    seq![
        Rect::new_spec((r.x + 1) as i32, r.y, (r.w - 2) as i32, r.h),
        Rect::new_spec(r.x, (r.y + 1) as i32, 1, (r.h - 2) as i32),
        Rect::new_spec((r.x + r.w - 1) as i32, (r.y + 1) as i32, 1, (r.h - 2) as i32),
    ]
}

pub open spec fn panel_border(r: Rect) -> Seq<Rect> {
    seq![
        Rect::new_spec((r.x + 1) as i32, r.y, (r.w - 2) as i32, 1),
        Rect::new_spec((r.x + 1) as i32, (r.y + r.h - 1) as i32, (r.w - 2) as i32, 1),
        Rect::new_spec(r.x, (r.y + 1) as i32, 1, (r.h - 2) as i32),
        Rect::new_spec((r.x + r.w - 1) as i32, (r.y + 1) as i32, 1, (r.h - 2) as i32),
    ]
}

impl Surface {
    /// One-pixel outline just inside `rect`.
    pub fn stroke_rect(&mut self, rect: Rect, color: Color)
        requires
            old(self).wf(),
            rect.fits(),
            all_intersect_ok(edges(rect), old(self).clip),
        ensures
            final(self).wf(),
            final(self).width == old(self).width,
            final(self).height == old(self).height,
            final(self).clip == old(self).clip,
            final(self).pixels@.len() == old(self).pixels@.len(),
            forall|px: int, py: int|
                0 <= px < old(self).width && 0 <= py < old(self).height ==> #[trigger] final(self).at(px, py) == if !rect.empty_spec()
                    && covered(edges(rect), old(self).clip, px, py) {
                    color
                } else {
                    old(self).at(px, py)
                },
    {
        if rect.is_empty() {
            return;
        }
        let ghost e = edges(rect);
        let ghost s0 = self.pixels@;
        let ghost w = self.width as int;
        let ghost h = self.height as int;
        let ghost clip = self.clip;
        assert(e[0].intersect_ok(clip) && e[1].intersect_ok(clip) && e[2].intersect_ok(clip) && e[3].intersect_ok(clip));
        let bottom = rect.bottom();
        let right = rect.right();
        self.fill_rect(Rect::new(rect.x, rect.y, rect.w, 1), color);
        let ghost s1 = self.pixels@;
        self.fill_rect(Rect::new(rect.x, bottom - 1, rect.w, 1), color);
        let ghost s2 = self.pixels@;
        self.fill_rect(Rect::new(rect.x, rect.y, 1, rect.h), color);
        let ghost s3 = self.pixels@;
        self.fill_rect(Rect::new(right - 1, rect.y, 1, rect.h), color);
        proof {
            assert forall|px: int, py: int| 0 <= px < w && 0 <= py < h implies #[trigger] self.at(px, py) == if covered(e, clip, px, py) {
                color
            } else {
                at(s0, w, px, py)
            } by {
                assert(at(s1, w, px, py) == at(s1, w, px, py));
                assert(at(s2, w, px, py) == at(s2, w, px, py));
                assert(at(s3, w, px, py) == at(s3, w, px, py));
                if covered(e, clip, px, py) {
                    let k = choose|k: int| 0 <= k < e.len() && (#[trigger] e[k]).intersect_spec(clip).contains_spec(px, py);
                    assert(k == 0 || k == 1 || k == 2 || k == 3);
                } else {
                    assert(!e[0].intersect_spec(clip).contains_spec(px, py));
                    assert(!e[1].intersect_spec(clip).contains_spec(px, py));
                    assert(!e[2].intersect_spec(clip).contains_spec(px, py));
                    assert(!e[3].intersect_spec(clip).contains_spec(px, py));
                }
            }
        }
    }
}

} // verus!

verus! {

/// The blend position of row `y` in a vertical gradient over `rect`.
pub open spec fn gradient_t(rect: Rect, y: int) -> u8 {
    if rect.h > 1 {
        let t = (y - rect.y) * 255 / (rect.h - 1);
        (if t < 0 { 0 } else if t > 255 { 255 } else { t }) as u8
    } else {
        0
    }
}

impl Surface {
    /// A rectangle with the corner pixels knocked out, filled with `fill`
    /// and outlined with `border`. Rectangles under 3x3 are filled plainly.
    pub fn panel(&mut self, rect: Rect, fill: Color, border: Color)
        requires
            old(self).wf(),
            rect.fits(),
            rect.intersect_ok(old(self).clip),
            in_i32(rect.x + 1),
            in_i32(rect.y + 1),
            all_intersect_ok(panel_body(rect), old(self).clip),
            all_intersect_ok(panel_border(rect), old(self).clip),
        ensures
            final(self).wf(),
            final(self).width == old(self).width,
            final(self).height == old(self).height,
            final(self).clip == old(self).clip,
            final(self).pixels@.len() == old(self).pixels@.len(),
            forall|px: int, py: int|
                0 <= px < old(self).width && 0 <= py < old(self).height ==> #[trigger] final(self).at(px, py) == if rect.w < 3 || rect.h < 3 {
                    if rect.intersect_spec(old(self).clip).contains_spec(px, py) { fill } else { old(self).at(px, py) }
                } else if covered(panel_border(rect), old(self).clip, px, py) {
                    border
                } else if covered(panel_body(rect), old(self).clip, px, py) {
                    fill
                } else {
                    old(self).at(px, py)
                },
    {
        if rect.w < 3 || rect.h < 3 {
            self.fill_rect(rect, fill);
            return;
        }
        let ghost b = panel_body(rect);
        let ghost o = panel_border(rect);
        let ghost s0 = self.pixels@;
        let ghost w = self.width as int;
        let ghost h = self.height as int;
        let ghost clip = self.clip;
        assert(b[0].intersect_ok(clip) && b[1].intersect_ok(clip) && b[2].intersect_ok(clip));
        assert(o[0].intersect_ok(clip) && o[1].intersect_ok(clip) && o[2].intersect_ok(clip) && o[3].intersect_ok(clip));
        let right = rect.right();
        let bottom = rect.bottom();
        self.fill_rect(Rect::new(rect.x + 1, rect.y, rect.w - 2, rect.h), fill);
        let ghost s1 = self.pixels@;
        self.fill_rect(Rect::new(rect.x, rect.y + 1, 1, rect.h - 2), fill);
        let ghost s2 = self.pixels@;
        self.fill_rect(Rect::new(right - 1, rect.y + 1, 1, rect.h - 2), fill);
        let ghost s3 = self.pixels@;
        self.fill_rect(Rect::new(rect.x + 1, rect.y, rect.w - 2, 1), border);
        let ghost s4 = self.pixels@;
        self.fill_rect(Rect::new(rect.x + 1, bottom - 1, rect.w - 2, 1), border);
        let ghost s5 = self.pixels@;
        self.fill_rect(Rect::new(rect.x, rect.y + 1, 1, rect.h - 2), border);
        let ghost s6 = self.pixels@;
        self.fill_rect(Rect::new(right - 1, rect.y + 1, 1, rect.h - 2), border);
        proof {
            assert forall|px: int, py: int| 0 <= px < w && 0 <= py < h implies #[trigger] self.at(px, py) == if covered(o, clip, px, py) {
                border
            } else if covered(b, clip, px, py) {
                fill
            } else {
                at(s0, w, px, py)
            } by {
                assert(at(s1, w, px, py) == at(s1, w, px, py));
                assert(at(s2, w, px, py) == at(s2, w, px, py));
                assert(at(s3, w, px, py) == at(s3, w, px, py));
                assert(at(s4, w, px, py) == at(s4, w, px, py));
                assert(at(s5, w, px, py) == at(s5, w, px, py));
                assert(at(s6, w, px, py) == at(s6, w, px, py));
                if covered(o, clip, px, py) {
                    let k = choose|k: int| 0 <= k < o.len() && (#[trigger] o[k]).intersect_spec(clip).contains_spec(px, py);
                    assert(k == 0 || k == 1 || k == 2 || k == 3);
                } else {
                    assert(!o[0].intersect_spec(clip).contains_spec(px, py));
                    assert(!o[1].intersect_spec(clip).contains_spec(px, py));
                    assert(!o[2].intersect_spec(clip).contains_spec(px, py));
                    assert(!o[3].intersect_spec(clip).contains_spec(px, py));
                    if covered(b, clip, px, py) {
                        let k = choose|k: int| 0 <= k < b.len() && (#[trigger] b[k]).intersect_spec(clip).contains_spec(px, py);
                        assert(k == 0 || k == 1 || k == 2);
                    } else {
                        assert(!b[0].intersect_spec(clip).contains_spec(px, py));
                        assert(!b[1].intersect_spec(clip).contains_spec(px, py));
                        assert(!b[2].intersect_spec(clip).contains_spec(px, py));
                    }
                }
            }
        }
    }

    /// Vertical gradient from `top` at the first row of `rect` to `bottom` at its last.
    pub fn gradient_v(&mut self, rect: Rect, top: Color, bottom: Color)
        requires
            old(self).wf(),
            rect.intersect_ok(old(self).clip),
            !rect.intersect_spec(old(self).clip).empty_spec() ==> (rect.intersect_spec(old(self).clip).bottom_spec() - 1 - rect.y) * 255 <= i32::MAX,
        ensures
            final(self).wf(),
            final(self).width == old(self).width,
            final(self).height == old(self).height,
            final(self).clip == old(self).clip,
            final(self).pixels@.len() == old(self).pixels@.len(),
            forall|px: int, py: int|
                0 <= px < old(self).width && 0 <= py < old(self).height ==> #[trigger] final(self).at(px, py) == if rect.intersect_spec(old(self).clip).contains_spec(px, py) {
                    blend_value(top, bottom, gradient_t(rect, py)) as u32
                } else {
                    old(self).at(px, py)
                },
    {
        let area = rect.intersect(&self.clip);
        if area.is_empty() {
            return;
        }
        proof {
            lemma_intersect_inside(rect, self.clip, self.width as int, self.height as int);
        }
        let ghost s0 = self.pixels@;
        let ghost w = self.width as int;
        let ghost h = self.height as int;
        let bottom_row = area.bottom();
        let mut y = area.y;
        while y < bottom_row
            invariant
                self.wf(),
                self.width == w,
                self.height == h,
                self.clip == old(self).clip,
                area == rect.intersect_spec(self.clip),
                area.inside(w, h),
                !area.empty_spec(),
                (area.bottom_spec() - 1 - rect.y) * 255 <= i32::MAX,
                bottom_row == area.y + area.h,
                area.y <= y <= bottom_row,
                s0.len() == self.pixels@.len(),
                forall|px: int, py: int|
                    0 <= px < w && 0 <= py < h ==> #[trigger] at(self.pixels@, w, px, py) == if area.contains_spec(px, py) && py < y {
                        blend_value(top, bottom, gradient_t(rect, py)) as u32
                    } else {
                        at(s0, w, px, py)
                    },
            decreases bottom_row - y,
        {
            let t: u8 = if rect.h > 1 {
                let v = (y - rect.y) * 255 / (rect.h - 1);
                (if v < 0 { 0 } else if v > 255 { 255 } else { v }) as u8
            } else {
                0
            };
            let color = palette::mix(top, bottom, t);
            let ghost before = self.pixels@;
            let row = Rect::new(area.x, y, area.w, 1);
            self.paint(row, PixelOp::Fill(color));
            proof {
                assert forall|px: int, py: int| 0 <= px < w && 0 <= py < h implies #[trigger] at(self.pixels@, w, px, py) == if area.contains_spec(px, py) && py < y + 1 {
                    blend_value(top, bottom, gradient_t(rect, py)) as u32
                } else {
                    at(s0, w, px, py)
                } by {
                    assert(at(before, w, px, py) == at(before, w, px, py));
                }
            }
            y += 1;
        }
    }
}

} // verus!

verus! {

/// The disc of radius `r` about the origin, as the drawing loops visit it.
pub open spec fn in_disc(dx: int, dy: int, r: int) -> bool {
    -r <= dx <= r && -r <= dy <= r && dx * dx + dy * dy <= r * r
}

/// The ring when `ring` holds, else the disc.
pub open spec fn round_covers(ring: bool, dx: int, dy: int, r: int) -> bool {
    if ring { in_ring(dx, dy, r) } else { in_disc(dx, dy, r) }
}

proof fn lemma_radius_bounds(r: int)
    requires
        2 * r * r <= i32::MAX,
    ensures
        -32768 <= r <= 32768,
        0 <= r * r,
        2 * (r * r) <= i32::MAX,
        0 <= (r - 1) * (r - 1) <= i32::MAX,
{
    assert(0 <= r * r) by (nonlinear_arith);
    assert(2 * (r * r) == 2 * r * r) by (nonlinear_arith);
    if r > 32768 {
        assert(r * r > 32768 * 32768) by (nonlinear_arith) requires r > 32768;
    }
    if r < -32768 {
        assert(r * r > 32768 * 32768) by (nonlinear_arith) requires r < -32768;
    }
    assert(0 <= (r - 1) * (r - 1) <= 32769 * 32769) by (nonlinear_arith) requires -32768 <= r <= 32768;
}

/// The one-pixel ring of radius `r` about the origin.
pub open spec fn in_ring(dx: int, dy: int, r: int) -> bool {
    in_disc(dx, dy, r) && dx * dx + dy * dy > (r - 1) * (r - 1)
}

impl Surface {
    /// Copy `source` onto this surface at (x, y); with `key`, pixels equal
    /// to the key are left as they were.
    fn copy_from(&mut self, source: &Surface, x: i32, y: i32, key: Option<Color>)
        requires
            old(self).wf(),
            source.wf(),
            Rect::new_spec(x, y, source.width as i32, source.height as i32).intersect_ok(old(self).clip),
        ensures
            final(self).wf(),
            final(self).width == old(self).width,
            final(self).height == old(self).height,
            final(self).clip == old(self).clip,
            final(self).pixels@.len() == old(self).pixels@.len(),
            forall|px: int, py: int|
                0 <= px < old(self).width && 0 <= py < old(self).height ==> #[trigger] final(self).at(px, py) == if Rect::new_spec(x, y, source.width as i32, source.height as i32).intersect_spec(old(self).clip).contains_spec(px, py)
                    && !(key == Some(source.at(px - x, py - y))) {
                    source.at(px - x, py - y)
                } else {
                    old(self).at(px, py)
                },
    {
        let target = Rect::new(x, y, source.width as i32, source.height as i32);
        let area = target.intersect(&self.clip);
        if area.is_empty() {
            return;
        }
        proof {
            lemma_intersect_inside(target, self.clip, self.width as int, self.height as int);
        }
        let ghost s0 = self.pixels@;
        let w = self.width;
        let ghost h = self.height as int;
        let sw = source.width;
        let ghost sh = source.height as int;
        let x0 = area.x;
        let x1 = area.right();
        let y1 = area.bottom();
        let mut row = area.y;
        while row < y1
            invariant
                self.wf(),
                source.wf(),
                self.width == w,
                self.height == h,
                sw == source.width,
                sh == source.height,
                self.clip == old(self).clip,
                area == target.intersect_spec(self.clip),
                target == Rect::new_spec(x, y, source.width as i32, source.height as i32),
                area.inside(w as int, h),
                x0 == area.x,
                x1 == area.x + area.w,
                y1 == area.y + area.h,
                area.y <= row <= y1,
                s0.len() == self.pixels@.len(),
                forall|px: int, py: int|
                    0 <= px < w && 0 <= py < h ==> #[trigger] at(self.pixels@, w as int, px, py) == if area.contains_spec(px, py) && py < row
                        && !(key == Some(source.at(px - x, py - y))) {
                        source.at(px - x, py - y)
                    } else {
                        at(s0, w as int, px, py)
                    },
            decreases y1 - row,
        {
            let mut column = x0;
            while column < x1
                invariant
                    self.wf(),
                    source.wf(),
                    self.width == w,
                    self.height == h,
                    sw == source.width,
                    sh == source.height,
                    self.clip == old(self).clip,
                    area == target.intersect_spec(self.clip),
                    target == Rect::new_spec(x, y, source.width as i32, source.height as i32),
                    area.inside(w as int, h),
                    x0 == area.x,
                    x1 == area.x + area.w,
                    y1 == area.y + area.h,
                    area.y <= row < y1,
                    x0 <= column <= x1,
                    s0.len() == self.pixels@.len(),
                    forall|px: int, py: int|
                        0 <= px < w && 0 <= py < h ==> #[trigger] at(self.pixels@, w as int, px, py) == if area.contains_spec(px, py) && (py < row || (py == row && px < column))
                            && !(key == Some(source.at(px - x, py - y))) {
                            source.at(px - x, py - y)
                        } else {
                            at(s0, w as int, px, py)
                        },
                decreases x1 - column,
            {
                proof {
                    lemma_index_bound(sw as int, sh, (column - x) as int, (row - y) as int);
                    lemma_index_bound(w as int, h, column as int, row as int);
                }
                let pixel = source.pixels[(row - y) as usize * sw + (column - x) as usize];
                assert(pixel == source.at(column - x, row - y));
                assert(at(self.pixels@, w as int, column as int, row as int) == at(s0, w as int, column as int, row as int));
                let write = match key {
                    Some(k) => pixel != k,
                    None => true,
                };
                assert(write == !(key == Some(pixel)));
                let ghost before = self.pixels@;
                if write {
                    self.pixels.set(row as usize * w + column as usize, pixel);
                }
                proof {
                    assert forall|px: int, py: int| 0 <= px < w && 0 <= py < h implies #[trigger] at(self.pixels@, w as int, px, py) == if area.contains_spec(px, py) && (py < row || (py == row && px < column + 1))
                        && !(key == Some(source.at(px - x, py - y))) {
                        source.at(px - x, py - y)
                    } else {
                        at(s0, w as int, px, py)
                    } by {
                        lemma_index_bound(w as int, h, px, py);
                        assert(at(before, w as int, px, py) == at(before, w as int, px, py));
                        if px != column || py != row {
                            lemma_index_distinct(w as int, px, py, column as int, row as int);
                            assert(at(self.pixels@, w as int, px, py) == at(before, w as int, px, py));
                            assert(at(before, w as int, px, py) == if area.contains_spec(px, py) && (py < row || (py == row && px < column))
                                && !(key == Some(source.at(px - x, py - y))) {
                                source.at(px - x, py - y)
                            } else {
                                at(s0, w as int, px, py)
                            });
                        } else {
                            assert(area.contains_spec(px, py));
                            assert(source.at(px - x, py - y) == pixel);
                            if write {
                                assert(at(self.pixels@, w as int, px, py) == pixel);
                            } else {
                                assert(at(self.pixels@, w as int, px, py) == at(s0, w as int, px, py));
                            }
                        }
                    }
                }
                column += 1;
            }
            row += 1;
        }
    }

    /// Copy `source` onto this surface at (x, y).
    pub fn blit(&mut self, source: &Surface, x: i32, y: i32)
        requires
            old(self).wf(),
            source.wf(),
            Rect::new_spec(x, y, source.width as i32, source.height as i32).intersect_ok(old(self).clip),
        ensures
            final(self).wf(),
            final(self).width == old(self).width,
            final(self).height == old(self).height,
            final(self).clip == old(self).clip,
            final(self).pixels@.len() == old(self).pixels@.len(),
            forall|px: int, py: int|
                0 <= px < old(self).width && 0 <= py < old(self).height ==> #[trigger] final(self).at(px, py) == if Rect::new_spec(x, y, source.width as i32, source.height as i32).intersect_spec(old(self).clip).contains_spec(px, py) {
                    source.at(px - x, py - y)
                } else {
                    old(self).at(px, py)
                },
    {
        self.copy_from(source, x, y, None);
    }

    /// Copy `source`, treating `key` as transparent. Used for the cursor.
    pub fn blit_keyed(&mut self, source: &Surface, x: i32, y: i32, key: Color)
        requires
            old(self).wf(),
            source.wf(),
            Rect::new_spec(x, y, source.width as i32, source.height as i32).intersect_ok(old(self).clip),
        ensures
            final(self).wf(),
            final(self).width == old(self).width,
            final(self).height == old(self).height,
            final(self).clip == old(self).clip,
            final(self).pixels@.len() == old(self).pixels@.len(),
            forall|px: int, py: int|
                0 <= px < old(self).width && 0 <= py < old(self).height ==> #[trigger] final(self).at(px, py) == if Rect::new_spec(x, y, source.width as i32, source.height as i32).intersect_spec(old(self).clip).contains_spec(px, py)
                    && source.at(px - x, py - y) != key {
                    source.at(px - x, py - y)
                } else {
                    old(self).at(px, py)
                },
    {
        self.copy_from(source, x, y, Some(key));
    }

    /// Plot every offset (dx, dy) of the square of half-side `radius` that
    /// `ring` (or the disc, without it) admits.
    fn round_shape(&mut self, cx: i32, cy: i32, radius: i32, color: Color, ring: bool)
        requires
            old(self).wf(),
            2 * radius * radius <= i32::MAX,
            in_i32(cx - radius) && in_i32(cx + radius),
            in_i32(cy - radius) && in_i32(cy + radius),
            in_i32(radius - 1),
        ensures
            final(self).wf(),
            final(self).width == old(self).width,
            final(self).height == old(self).height,
            final(self).clip == old(self).clip,
            final(self).pixels@.len() == old(self).pixels@.len(),
            forall|px: int, py: int|
                0 <= px < old(self).width && 0 <= py < old(self).height ==> #[trigger] final(self).at(px, py) == if old(self).clip.contains_spec(px, py)
                    && (if ring { in_ring(px - cx, py - cy, radius as int) } else { in_disc(px - cx, py - cy, radius as int) }) {
                    color
                } else {
                    old(self).at(px, py)
                },
    {
        let ghost s0 = self.pixels@;
        let ghost w = self.width as int;
        let ghost h = self.height as int;
        let ghost clip = self.clip;
        proof {
            lemma_radius_bounds(radius as int);
        }
        let r2 = radius * radius;
        let inner = (radius - 1) * (radius - 1);
        let mut y = -radius;
        while y <= radius
            invariant
                self.wf(),
                self.width == w,
                self.height == h,
                self.clip == clip,
                s0.len() == self.pixels@.len(),
                2 * r2 <= i32::MAX,
                r2 == radius * radius,
                -32768 <= radius <= 32768,
                inner == (radius - 1) * (radius - 1),
                in_i32(cx - radius) && in_i32(cx + radius),
                in_i32(cy - radius) && in_i32(cy + radius),
                -radius <= y,
                y <= radius + 1 || radius < 0,
                forall|px: int, py: int|
                    0 <= px < w && 0 <= py < h ==> #[trigger] at(self.pixels@, w, px, py) == if clip.contains_spec(px, py) && round_covers(ring, px - cx, py - cy, radius as int) && py - cy < y {
                        color
                    } else {
                        at(s0, w, px, py)
                    },
            decreases radius + 1 - y,
        {
            let mut x = -radius;
            while x <= radius
                invariant
                    self.wf(),
                    self.width == w,
                    self.height == h,
                    self.clip == clip,
                    s0.len() == self.pixels@.len(),
                    2 * r2 <= i32::MAX,
                    r2 == radius * radius,
                    -32768 <= radius <= 32768,
                    inner == (radius - 1) * (radius - 1),
                    in_i32(cx - radius) && in_i32(cx + radius),
                    in_i32(cy - radius) && in_i32(cy + radius),
                    -radius <= y <= radius,
                    -radius <= x <= radius + 1,
                    forall|px: int, py: int|
                        0 <= px < w && 0 <= py < h ==> #[trigger] at(self.pixels@, w, px, py) == if clip.contains_spec(px, py) && round_covers(ring, px - cx, py - cy, radius as int)
                            && (py - cy < y || (py - cy == y && px - cx < x)) {
                            color
                        } else {
                            at(s0, w, px, py)
                        },
                decreases radius + 1 - x,
            {
                proof {
                    assert(x * x <= radius * radius) by (nonlinear_arith) requires -radius <= x <= radius;
                    assert(y * y <= radius * radius) by (nonlinear_arith) requires -radius <= y <= radius;
                    assert(0 <= x * x) by (nonlinear_arith);
                    assert(0 <= y * y) by (nonlinear_arith);
                }
                let d = x * x + y * y;
                let inside = if ring { d <= r2 && d > inner } else { d <= r2 };
                let ghost before = self.pixels@;
                assert(inside == round_covers(ring, x as int, y as int, radius as int));
                if inside {
                    self.pixel(cx + x, cy + y, color);
                }
                proof {
                    assert forall|px: int, py: int| 0 <= px < w && 0 <= py < h implies #[trigger] at(self.pixels@, w, px, py) == if clip.contains_spec(px, py) && round_covers(ring, px - cx, py - cy, radius as int)
                        && (py - cy < y || (py - cy == y && px - cx < x + 1)) {
                        color
                    } else {
                        at(s0, w, px, py)
                    } by {
                        assert(at(before, w, px, py) == at(before, w, px, py));
                    }
                }
                x += 1;
            }
            y += 1;
        }
    }

    /// A filled disc.
    pub fn disc(&mut self, cx: i32, cy: i32, radius: i32, color: Color)
        requires
            old(self).wf(),
            2 * radius * radius <= i32::MAX,
            in_i32(cx - radius) && in_i32(cx + radius),
            in_i32(cy - radius) && in_i32(cy + radius),
            in_i32(radius - 1),
        ensures
            final(self).wf(),
            final(self).width == old(self).width,
            final(self).height == old(self).height,
            final(self).clip == old(self).clip,
            final(self).pixels@.len() == old(self).pixels@.len(),
            forall|px: int, py: int|
                0 <= px < old(self).width && 0 <= py < old(self).height ==> #[trigger] final(self).at(px, py) == if old(self).clip.contains_spec(px, py)
                    && in_disc(px - cx, py - cy, radius as int) {
                    color
                } else {
                    old(self).at(px, py)
                },
    {
        self.round_shape(cx, cy, radius, color, false);
    }

    /// A one-pixel circle.
    pub fn circle(&mut self, cx: i32, cy: i32, radius: i32, color: Color)
        requires
            old(self).wf(),
            2 * radius * radius <= i32::MAX,
            in_i32(cx - radius) && in_i32(cx + radius),
            in_i32(cy - radius) && in_i32(cy + radius),
            in_i32(radius - 1),
        ensures
            final(self).wf(),
            final(self).width == old(self).width,
            final(self).height == old(self).height,
            final(self).clip == old(self).clip,
            final(self).pixels@.len() == old(self).pixels@.len(),
            forall|px: int, py: int|
                0 <= px < old(self).width && 0 <= py < old(self).height ==> #[trigger] final(self).at(px, py) == if old(self).clip.contains_spec(px, py)
                    && in_ring(px - cx, py - cy, radius as int) {
                    color
                } else {
                    old(self).at(px, py)
                },
    {
        self.round_shape(cx, cy, radius, color, true);
    }
}

} // verus!

verus! {

/// Two rectangles lying inside the same surface can be intersected.
pub proof fn lemma_inside_intersect_ok(a: Rect, b: Rect, width: int, height: int)
    requires
        a.inside(width, height),
        b.inside(width, height),
        width <= i32::MAX,
        height <= i32::MAX,
    ensures
        a.intersect_ok(b),
{
}

/// What `scroll_up` leaves at (px, py) before the gap is filled.
pub open spec fn scrolled(s: Surface, area: Rect, lines: int, px: int, py: int) -> u32 {
    if area.contains_spec(px, py) && py < area.y + area.h - lines {
        s.at(px, py + lines)
    } else {
        s.at(px, py)
    }
}

impl Surface {
    /// Scroll the contents of `rect` up by `lines` pixels, filling the gap.
    pub fn scroll_up(&mut self, rect: Rect, lines: i32, fill: Color)
        requires
            old(self).wf(),
            rect.intersect_ok(old(self).bounds_spec()),
            in_i32(rect.intersect_spec(old(self).bounds_spec()).bottom_spec() - lines),
        ensures
            final(self).wf(),
            final(self).width == old(self).width,
            final(self).height == old(self).height,
            final(self).clip == old(self).clip,
            final(self).pixels@.len() == old(self).pixels@.len(),
            forall|px: int, py: int|
                0 <= px < old(self).width && 0 <= py < old(self).height ==> #[trigger] final(self).at(px, py) == ({
                    let area = rect.intersect_spec(old(self).bounds_spec());
                    if area.empty_spec() || lines <= 0 {
                        old(self).at(px, py)
                    } else if lines >= area.h {
                        if area.intersect_spec(old(self).clip).contains_spec(px, py) { fill } else { old(self).at(px, py) }
                    } else if Rect::new_spec(area.x, (area.y + area.h - lines) as i32, area.w, lines).intersect_spec(old(self).clip).contains_spec(px, py) {
                        fill
                    } else {
                        scrolled(*old(self), area, lines as int, px, py)
                    }
                }),
    {
        let bounds = self.bounds();
        let area = rect.intersect(&bounds);
        if area.is_empty() || lines <= 0 {
            return;
        }
        proof {
            lemma_intersect_inside(rect, bounds, self.width as int, self.height as int);
            lemma_inside_intersect_ok(area, self.clip, self.width as int, self.height as int);
        }
        if lines >= area.h {
            self.fill_rect(area, fill);
            return;
        }
        let ghost s0 = *self;
        let w = self.width;
        let ghost h = self.height as int;
        let x0 = area.x;
        let x1 = area.right();
        let last = area.bottom() - lines;
        let mut y = area.y;
        while y < last
            invariant
                self.wf(),
                s0.wf(),
                self.width == w,
                self.height == h,
                s0.width == w,
                s0.height == h,
                self.clip == s0.clip,
                area.inside(w as int, h),
                0 < lines < area.h,
                x0 == area.x,
                x1 == area.x + area.w,
                last == area.y + area.h - lines,
                area.y <= y <= last,
                s0.pixels@.len() == self.pixels@.len(),
                forall|px: int, py: int|
                    0 <= px < w && 0 <= py < h ==> #[trigger] at(self.pixels@, w as int, px, py) == if py < y {
                        scrolled(s0, area, lines as int, px, py)
                    } else {
                        s0.at(px, py)
                    },
            decreases last - y,
        {
            let mut x = x0;
            while x < x1
                invariant
                    self.wf(),
                    s0.wf(),
                    self.width == w,
                    self.height == h,
                    s0.width == w,
                    s0.height == h,
                    self.clip == s0.clip,
                    area.inside(w as int, h),
                    0 < lines < area.h,
                    x0 == area.x,
                    x1 == area.x + area.w,
                    last == area.y + area.h - lines,
                    area.y <= y < last,
                    x0 <= x <= x1,
                    s0.pixels@.len() == self.pixels@.len(),
                    forall|px: int, py: int|
                        0 <= px < w && 0 <= py < h ==> #[trigger] at(self.pixels@, w as int, px, py) == if py < y || (py == y && px < x) {
                            scrolled(s0, area, lines as int, px, py)
                        } else {
                            s0.at(px, py)
                        },
                decreases x1 - x,
            {
                proof {
                    lemma_index_bound(w as int, h, x as int, (y + lines) as int);
                    lemma_index_bound(w as int, h, x as int, y as int);
                }
                let value = self.pixels[(y + lines) as usize * w + x as usize];
                assert(at(self.pixels@, w as int, x as int, (y + lines) as int) == s0.at(x as int, (y + lines) as int));
                let ghost before = self.pixels@;
                self.pixels.set(y as usize * w + x as usize, value);
                proof {
                    assert forall|px: int, py: int| 0 <= px < w && 0 <= py < h implies #[trigger] at(self.pixels@, w as int, px, py) == if py < y || (py == y && px < x + 1) {
                        scrolled(s0, area, lines as int, px, py)
                    } else {
                        s0.at(px, py)
                    } by {
                        lemma_index_bound(w as int, h, px, py);
                        if px != x || py != y {
                            lemma_index_distinct(w as int, px, py, x as int, y as int);
                            assert(at(self.pixels@, w as int, px, py) == at(before, w as int, px, py));
                        }
                    }
                }
                x += 1;
            }
            proof {
                assert forall|px: int, py: int| 0 <= px < w && 0 <= py < h implies #[trigger] at(self.pixels@, w as int, px, py) == if py < y + 1 {
                    scrolled(s0, area, lines as int, px, py)
                } else {
                    s0.at(px, py)
                } by {
                    if py == y && !(px < x1) {
                        assert(scrolled(s0, area, lines as int, px, py) == s0.at(px, py));
                    }
                    if py == y && px < x0 {
                        assert(scrolled(s0, area, lines as int, px, py) == s0.at(px, py));
                    }
                }
            }
            y += 1;
        }
        let ghost s1 = self.pixels@;
        proof {
            assert forall|px: int, py: int| 0 <= px < w && 0 <= py < h implies #[trigger] at(s1, w as int, px, py) == scrolled(s0, area, lines as int, px, py) by {
                assert(at(s1, w as int, px, py) == at(s1, w as int, px, py));
            }
            let gap = Rect::new_spec(area.x, (area.y + area.h - lines) as i32, area.w, lines);
            assert(gap.inside(w as int, h));
            lemma_inside_intersect_ok(gap, self.clip, w as int, h);
        }
        self.fill_rect(Rect::new(area.x, last, area.w, lines), fill);
    }
}

} // verus!
