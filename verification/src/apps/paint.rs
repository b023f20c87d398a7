//! A drawing pad: mostly here to prove the mouse works properly.

use vstd::prelude::*;

verus! {

use crate::gfx::draw::{Rect, Surface, in_disc, in_i32};
use crate::gfx::palette::{Color, AMBER, CYAN, ERROR, OK, TEXT_BRIGHT, TEXT_DIM, VIOLET, WARN};
use crate::input::{Key, KeyEvent};
use crate::apps::WindowMouse;
use crate::num::quot;

pub const TOOLBAR: i32 = 26;

/// The canvas colour.
pub const BACKGROUND: Color = 0x000A_0E18;

/// How far from the origin a point may be for strokes to be worked out.
pub const REACH: i32 = 0x4000;

/// The ten colours on the toolbar.
pub open spec fn swatch(i: int) -> Color {
    if i == 0 {
        AMBER
    } else if i == 1 {
        CYAN
    } else if i == 2 {
        OK
    } else if i == 3 {
        WARN
    } else if i == 4 {
        ERROR
    } else if i == 5 {
        VIOLET
    } else if i == 6 {
        TEXT_BRIGHT
    } else if i == 7 {
        TEXT_DIM
    } else if i == 8 {
        0x005A_9BFF
    } else {
        BACKGROUND
    }
}

pub fn swatch_color(i: usize) -> (c: Color)
    requires
        i < 10,
    ensures
        c == swatch(i as int),
{
    if i == 0 {
        AMBER
    } else if i == 1 {
        CYAN
    } else if i == 2 {
        OK
    } else if i == 3 {
        WARN
    } else if i == 4 {
        ERROR
    } else if i == 5 {
        VIOLET
    } else if i == 6 {
        TEXT_BRIGHT
    } else if i == 7 {
        TEXT_DIM
    } else if i == 8 {
        0x005A_9BFF
    } else {
        BACKGROUND
    }
}

pub open spec fn abs(v: int) -> int {
    if v < 0 { -v } else { v }
}

/// How many steps a stroke from (px, py) to (x, y) takes: one per pixel
/// along its longer side, and at least one.
pub open spec fn steps(px: int, py: int, x: int, y: int) -> int {
    let a = abs(px - x);
    let b = abs(py - y);
    let m = if a > b { a } else { b };
    if m > 1 { m } else { 1 }
}

/// Point `s` of the stroke from (px, py) to (x, y), so that fast mouse
/// movement leaves no gaps.
pub open spec fn stroke_point(px: int, py: int, x: int, y: int, s: int) -> (int, int) {
    let n = steps(px, py, x, y);
    (px + quot((x - px) * s, n), py + quot((y - py) * s, n))
}

/// (qx, qy) is covered by a brush of radius `r` dabbed at some point of the
/// stroke from (px, py) to (x, y).
pub open spec fn on_stroke(px: int, py: int, x: int, y: int, r: int, qx: int, qy: int) -> bool {
    exists|s: int| 0 <= s <= steps(px, py, x, y)
        && #[trigger] in_disc(qx - stroke_point(px, py, x, y, s).0, qy - stroke_point(px, py, x, y, s).1, r)
}

pub open spec fn within_reach(x: int, y: int) -> bool {
    -REACH <= x <= REACH && -REACH <= y <= REACH
}

pub struct Paint {
    pub canvas: Surface,
    /// The swatch in use.
    pub color: usize,
    /// The brush radius.
    pub brush: i32,
    /// Where the last stroke ended, while the button is held.
    pub last: Option<(i32, i32)>,
    pub dirty: bool,
}

fn divide(a: i32, b: i32) -> (q: i32)
    requires
        b > 0,
        -0x4000_0000 <= a <= 0x4000_0000,
    ensures
        q == quot(a as int, b as int),
{
    let q = crate::num::divide(a as i64, b as i64);
    proof {
        if a >= 0 {
            assert(quot(a as int, b as int) == a / b);
            assert(a / b <= a) by (nonlinear_arith) requires a >= 0, b > 0;
        } else {
            let ma: int = -(a as int);
            assert(quot(a as int, b as int) == -(ma / (b as int)));
            assert(ma / (b as int) <= ma) by (nonlinear_arith) requires ma > 0, b > 0;
        }
    }
    q as i32
}

impl Paint {
    pub open spec fn wf(&self) -> bool {
        &&& self.canvas.wf()
        &&& self.color < 10
        &&& 1 <= self.brush <= 24
        &&& self.last matches Some(p) ==> within_reach(p.0 as int, p.1 as int)
    }

    pub fn new() -> (p: Paint)
        ensures
            p.wf(),
            p.canvas.width == 1 && p.canvas.height == 1,
            p.canvas.at(0, 0) == BACKGROUND,
            p.color == 0 && p.brush == 3 && p.last is None && p.dirty,
    {
        let mut canvas = Surface::new(1, 1);
        canvas.clear(BACKGROUND);
        Paint { canvas, color: 0, brush: 3, last: None, dirty: true }
    }

    /// Size the canvas to the window, keeping what has been drawn.
    pub fn ensure_canvas(&mut self, width: usize, height: usize)
        requires
            old(self).wf(),
            width <= i32::MAX,
            height <= i32::MAX,
            width * height <= usize::MAX,
        ensures
            final(self).wf(),
            final(self).canvas.width == width,
            final(self).canvas.height == height,
            final(self).color == old(self).color,
            final(self).brush == old(self).brush,
            final(self).last == old(self).last,
            (old(self).canvas.width == width && old(self).canvas.height == height) ==> {
                &&& final(self).canvas == old(self).canvas
                &&& final(self).dirty == old(self).dirty
            },
            !(old(self).canvas.width == width && old(self).canvas.height == height) ==> final(self).dirty,
            forall|px: int, py: int| 0 <= px < width && 0 <= py < height ==> #[trigger] final(self).canvas.at(px, py)
                == if px < old(self).canvas.width && py < old(self).canvas.height {
                    old(self).canvas.at(px, py)
                } else {
                    BACKGROUND
                },
    {
        if self.canvas.width != width || self.canvas.height != height {
            let mut replacement = Surface::new(width, height);
            replacement.clear(BACKGROUND);
            let ghost cleared = replacement;
            replacement.blit(&self.canvas, 0, 0);
            proof {
                assert forall|px: int, py: int| 0 <= px < width && 0 <= py < height implies #[trigger] replacement.at(px, py)
                    == if px < old(self).canvas.width && py < old(self).canvas.height {
                        old(self).canvas.at(px, py)
                    } else {
                        BACKGROUND
                    } by {
                    assert(0 <= py * width + px < width * height) by (nonlinear_arith)
                        requires 0 <= px < width, 0 <= py < height;
                    assert(cleared.pixels@[py * width + px] == BACKGROUND);
                }
            }
            self.canvas = replacement;
            self.dirty = true;
        }
    }

    /// Dab the brush at (x, y) or, while the button is held, along the line
    /// from where the last stroke ended.
    pub fn stroke(&mut self, x: i32, y: i32)
        requires
            old(self).wf(),
            within_reach(x as int, y as int),
        ensures
            final(self).wf(),
            final(self).canvas.width == old(self).canvas.width,
            final(self).canvas.height == old(self).canvas.height,
            final(self).color == old(self).color,
            final(self).brush == old(self).brush,
            final(self).last == Some((x, y)),
            final(self).dirty,
            forall|qx: int, qy: int| 0 <= qx < old(self).canvas.width && 0 <= qy < old(self).canvas.height
                ==> #[trigger] final(self).canvas.at(qx, qy) == if old(self).canvas.clip.contains_spec(qx, qy) && (match old(self).last {
                    Some(p) => on_stroke(p.0 as int, p.1 as int, x as int, y as int, old(self).brush as int, qx, qy),
                    None => in_disc(qx - x, qy - y, old(self).brush as int),
                }) {
                    swatch(old(self).color as int)
                } else {
                    old(self).canvas.at(qx, qy)
                },
    {
        let color = swatch_color(self.color);
        let r = self.brush;
        proof {
            assert(2 * r * r <= 2 * 24 * 24) by (nonlinear_arith) requires 1 <= r <= 24;
        }
        match self.last {
            Some((px, py)) => {
                let a = if px > x { px - x } else { x - px };
                let b = if py > y { py - y } else { y - py };
                let m = if a > b { a } else { b };
                let n = if m > 1 { m } else { 1 };
                let mut step: i32 = 0;
                while step <= n
                    invariant
                        self.canvas.wf(),
                        self.canvas.width == old(self).canvas.width,
                        self.canvas.height == old(self).canvas.height,
                        self.canvas.clip == old(self).canvas.clip,
                        within_reach(px as int, py as int),
                        within_reach(x as int, y as int),
                        1 <= r <= 24,
                        2 * r * r <= 2 * 24 * 24,
                        r == old(self).brush,
                        self.color == old(self).color,
                        self.brush == old(self).brush,
                        self.last == old(self).last,
                        self.color < 10,
                        color == swatch(old(self).color as int),
                        n == steps(px as int, py as int, x as int, y as int),
                        1 <= n <= 2 * REACH,
                        0 <= step <= n + 1,
                        forall|qx: int, qy: int| 0 <= qx < old(self).canvas.width && 0 <= qy < old(self).canvas.height
                            ==> #[trigger] self.canvas.at(qx, qy) == if old(self).canvas.clip.contains_spec(qx, qy)
                                && exists|s: int| 0 <= s < step && #[trigger] in_disc(
                                    qx - stroke_point(px as int, py as int, x as int, y as int, s).0,
                                    qy - stroke_point(px as int, py as int, x as int, y as int, s).1, r as int) {
                                color
                            } else {
                                old(self).canvas.at(qx, qy)
                            },
                    decreases n + 1 - step,
                {
                    proof {
                        assert(-2 * REACH * n <= (x - px) * step <= 2 * REACH * n) by (nonlinear_arith)
                            requires -2 * REACH <= x - px <= 2 * REACH, 0 <= step <= n;
                        assert(-2 * REACH * n <= (y - py) * step <= 2 * REACH * n) by (nonlinear_arith)
                            requires -2 * REACH <= y - py <= 2 * REACH, 0 <= step <= n;
                        assert(2 * REACH * n <= 0x4000_0000) by (nonlinear_arith) requires n <= 2 * REACH;
                    }
                    let dx = divide((x - px) * step, n);
                    let dy = divide((y - py) * step, n);
                    proof {
                        assert(abs(quot(((x - px) * step) as int, n as int)) <= abs((x - px) as int)) by {
                            lemma_quot_bound(((x - px) * step) as int, n as int, (x - px) as int, step as int);
                        }
                        assert(abs(quot(((y - py) * step) as int, n as int)) <= abs((y - py) as int)) by {
                            lemma_quot_bound(((y - py) * step) as int, n as int, (y - py) as int, step as int);
                        }
                    }
                    let ix = px + dx;
                    let iy = py + dy;
                    let ghost before = self.canvas;
                    self.canvas.disc(ix, iy, r, color);
                    proof {
                        let (sx, sy) = stroke_point(px as int, py as int, x as int, y as int, step as int);
                        assert(sx == ix && sy == iy);
                        assert forall|qx: int, qy: int| 0 <= qx < old(self).canvas.width && 0 <= qy < old(self).canvas.height
                            implies #[trigger] self.canvas.at(qx, qy) == if old(self).canvas.clip.contains_spec(qx, qy)
                                && exists|s: int| 0 <= s < step + 1 && #[trigger] in_disc(
                                    qx - stroke_point(px as int, py as int, x as int, y as int, s).0,
                                    qy - stroke_point(px as int, py as int, x as int, y as int, s).1, r as int) {
                                color
                            } else {
                                old(self).canvas.at(qx, qy)
                            } by {
                            let here = in_disc(qx - sx, qy - sy, r as int);
                            if here {
                                assert(in_disc(qx - stroke_point(px as int, py as int, x as int, y as int, step as int).0,
                                    qy - stroke_point(px as int, py as int, x as int, y as int, step as int).1, r as int));
                            }
                            if exists|s: int| 0 <= s < step + 1 && #[trigger] in_disc(
                                qx - stroke_point(px as int, py as int, x as int, y as int, s).0,
                                qy - stroke_point(px as int, py as int, x as int, y as int, s).1, r as int) {
                                let s = choose|s: int| 0 <= s < step + 1 && #[trigger] in_disc(
                                    qx - stroke_point(px as int, py as int, x as int, y as int, s).0,
                                    qy - stroke_point(px as int, py as int, x as int, y as int, s).1, r as int);
                                if s < step {
                                    assert(exists|s2: int| 0 <= s2 < step && #[trigger] in_disc(
                                        qx - stroke_point(px as int, py as int, x as int, y as int, s2).0,
                                        qy - stroke_point(px as int, py as int, x as int, y as int, s2).1, r as int));
                                }
                            }
                        }
                    }
                    step += 1;
                }
                proof {
                    assert forall|qx: int, qy: int| 0 <= qx < old(self).canvas.width && 0 <= qy < old(self).canvas.height
                        implies (exists|s: int| 0 <= s < step && #[trigger] in_disc(
                            qx - stroke_point(px as int, py as int, x as int, y as int, s).0,
                            qy - stroke_point(px as int, py as int, x as int, y as int, s).1, r as int))
                        == on_stroke(px as int, py as int, x as int, y as int, r as int, qx, qy) by {
                    }
                }
            },
            None => {
                self.canvas.disc(x, y, r, color);
            },
        }
        self.last = Some((x, y));
        self.dirty = true;
    }

    /// The pointer: a click on the toolbar picks a colour; dragging with
    /// the left button paints; letting go ends the stroke.
    pub fn on_mouse(&mut self, event: &WindowMouse)
        requires
            old(self).wf(),
            within_reach(event.x as int, event.y as int),
        ensures
            final(self).wf(),
            final(self).brush == old(self).brush,
            event.released ==> final(self).last is None && final(self).canvas == old(self).canvas
                && final(self).color == old(self).color && final(self).dirty == old(self).dirty,
            (!event.released && event.y < TOOLBAR) ==> {
                let index = quot(event.x - 6, 22);
                &&& final(self).canvas == old(self).canvas
                &&& final(self).last == old(self).last
                &&& (event.pressed && 0 <= index < 10) ==> final(self).color == index && final(self).dirty
                &&& !(event.pressed && 0 <= index < 10) ==> final(self).color == old(self).color
                    && final(self).dirty == old(self).dirty
            },
            (!event.released && event.y >= TOOLBAR && !event.left) ==> final(self).last is None
                && final(self).canvas == old(self).canvas && final(self).color == old(self).color
                && final(self).dirty == old(self).dirty,
            (!event.released && event.y >= TOOLBAR && event.left) ==> {
                &&& final(self).last == Some((event.x, (event.y - TOOLBAR) as i32))
                &&& final(self).color == old(self).color
                &&& final(self).dirty
                &&& final(self).canvas.width == old(self).canvas.width
                &&& final(self).canvas.height == old(self).canvas.height
                &&& forall|qx: int, qy: int| 0 <= qx < old(self).canvas.width && 0 <= qy < old(self).canvas.height
                    ==> #[trigger] final(self).canvas.at(qx, qy) == if old(self).canvas.clip.contains_spec(qx, qy) && (match (if event.pressed { None } else { old(self).last }) {
                        Some(p) => on_stroke(p.0 as int, p.1 as int, event.x as int, event.y - TOOLBAR, old(self).brush as int, qx, qy),
                        None => in_disc(qx - event.x, qy - (event.y - TOOLBAR), old(self).brush as int),
                    }) {
                        swatch(old(self).color as int)
                    } else {
                        old(self).canvas.at(qx, qy)
                    }
            },
    {
        if event.released {
            self.last = None;
            return;
        }
        if event.y < TOOLBAR {
            if event.pressed {
                let index = divide(event.x - 6, 22);
                if index >= 0 && index < 10 {
                    self.color = index as usize;
                    self.dirty = true;
                }
            }
            return;
        }
        if event.left {
            if event.pressed {
                self.last = None;
            }
            self.stroke(event.x, event.y - TOOLBAR);
        } else {
            self.last = None;
        }
    }

    /// `c` clears, `[` and `]` size the brush, a digit picks a colour, and
    /// Escape ends the stroke.
    pub fn on_key(&mut self, event: &KeyEvent)
        requires
            old(self).wf(),
        ensures
            final(self).wf(),
            final(self).canvas.width == old(self).canvas.width,
            final(self).canvas.height == old(self).canvas.height,
            !event.pressed ==> *final(self) == *old(self),
            event.pressed ==> {
                let ch = event.character;
                &&& final(self).last == if event.key == Key::Escape { None } else { old(self).last }
                &&& final(self).brush == if ch == Some('[') {
                    if old(self).brush > 1 { old(self).brush - 1 } else { 1 }
                } else if ch == Some(']') {
                    if old(self).brush < 24 { old(self).brush + 1 } else { 24 }
                } else {
                    old(self).brush as int
                }
                &&& final(self).color == match ch {
                    Some(d) => if '0' <= d <= '9' { (d as int) - ('0' as int) } else { old(self).color as int },
                    None => old(self).color as int,
                }
                &&& (ch == Some('c')) ==> forall|qx: int, qy: int| 0 <= qx < old(self).canvas.width
                    && 0 <= qy < old(self).canvas.height ==> #[trigger] final(self).canvas.at(qx, qy) == BACKGROUND
                &&& (ch != Some('c')) ==> final(self).canvas == old(self).canvas
                &&& final(self).dirty == (old(self).dirty || (ch matches Some(c) && (c == 'c' || c == '[' || c == ']'
                    || ('0' <= c <= '9'))))
            },
    {
        if !event.pressed {
            return;
        }
        match event.character {
            Some(ch) => {
                if ch == 'c' {
                    self.canvas.clear(BACKGROUND);
                    self.dirty = true;
                    proof {
                        assert forall|qx: int, qy: int| 0 <= qx < old(self).canvas.width && 0 <= qy < old(self).canvas.height
                            implies #[trigger] self.canvas.at(qx, qy) == BACKGROUND by {
                            let w = old(self).canvas.width as int;
                            let h = old(self).canvas.height as int;
                            assert(0 <= qy * w + qx < w * h) by (nonlinear_arith) requires 0 <= qx < w, 0 <= qy < h;
                        }
                    }
                } else if ch == '[' {
                    self.brush = if self.brush > 1 { self.brush - 1 } else { 1 };
                    self.dirty = true;
                } else if ch == ']' {
                    self.brush = if self.brush < 24 { self.brush + 1 } else { 24 };
                    self.dirty = true;
                } else if '0' <= ch && ch <= '9' {
                    self.color = (ch as u32 - '0' as u32) as usize;
                    self.dirty = true;
                }
            },
            None => {},
        }
        if event.key == Key::Escape {
            self.last = None;
        }
    }

    pub fn dirty(&self) -> (d: bool)
        ensures
            d == self.dirty,
    {
        self.dirty
    }

    pub fn clear_dirty(&mut self)
        requires
            old(self).wf(),
        ensures
            final(self).wf(),
            !final(self).dirty,
            final(self).canvas == old(self).canvas,
            final(self).color == old(self).color,
            final(self).brush == old(self).brush,
            final(self).last == old(self).last,
    {
        self.dirty = false;
    }

    pub fn min_size(&self) -> (r: (i32, i32))
        ensures
            r == (320i32, 220i32),
    {
        (320, 220)
    }
}

proof fn lemma_quot_bound(a: int, n: int, d: int, s: int)
    requires
        n >= 1,
        0 <= s <= n,
        a == d * s,
    ensures
        abs(quot(a, n)) <= abs(d),
{
    let ma = abs(a);
    assert(ma == abs(d) * s) by (nonlinear_arith) requires a == d * s, s >= 0, ma == abs(a);
    assert(abs(d) * s <= abs(d) * n) by (nonlinear_arith) requires 0 <= s <= n, abs(d) >= 0;
    assert(ma / n <= abs(d)) by (nonlinear_arith) requires 0 <= ma <= abs(d) * n, n >= 1;
}

} // verus!
