//! Scenes: what a window draws, as a list of drawing operations.
//!
//! An application works out its scene from its state; `paint` carries it
//! out on a surface, one operation after another. An operation whose
//! coordinates would take the arithmetic out of range is skipped.

use vstd::prelude::*;

verus! {

use crate::gfx::draw::{Rect, Surface, at, covered, edges, all_intersect_ok, in_disc, in_i32, gradient_t};
use crate::gfx::font::{Font, Weight, text_covers, text_fits, glyph_covers, glyph_fits};
use crate::gfx::palette::{Color, blend_value};
use vstd::string::StrSliceExecFns;

/// A drawing operation.
pub enum Paint {
    /// Every pixel, whatever the clip.
    Clear(Color),
    Fill(Rect, Color),
    /// A fill mixed over what is there, with this opacity.
    Blend(Rect, Color, u8),
    /// A one-pixel outline just inside the rectangle.
    Stroke(Rect, Color),
    /// A line from (x, y) this long, across or down.
    HLine(i32, i32, i32, Color),
    VLine(i32, i32, i32, Color),
    /// A vertical gradient between two colours.
    Gradient(Rect, Color, Color),
    /// Text with its top-left corner at (x, y), in a weight, at a scale.
    Text(String, i32, i32, Color, Weight, i32),
    /// Text centred on x.
    Centered(String, i32, i32, Color, Weight),
    /// One glyph, in a weight, at a scale.
    Glyph(u8, i32, i32, Color, Weight, i32),
    /// A filled disc about (x, y) of this radius.
    Disc(i32, i32, i32, Color),
    /// Confine what follows to this rectangle (within the surface).
    Clip(Rect),
    /// Go back to the clip the scene started with.
    Unclip,
}

/// A drawing operation as plain values.
pub enum Op {
    Clear(Color),
    Fill(Rect, Color),
    Blend(Rect, Color, u8),
    Stroke(Rect, Color),
    HLine(i32, i32, i32, Color),
    VLine(i32, i32, i32, Color),
    Gradient(Rect, Color, Color),
    Text(Seq<char>, i32, i32, Color, Weight, i32),
    Centered(Seq<char>, i32, i32, Color, Weight),
    Glyph(u8, i32, i32, Color, Weight, i32),
    Disc(i32, i32, i32, Color),
    Clip(Rect),
    Unclip,
}

pub open spec fn op_view(p: Paint) -> Op {
    match p {
        Paint::Clear(c) => Op::Clear(c),
        Paint::Fill(r, c) => Op::Fill(r, c),
        Paint::Blend(r, c, a) => Op::Blend(r, c, a),
        Paint::Stroke(r, c) => Op::Stroke(r, c),
        Paint::HLine(x, y, l, c) => Op::HLine(x, y, l, c),
        Paint::VLine(x, y, l, c) => Op::VLine(x, y, l, c),
        Paint::Gradient(r, a, b) => Op::Gradient(r, a, b),
        Paint::Text(t, x, y, c, w, s) => Op::Text(t@, x, y, c, w, s),
        Paint::Centered(t, x, y, c, w) => Op::Centered(t@, x, y, c, w),
        Paint::Glyph(g, x, y, c, w, s) => Op::Glyph(g, x, y, c, w, s),
        Paint::Disc(x, y, r, c) => Op::Disc(x, y, r, c),
        Paint::Clip(r) => Op::Clip(r),
        Paint::Unclip => Op::Unclip,
    }
}

pub open spec fn ops_view(v: Seq<Paint>) -> Seq<Op> {
    v.map_values(|p: Paint| op_view(p))
}

pub proof fn lemma_ops_push(v: Seq<Paint>, p: Paint)
    ensures
        ops_view(v.push(p)) == ops_view(v).push(op_view(p)),
{
    assert(ops_view(v.push(p)) =~= ops_view(v).push(op_view(p)));
}

/// The line from (x, y), `len` long, across (or down).
pub open spec fn hline_rect(x: i32, y: i32, len: i32) -> Rect {
    Rect::new_spec(x, y, len, 1)
}

pub open spec fn vline_rect(x: i32, y: i32, len: i32) -> Rect {
    Rect::new_spec(x, y, 1, len)
}

/// Where centred text starts.
pub open spec fn centred_x(t: Seq<char>, cx: i32) -> int {
    cx - (t.len() * 8) / 2
}

/// The operation can be carried out against `clip` on a `w` x `h`
/// surface without the arithmetic leaving its range.
pub open spec fn fits(op: Op, clip: Rect, w: int, h: int) -> bool {
    match op {
        Op::Clear(_) => true,
        Op::Fill(r, _) => r.intersect_ok(clip),
        Op::Blend(r, _, _) => r.intersect_ok(clip),
        Op::Stroke(r, _) => r.fits() && all_intersect_ok(edges(r), clip),
        Op::HLine(x, y, l, _) => hline_rect(x, y, l).intersect_ok(clip),
        Op::VLine(x, y, l, _) => vline_rect(x, y, l).intersect_ok(clip),
        Op::Gradient(r, _, _) => r.intersect_ok(clip) && (!r.intersect_spec(clip).empty_spec()
            ==> (r.intersect_spec(clip).bottom_spec() - 1 - r.y) * 255 <= i32::MAX),
        Op::Text(t, x, y, _, _, s) => text_fits(clip, t.len() as int, x as int, y as int, s as int),
        Op::Centered(t, cx, y, _, _) => t.len() * 8 <= i32::MAX
            && text_fits(clip, t.len() as int, centred_x(t, cx), y as int, 1),
        Op::Glyph(_, x, y, _, _, s) => glyph_fits(clip, x as int, y as int, s as int),
        Op::Disc(x, y, r, _) => 2 * r * r <= i32::MAX && in_i32(x - r) && in_i32(x + r) && in_i32(y - r)
            && in_i32(y + r) && in_i32(r - 1),
        Op::Clip(r) => r.intersect_ok(Rect { x: 0, y: 0, w: w as i32, h: h as i32 }),
        Op::Unclip => true,
    }
}

/// The operation, against `clip`, reaches the pixel (px, py).
pub open spec fn covers(op: Op, clip: Rect, rows: Seq<u8>, px: int, py: int) -> bool {
    match op {
        Op::Clear(_) => true,
        Op::Fill(r, _) => r.intersect_spec(clip).contains_spec(px, py),
        Op::Blend(r, _, _) => r.intersect_spec(clip).contains_spec(px, py),
        Op::Stroke(r, _) => !r.empty_spec() && covered(edges(r), clip, px, py),
        Op::HLine(x, y, l, _) => hline_rect(x, y, l).intersect_spec(clip).contains_spec(px, py),
        Op::VLine(x, y, l, _) => vline_rect(x, y, l).intersect_spec(clip).contains_spec(px, py),
        Op::Gradient(r, _, _) => r.intersect_spec(clip).contains_spec(px, py),
        Op::Text(t, x, y, _, wt, s) => clip.contains_spec(px, py) && s >= 1
            && text_covers(rows, t, wt, x as int, y as int, s as int, t.len() as int, px, py),
        Op::Centered(t, cx, y, _, wt) => clip.contains_spec(px, py)
            && text_covers(rows, t, wt, centred_x(t, cx), y as int, 1, t.len() as int, px, py),
        Op::Glyph(g, x, y, _, wt, s) => clip.contains_spec(px, py) && s >= 1
            && glyph_covers(rows, g, wt, x as int, y as int, s as int, 128, px, py),
        Op::Disc(x, y, r, _) => clip.contains_spec(px, py) && in_disc(px - x, py - y, r as int),
        Op::Clip(_) => false,
        Op::Unclip => false,
    }
}

/// What the operation leaves on a pixel it reaches, in row `py`, that held
/// `old`.
pub open spec fn value(op: Op, py: int, old: u32) -> u32 {
    match op {
        Op::Clear(c) => c,
        Op::Fill(_, c) => c,
        Op::Blend(_, c, a) => blend_value(old, c, a) as u32,
        Op::Stroke(_, c) => c,
        Op::HLine(_, _, _, c) => c,
        Op::VLine(_, _, _, c) => c,
        Op::Gradient(r, top, bottom) => blend_value(top, bottom, gradient_t(r, py)) as u32,
        Op::Text(_, _, _, c, _, _) => c,
        Op::Centered(_, _, _, c, _) => c,
        Op::Glyph(_, _, _, c, _, _) => c,
        Op::Disc(_, _, _, c) => c,
        Op::Clip(_) => old,
        Op::Unclip => old,
    }
}

/// The clip `set_clip` leaves for `r` on a `w` x `h` surface.
pub open spec fn clip_for(r: Rect, w: int, h: int) -> Rect {
    let b = Rect { x: 0, y: 0, w: w as i32, h: h as i32 };
    if r.intersect_spec(b).empty_spec() { Rect::new_spec(0, 0, 0, 0) } else { r.intersect_spec(b) }
}

/// Pixels and clip after one operation, on a `w` x `h` surface whose
/// scene began with clip `base`.
pub open spec fn step(s: (Seq<u32>, Rect), op: Op, w: int, h: int, rows: Seq<u8>, base: Rect) -> (Seq<u32>, Rect) {
    if !fits(op, s.1, w, h) {
        s
    } else {
        match op {
            Op::Clip(r) => (s.0, clip_for(r, w, h)),
            Op::Unclip => (s.0, base),
            _ => (
                Seq::new(s.0.len(), |i: int| if covers(op, s.1, rows, i % w, i / w) { value(op, i / w, s.0[i]) } else { s.0[i] }),
                s.1,
            ),
        }
    }
}

/// Pixels and clip after a whole scene.
pub open spec fn run(s: (Seq<u32>, Rect), ops: Seq<Op>, w: int, h: int, rows: Seq<u8>, base: Rect) -> (Seq<u32>, Rect)
    decreases ops.len(),
{
    if ops.len() == 0 {
        s
    } else {
        step(run(s, ops.drop_last(), w, h, rows, base), ops.last(), w, h, rows, base)
    }
}

/// A pixel-wise description of a buffer, as a sequence.
proof fn lemma_pixels(new: Seq<u32>, old: Seq<u32>, w: int, h: int, f: spec_fn(int, int, u32) -> u32)
    requires
        w > 0,
        new.len() == old.len(),
        old.len() == w * h,
        forall|px: int, py: int| 0 <= px < w && 0 <= py < h ==> #[trigger] at(new, w, px, py) == f(px, py, at(old, w, px, py)),
    ensures
        new == Seq::new(old.len(), |i: int| f(i % w, i / w, old[i])),
{
    assert forall|i: int| 0 <= i < old.len() implies new[i] == f(i % w, i / w, old[i]) by {
        let px = i % w;
        let py = i / w;
        vstd::arithmetic::div_mod::lemma_fundamental_div_mod(i, w);
        assert(0 <= px < w) by {
            vstd::arithmetic::div_mod::lemma_mod_bound(i, w);
        }
        assert(0 <= py < h) by {
            vstd::arithmetic::div_mod::lemma_div_pos_is_pos(i, w);
            if py >= h {
                assert(w * py >= w * h) by (nonlinear_arith) requires py >= h, w > 0;
            }
        }
        assert(py * w + px == i) by (nonlinear_arith) requires i == w * py + px;
        assert(at(new, w, px, py) == new[i]);
        assert(at(old, w, px, py) == old[i]);
    }
    assert(new =~= Seq::new(old.len(), |i: int| f(i % w, i / w, old[i])));
}

/// With no columns there are no pixels either.
proof fn lemma_no_pixels(new: Seq<u32>, old: Seq<u32>, w: int, h: int, f: spec_fn(int, int, u32) -> u32)
    requires
        w == 0,
        new.len() == old.len(),
        old.len() == w * h,
    ensures
        new == Seq::new(old.len(), |i: int| f(i % w, i / w, old[i])),
{
    assert(old.len() == 0);
    assert(new =~= Seq::new(old.len(), |i: int| f(i % w, i / w, old[i])));
}

fn wide_in_i32(v: i128) -> (b: bool)
    ensures
        b == in_i32(v as int),
{
    v >= i32::MIN as i128 && v <= i32::MAX as i128
}

fn rect_fits(r: &Rect) -> (b: bool)
    ensures
        b == r.fits(),
{
    wide_in_i32(r.x as i128 + r.w as i128) && wide_in_i32(r.y as i128 + r.h as i128)
}

fn intersect_ok(a: &Rect, b: &Rect) -> (ok: bool)
    ensures
        ok == a.intersect_ok(*b),
{
    if !rect_fits(a) || !rect_fits(b) {
        return false;
    }
    let ar = a.x as i128 + a.w as i128;
    let br = b.x as i128 + b.w as i128;
    let ab = a.y as i128 + a.h as i128;
    let bb = b.y as i128 + b.h as i128;
    let x = if a.x > b.x { a.x as i128 } else { b.x as i128 };
    let y = if a.y > b.y { a.y as i128 } else { b.y as i128 };
    let right = if ar < br { ar } else { br };
    let bottom = if ab < bb { ab } else { bb };
    wide_in_i32(right - x) && wide_in_i32(bottom - y)
}

fn edge_rects(r: &Rect) -> (e: Vec<Rect>)
    requires
        r.fits(),
    ensures
        e@ == edges(*r),
{
    let mut e: Vec<Rect> = Vec::new();
    e.push(Rect::new(r.x, r.y, r.w, 1));
    e.push(Rect::new(r.x, (r.y as i64 + r.h as i64 - 1) as i32, r.w, 1));
    e.push(Rect::new(r.x, r.y, 1, r.h));
    e.push(Rect::new((r.x as i64 + r.w as i64 - 1) as i32, r.y, 1, r.h));
    proof {
        assert(e@ =~= edges(*r));
    }
    e
}

fn op_fits(op: &Paint, clip: &Rect, w: usize, h: usize) -> (b: bool)
    requires
        w <= i32::MAX,
        h <= i32::MAX,
    ensures
        b == fits(op_view(*op), *clip, w as int, h as int),
{
    match op {
        Paint::Clear(_) => true,
        Paint::Fill(r, _) => intersect_ok(r, clip),
        Paint::Blend(r, _, _) => intersect_ok(r, clip),
        Paint::Stroke(r, _) => {
            if !rect_fits(r) {
                return false;
            }
            let e = edge_rects(r);
            let ok = intersect_ok(&e[0], clip) && intersect_ok(&e[1], clip) && intersect_ok(&e[2], clip)
                && intersect_ok(&e[3], clip);
            proof {
                if ok {
                    assert forall|k: int| 0 <= k < edges(*r).len() implies (#[trigger] edges(*r)[k]).intersect_ok(*clip) by {
                        assert(e@[k] == edges(*r)[k]);
                    }
                } else {
                    assert(!all_intersect_ok(edges(*r), *clip)) by {
                        if all_intersect_ok(edges(*r), *clip) {
                            assert(edges(*r)[0].intersect_ok(*clip));
                            assert(edges(*r)[1].intersect_ok(*clip));
                            assert(edges(*r)[2].intersect_ok(*clip));
                            assert(edges(*r)[3].intersect_ok(*clip));
                        }
                    }
                }
            }
            ok
        },
        Paint::HLine(x, y, l, _) => intersect_ok(&Rect::new(*x, *y, *l, 1), clip),
        Paint::VLine(x, y, l, _) => intersect_ok(&Rect::new(*x, *y, 1, *l), clip),
        Paint::Gradient(r, _, _) => {
            if !intersect_ok(r, clip) {
                return false;
            }
            let i = r.intersect(clip);
            if i.is_empty() {
                true
            } else {
                (i.y as i128 + i.h as i128 - 1 - r.y as i128) * 255 <= i32::MAX as i128
            }
        },
        Paint::Text(t, x, y, _, _, s) => text_ok(t.as_str(), *x as i64, *y, *s, clip),
        Paint::Centered(t, cx, y, _, _) => {
            let n = t.as_str().unicode_len() as i128;
            if n * 8 > i32::MAX as i128 {
                return false;
            }
            text_ok(t.as_str(), (*cx as i128 - (n * 8) / 2) as i64, *y, 1, clip)
        },
        Paint::Glyph(_, x, y, _, _, s) => {
            let s = *s as i128;
            wide_in_i32(16 * s) && *x as i128 + 8 * s <= i32::MAX as i128 && *y as i128 + 16 * s <= i32::MAX as i128
                && *x as i128 >= i32::MIN as i128 + clip.x as i128 && *y as i128 >= i32::MIN as i128 + clip.y as i128
        },
        Paint::Disc(x, y, r, _) => {
            let (x, y, r) = (*x as i128, *y as i128, *r as i128);
            proof {
                assert(-0x8000_0000_0000_0000 <= (2 * r) * r <= 0x8000_0000_0000_0000) by (nonlinear_arith)
                    requires -0x8000_0000 <= r <= 0x8000_0000;
            }
            2 * r * r <= i32::MAX as i128 && wide_in_i32(x - r) && wide_in_i32(x + r) && wide_in_i32(y - r)
                && wide_in_i32(y + r) && wide_in_i32(r - 1)
        },
        Paint::Clip(r) => intersect_ok(r, &Rect::new(0, 0, w as i32, h as i32)),
        Paint::Unclip => true,
    }
}

fn text_ok(t: &str, x: i64, y: i32, s: i32, clip: &Rect) -> (b: bool)
    ensures
        b == text_fits(*clip, t@.len() as int, x as int, y as int, s as int),
{
    let n = t.unicode_len() as i128;
    let s = s as i128;
    let y = y as i128;
    let x = x as i128;
    proof {
        assert(0 <= n * 8 <= 0x8_0000_0000_0000_0000);
        assert(-0x4_0000_0000_0000_0000_0000_0000 <= (n * 8) * s <= 0x4_0000_0000_0000_0000_0000_0000) by (nonlinear_arith)
            requires 0 <= n * 8 <= 0x8_0000_0000_0000_0000, -0x8000_0000 <= s <= 0x8000_0000;
    }
    wide_in_i32(x) && wide_in_i32(16 * s) && wide_in_i32(8 * s) && wide_in_i32(x + n * 8 * s)
        && (s < 1 || (x >= i32::MIN as i128 + clip.x as i128 && y >= i32::MIN as i128 + clip.y as i128
            && y + 16 * s <= i32::MAX as i128))
}

/// Carry out one operation.
fn apply(surface: &mut Surface, font: &Font, op: &Paint, base: Rect)
    requires
        old(surface).wf(),
        font.wf(),
        base.inside(old(surface).width as int, old(surface).height as int),
    ensures
        final(surface).wf(),
        final(surface).width == old(surface).width,
        final(surface).height == old(surface).height,
        (final(surface).pixels@, final(surface).clip) == step((old(surface).pixels@, old(surface).clip), op_view(*op),
            old(surface).width as int, old(surface).height as int, font.rows@, base),
{
    let w = surface.width;
    let h = surface.height;
    if !op_fits(op, &surface.clip, w, h) {
        return;
    }
    let ghost o = op_view(*op);
    let ghost clip = surface.clip;
    let ghost before = surface.pixels@;
    let ghost rows = font.rows@;
    let ghost f = |px: int, py: int, p: u32| if covers(o, clip, rows, px, py) { value(o, py, p) } else { p };
    match op {
        Paint::Clear(c) => {
            surface.clear(*c);
            proof {
                assert forall|px: int, py: int| 0 <= px < w && 0 <= py < h implies #[trigger] at(surface.pixels@, w as int, px, py)
                    == f(px, py, at(before, w as int, px, py)) by {
                    crate::gfx::draw::lemma_index_bound(w as int, h as int, px, py);
                    assert(at(surface.pixels@, w as int, px, py) == surface.at(px, py));
                }
            }
        },
        Paint::Fill(r, c) => {
            surface.fill_rect(*r, *c);
            proof {
                assert forall|px: int, py: int| 0 <= px < w && 0 <= py < h implies #[trigger] at(surface.pixels@, w as int, px, py)
                    == f(px, py, at(before, w as int, px, py)) by {
                    crate::gfx::draw::lemma_index_bound(w as int, h as int, px, py);
                    assert(at(surface.pixels@, w as int, px, py) == surface.at(px, py));
                }
            }
        },
        Paint::Blend(r, c, a) => {
            surface.fill_rect_blend(*r, *c, *a);
            proof {
                assert forall|px: int, py: int| 0 <= px < w && 0 <= py < h implies #[trigger] at(surface.pixels@, w as int, px, py)
                    == f(px, py, at(before, w as int, px, py)) by {
                    crate::gfx::draw::lemma_index_bound(w as int, h as int, px, py);
                    assert(at(surface.pixels@, w as int, px, py) == surface.at(px, py));
                }
            }
        },
        Paint::Stroke(r, c) => {
            surface.stroke_rect(*r, *c);
            proof {
                assert forall|px: int, py: int| 0 <= px < w && 0 <= py < h implies #[trigger] at(surface.pixels@, w as int, px, py)
                    == f(px, py, at(before, w as int, px, py)) by {
                    crate::gfx::draw::lemma_index_bound(w as int, h as int, px, py);
                    assert(at(surface.pixels@, w as int, px, py) == surface.at(px, py));
                }
            }
        },
        Paint::HLine(x, y, l, c) => {
            surface.hline(*x, *y, *l, *c);
            proof {
                assert forall|px: int, py: int| 0 <= px < w && 0 <= py < h implies #[trigger] at(surface.pixels@, w as int, px, py)
                    == f(px, py, at(before, w as int, px, py)) by {
                    crate::gfx::draw::lemma_index_bound(w as int, h as int, px, py);
                    assert(at(surface.pixels@, w as int, px, py) == surface.at(px, py));
                }
            }
        },
        Paint::VLine(x, y, l, c) => {
            surface.vline(*x, *y, *l, *c);
            proof {
                assert forall|px: int, py: int| 0 <= px < w && 0 <= py < h implies #[trigger] at(surface.pixels@, w as int, px, py)
                    == f(px, py, at(before, w as int, px, py)) by {
                    crate::gfx::draw::lemma_index_bound(w as int, h as int, px, py);
                    assert(at(surface.pixels@, w as int, px, py) == surface.at(px, py));
                }
            }
        },
        Paint::Gradient(r, a, b) => {
            surface.gradient_v(*r, *a, *b);
            proof {
                assert forall|px: int, py: int| 0 <= px < w && 0 <= py < h implies #[trigger] at(surface.pixels@, w as int, px, py)
                    == f(px, py, at(before, w as int, px, py)) by {
                    crate::gfx::draw::lemma_index_bound(w as int, h as int, px, py);
                    assert(at(surface.pixels@, w as int, px, py) == surface.at(px, py));
                }
            }
        },
        Paint::Text(t, x, y, c, wt, s) => {
            surface.text_ex(font, t.as_str(), *x, *y, *c, *wt, *s);
            proof {
                assert forall|px: int, py: int| 0 <= px < w && 0 <= py < h implies #[trigger] at(surface.pixels@, w as int, px, py)
                    == f(px, py, at(before, w as int, px, py)) by {
                    crate::gfx::draw::lemma_index_bound(w as int, h as int, px, py);
                    assert(at(surface.pixels@, w as int, px, py) == surface.at(px, py));
                }
            }
        },
        Paint::Centered(t, x, y, c, wt) => {
            surface.text_centered(font, t.as_str(), *x, *y, *c, *wt);
            proof {
                assert forall|px: int, py: int| 0 <= px < w && 0 <= py < h implies #[trigger] at(surface.pixels@, w as int, px, py)
                    == f(px, py, at(before, w as int, px, py)) by {
                    crate::gfx::draw::lemma_index_bound(w as int, h as int, px, py);
                    assert(at(surface.pixels@, w as int, px, py) == surface.at(px, py));
                }
            }
        },
        Paint::Glyph(g, x, y, c, wt, s) => {
            surface.glyph(font, *g, *x, *y, *c, *wt, *s);
            proof {
                assert forall|px: int, py: int| 0 <= px < w && 0 <= py < h implies #[trigger] at(surface.pixels@, w as int, px, py)
                    == f(px, py, at(before, w as int, px, py)) by {
                    crate::gfx::draw::lemma_index_bound(w as int, h as int, px, py);
                    assert(at(surface.pixels@, w as int, px, py) == surface.at(px, py));
                }
            }
        },
        Paint::Disc(x, y, r, c) => {
            surface.disc(*x, *y, *r, *c);
            proof {
                assert forall|px: int, py: int| 0 <= px < w && 0 <= py < h implies #[trigger] at(surface.pixels@, w as int, px, py)
                    == f(px, py, at(before, w as int, px, py)) by {
                    crate::gfx::draw::lemma_index_bound(w as int, h as int, px, py);
                    assert(at(surface.pixels@, w as int, px, py) == surface.at(px, py));
                }
            }
        },
        Paint::Clip(r) => {
            surface.set_clip(*r);
            return;
        },
        Paint::Unclip => {
            surface.clip = base;
            return;
        },
    }
    proof {
        if w == 0 {
            lemma_no_pixels(surface.pixels@, before, w as int, h as int, f);
        } else {
            lemma_pixels(surface.pixels@, before, w as int, h as int, f);
        }
    }
}

/// Carry out a scene, operation by operation.
pub fn paint(surface: &mut Surface, font: &Font, ops: &Vec<Paint>)
    requires
        old(surface).wf(),
        font.wf(),
    ensures
        final(surface).wf(),
        final(surface).width == old(surface).width,
        final(surface).height == old(surface).height,
        (final(surface).pixels@, final(surface).clip) == run((old(surface).pixels@, old(surface).clip), ops_view(ops@),
            old(surface).width as int, old(surface).height as int, font.rows@, old(surface).clip),
{
    let base = surface.clip;
    let ghost start = (surface.pixels@, surface.clip);
    let ghost v = ops_view(ops@);
    let mut i: usize = 0;
    while i < ops.len()
        invariant
            surface.wf(),
            font.wf(),
            surface.width == old(surface).width,
            surface.height == old(surface).height,
            base == old(surface).clip,
            base.inside(surface.width as int, surface.height as int),
            v == ops_view(ops@),
            start == (old(surface).pixels@, old(surface).clip),
            i <= ops@.len(),
            (surface.pixels@, surface.clip) == run(start, v.take(i as int), surface.width as int, surface.height as int,
                font.rows@, base),
        decreases ops@.len() - i,
    {
        apply(surface, font, &ops[i], base);
        proof {
            assert(v.take(i + 1).drop_last() =~= v.take(i as int));
            assert(v.take(i + 1).last() == op_view(ops@[i as int]));
        }
        i += 1;
    }
    proof {
        assert(v.take(ops@.len() as int) =~= v);
    }
}

} // verus!
