//! System monitor: memory, heap, threads, and a live load graph.
//!
//! The figures are read by the caller; the monitor keeps the recent history
//! of the heap's use for its graph, and works out what to show.

use vstd::prelude::*;

verus! {

use crate::gfx::draw::{Rect, Surface};
use crate::gfx::font::{Font, Weight};
use crate::gfx::palette::{Color, BORDER, CYAN, CYAN_DIM, PANEL, PANEL_SUNKEN, TEXT, TEXT_DIM, TEXT_FAINT, AMBER};
use crate::gfx::scene::{Op, Paint, op_view, ops_view, lemma_ops_push, paint, run};
use crate::text::{chars_of, dec_str, push_dec, push_str, string_of, to_string};
use crate::mm::{format_bytes, unit_name, unit_steps, unit_value};
use crate::mm::heap::HeapStats;
use crate::task::ThreadInfo;
use crate::apps::shell::{padded, state_name, zero_padded};

/// How many samples the graph keeps.
pub const HISTORY: usize = 120;

/// How often a sample is taken, in milliseconds.
pub const SAMPLE_MS: u64 = 250;

pub struct Monitor {
    pub dirty: bool,
    /// Bytes of heap in use, oldest first, at most `HISTORY` of them.
    pub heap_history: Vec<u32>,
    pub last_sample: u64,
}

/// The last `HISTORY` of `s`.
pub open spec fn recent(s: Seq<u32>) -> Seq<u32> {
    if s.len() > HISTORY { s.subrange(s.len() - HISTORY, s.len() as int) } else { s }
}

/// `part` of `whole` as a whole percentage; 0 of nothing.
pub open spec fn percent_spec(part: int, whole: int) -> int {
    if whole > 0 { part * 100 / whole } else { 0 }
}

/// The length of the filled part of a bar `w` long that is `fraction`
/// percent full, held within the bar.
pub open spec fn filled_spec(w: int, fraction: int) -> int {
    let f = crate::num::quot(w * fraction, 100);
    if f < 0 { 0 } else if f > w { if w > 0 { w } else { 0 } } else { f }
}

impl Monitor {
    pub open spec fn wf(&self) -> bool {
        self.heap_history@.len() <= HISTORY
    }

    pub fn new() -> (m: Monitor)
        ensures
            m.wf(),
            m.dirty,
            m.heap_history@.len() == 0,
            m.last_sample == 0,
    {
        Monitor { dirty: true, heap_history: Vec::new(), last_sample: 0 }
    }

    /// Take a sample of the heap in use at most four times a second; the
    /// graph keeps the last `HISTORY` of them, oldest first.
    pub fn tick(&mut self, now_ms: u64, heap_allocated: usize)
        requires
            old(self).wf(),
        ensures
            final(self).wf(),
            ({
                let due = now_ms >= old(self).last_sample && now_ms - old(self).last_sample >= SAMPLE_MS;
                &&& due ==> {
                    &&& final(self).last_sample == now_ms
                    &&& final(self).heap_history@ == recent(old(self).heap_history@.push(heap_allocated as u32))
                    &&& final(self).dirty
                }
                &&& !due ==> {
                    &&& final(self).last_sample == old(self).last_sample
                    &&& final(self).heap_history@ == old(self).heap_history@
                    &&& final(self).dirty == old(self).dirty
                }
            }),
    {
        let since = if now_ms > self.last_sample { now_ms - self.last_sample } else { 0 };
        if since < SAMPLE_MS {
            return;
        }
        self.last_sample = now_ms;
        #[verifier::truncate]
        let sample = heap_allocated as u32;
        let ghost pushed = self.heap_history@.push(sample);
        self.heap_history.push(sample);
        if self.heap_history.len() > HISTORY {
            self.heap_history.remove(0);
        }
        proof {
            if pushed.len() > HISTORY {
                assert(self.heap_history@ =~= pushed.subrange(pushed.len() - HISTORY, pushed.len() as int));
            }
        }
        self.dirty = true;
    }

    pub fn dirty(&self) -> (d: bool)
        ensures
            d == self.dirty,
    {
        self.dirty
    }

    pub fn clear_dirty(&mut self)
        ensures
            !final(self).dirty,
            final(self).heap_history@ == old(self).heap_history@,
            final(self).last_sample == old(self).last_sample,
    {
        self.dirty = false;
    }

    pub fn min_size(&self) -> (r: (i32, i32))
        ensures
            r == (440i32, 400i32),
    {
        (440, 400)
    }
}

/// `part` of `whole` as a whole percentage, as the bars show it; 0 of
/// nothing.
pub fn percent(part: u64, whole: u64) -> (p: u32)
    requires
        part * 100 <= u64::MAX,
        part <= whole,
    ensures
        p as int == percent_spec(part as int, whole as int),
        p <= 100,
{
    if whole > 0 {
        proof {
            let (a, b): (int, int) = (part as int, whole as int);
            assert((a * 100) / b <= 100) by (nonlinear_arith) requires 0 <= a <= b, b > 0;
        }
        (part * 100 / whole) as u32
    } else {
        0
    }
}

/// How much of a bar `w` long to fill for `fraction` percent.
pub fn filled(w: i32, fraction: u32) -> (f: i32)
    requires
        0 <= w <= 0x100_0000,
        fraction <= 100,
    ensures
        f == filled_spec(w as int, fraction as int),
{
    proof {
        assert(0 <= w * fraction <= 0x100_0000 * 100) by (nonlinear_arith) requires 0 <= w <= 0x100_0000, fraction <= 100;
    }
    let f = w * fraction as i32 / 100;
    if f < 0 { 0 } else if f > w { if w > 0 { w } else { 0 } } else { f }
}

// ---------------------------------------------------------------------
// What the window shows.
// ---------------------------------------------------------------------

/// The figures the window shows, read by the caller.
pub struct Sample {
    /// Physical memory: all of it, in use, and usable.
    pub total: u64,
    pub used: u64,
    pub usable: u64,
    pub heap: HeapStats,
    pub threads: Vec<ThreadInfo>,
    pub uptime_ms: u64,
    pub switches: u64,
}

/// The allocators never report more in use than they have.
pub open spec fn sample_ok(f: &Sample) -> bool {
    &&& f.used <= f.usable
    &&& f.heap.allocated <= f.heap.mapped
    &&& f.used * 100 <= u64::MAX
    &&& f.heap.allocated * 100 <= u64::MAX
}

pub open spec fn sized(bytes: u64) -> Seq<char> {
    dec_str(unit_value(bytes as nat, 0)) + " "@ + unit_name(unit_steps(bytes as nat, 0))
}

/// A bar across `r`, `fraction` percent full.
pub open spec fn bar_ops(r: Rect, fraction: int, c: Color) -> Seq<Op> {
    seq![
        Op::Fill(r, PANEL_SUNKEN),
        Op::Fill(Rect { x: r.x, y: r.y, w: filled_spec(r.w as int, fraction) as i32, h: r.h }, c),
        Op::Stroke(r, BORDER),
    ]
}

/// The graph's column for sample `i` of `history`, whose largest value
/// is `peak`, in a graph `gw` wide.
pub open spec fn column_op(history: Seq<u32>, i: int, peak: int, gw: int) -> Op {
    let x = 13 + (i * (gw - 2)) / (HISTORY as int);
    let height = history[i] * 44 / peak;
    Op::VLine(x as i32, (199 - height) as i32, height as i32, CYAN_DIM)
}

/// The largest of the first `n` samples, at least 1.
pub open spec fn peak_of(h: Seq<u32>, n: int) -> int
    decreases n,
{
    if n <= 0 { 1 } else { let p = peak_of(h, n - 1); if h[n - 1] > p { h[n - 1] as int } else { p } }
}

pub open spec fn graph_ops(history: Seq<u32>, gw: int) -> Seq<Op> {
    if history.len() > 1 {
        Seq::new(history.len(), |i: int| column_op(history, i, peak_of(history, history.len() as int), gw))
    } else {
        Seq::empty()
    }
}

/// The first 15 characters of a name.
pub open spec fn short_name(n: Seq<char>) -> Seq<char> {
    if n.len() > 15 { n.take(15) } else { n }
}

/// A row of the thread table at height `y`.
pub open spec fn thread_ops(t: ThreadInfo, y: int) -> Seq<Op> {
    let c = if t.current { AMBER } else { TEXT };
    seq![
        Op::Text(padded(dec_str(t.id as nat), 4), 12, y as i32, c, Weight::Regular, 1),
        Op::Text(short_name(t.name@), 52, y as i32, c, Weight::Regular, 1),
        Op::Text(state_name(t.state), 180, y as i32, TEXT_DIM, Weight::Regular, 1),
        Op::Text(dec_str(t.ticks_used as nat), 268, y as i32, TEXT_DIM, Weight::Regular, 1),
    ]
}

/// Rows of the thread table from thread `i` on, while they fit above the
/// footer of a window `h` tall.
pub open spec fn thread_rows(ts: Seq<ThreadInfo>, i: int, h: int) -> Seq<Op>
    decreases ts.len() - i,
{
    let y = 246 + 16 * i;
    if i < 0 || i >= ts.len() || y > h - 34 { Seq::empty() } else { thread_ops(ts[i], y) + thread_rows(ts, i + 1, h) }
}

/// The memory and heap bars and figures, and the graph's frame.
pub open spec fn top_ops(f: &Sample, w: int) -> Seq<Op> {
    let percent = (f.used * 100 / (if f.usable > 1 { f.usable as int } else { 1 })) as u32;
    let heap_percent = (if f.heap.mapped > 0 { f.heap.allocated * 100 / (f.heap.mapped as int) } else { 0 }) as u32;
    let wide = (w - 24) as i32;
    seq![
        Op::Clear(PANEL),
        Op::Text("PHYSICAL MEMORY"@, 12, 10, CYAN, Weight::Bold, 1),
    ] + bar_ops(Rect { x: 12, y: 30, w: wide, h: 14 }, percent as int, AMBER) + seq![
        Op::Text(sized(f.used) + " of "@ + sized(f.total) + " in use  ("@ + dec_str(percent as nat) + "%)"@, 12, 48, TEXT, Weight::Regular, 1),
        Op::Text("KERNEL HEAP"@, 12, 74, CYAN, Weight::Bold, 1),
    ] + bar_ops(Rect { x: 12, y: 94, w: wide, h: 14 }, heap_percent as int, CYAN) + seq![
        Op::Text(dec_str(f.heap.live_allocations as nat) + " live allocations, "@ + sized(f.heap.mapped) + " mapped, "@
            + dec_str(f.heap.free_blocks as nat) + " free blocks"@, 12, 112, TEXT, Weight::Regular, 1),
        Op::Text(dec_str(f.heap.total_allocations as nat) + " allocations served since boot"@, 12, 128, TEXT_DIM, Weight::Regular, 1),
        Op::Fill(Rect { x: 12, y: 154, w: wide, h: 46 }, PANEL_SUNKEN),
        Op::Stroke(Rect { x: 12, y: 154, w: wide, h: 46 }, BORDER),
    ]
}

pub open spec fn middle_ops() -> Seq<Op> {
    seq![
        Op::Text("heap in use"@, 16, 157, TEXT_FAINT, Weight::Regular, 1),
        Op::Text("THREADS"@, 12, 210, CYAN, Weight::Bold, 1),
        Op::Text("id   name            state      ticks"@, 12, 230, TEXT_FAINT, Weight::Regular, 1),
    ]
}

pub open spec fn foot_ops(f: &Sample, w: int, h: int) -> Seq<Op> {
    seq![
        Op::HLine(0, (h - 28) as i32, w as i32, BORDER),
        Op::Text("uptime "@ + dec_str((f.uptime_ms / 1000) as nat) + "."@ + zero_padded((f.uptime_ms % 1000) as nat, 3)
            + "s   "@ + dec_str(f.switches as nat) + " context switches"@, 12, (h - 22) as i32, TEXT_DIM, Weight::Regular, 1),
    ]
}

/// Everything the window draws, in order, for a `w` x `h` window.
pub open spec fn monitor_scene(m: &Monitor, f: &Sample, w: int, h: int) -> Seq<Op> {
    top_ops(f, w) + graph_ops(m.heap_history@, w - 24) + middle_ops() + thread_rows(f.threads@, 0, h) + foot_ops(f, w, h)
}

fn push_op(ops: &mut Vec<Paint>, p: Paint)
    ensures
        ops_view(final(ops)@) == ops_view(old(ops)@).push(op_view(p)),
{
    proof {
        lemma_ops_push(ops@, p);
    }
    ops.push(p);
}

fn text(ops: &mut Vec<Paint>, t: Vec<char>, x: i32, y: i32, c: Color, w: Weight)
    ensures
        ops_view(final(ops)@) == ops_view(old(ops)@).push(Op::Text(t@, x, y, c, w, 1)),
{
    push_op(ops, Paint::Text(string_of(t.as_slice()), x, y, c, w, 1));
}

fn literal(ops: &mut Vec<Paint>, t: &str, x: i32, y: i32, c: Color, w: Weight)
    ensures
        ops_view(final(ops)@) == ops_view(old(ops)@).push(Op::Text(t@, x, y, c, w, 1)),
{
    push_op(ops, Paint::Text(to_string(t), x, y, c, w, 1));
}

fn push_sized(t: &mut Vec<char>, bytes: u64)
    ensures
        final(t)@ == old(t)@ + sized(bytes),
{
    let (value, unit) = format_bytes(bytes);
    push_dec(t, value);
    push_str(t, " ");
    push_str(t, unit);
    proof {
        assert(final(t)@ =~= old(t)@ + sized(bytes));
    }
}

fn push_bar(ops: &mut Vec<Paint>, r: Rect, fraction: u32, c: Color)
    requires
        0 <= r.w <= 0x100_0000,
        fraction <= 100,
    ensures
        ops_view(final(ops)@) == ops_view(old(ops)@) + bar_ops(r, fraction as int, c),
{
    push_op(ops, Paint::Fill(r, PANEL_SUNKEN));
    push_op(ops, Paint::Fill(Rect::new(r.x, r.y, filled(r.w, fraction), r.h), c));
    push_op(ops, Paint::Stroke(r, BORDER));
    proof {
        assert(ops_view(ops@) =~= ops_view(old(ops)@) + bar_ops(r, fraction as int, c));
    }
}

fn top(f: &Sample, width: i32) -> (ops: Vec<Paint>)
    requires
        sample_ok(f),
        26 <= width <= 0x100_0000,
    ensures
        ops_view(ops@) == top_ops(f, width as int),
{
        let mut ops: Vec<Paint> = Vec::new();
        push_op(&mut ops, Paint::Clear(PANEL));
        literal(&mut ops, "PHYSICAL MEMORY", 12, 10, CYAN, Weight::Bold);
        let usable = if f.usable > 1 { f.usable } else { 1 };
        let percent = (f.used * 100 / usable) as u32;
        proof {
            assert(f.used * 100 / (usable as int) <= 100) by (nonlinear_arith) requires f.used <= f.usable, usable >= f.usable, usable >= 1;
        }
        let wide = width - 24;
        push_bar(&mut ops, Rect::new(12, 30, wide, 14), percent, AMBER);
        let mut t: Vec<char> = Vec::new();
        push_sized(&mut t, f.used);
        push_str(&mut t, " of ");
        push_sized(&mut t, f.total);
        push_str(&mut t, " in use  (");
        push_dec(&mut t, percent as u64);
        push_str(&mut t, "%)");
        text(&mut ops, t, 12, 48, TEXT, Weight::Regular);
        literal(&mut ops, "KERNEL HEAP", 12, 74, CYAN, Weight::Bold);
        let heap_percent = if f.heap.mapped > 0 { (f.heap.allocated as u64 * 100 / f.heap.mapped) as u32 } else { 0 };
        proof {
            if f.heap.mapped > 0 {
                assert(f.heap.allocated * 100 / (f.heap.mapped as int) <= 100) by (nonlinear_arith)
                    requires f.heap.allocated <= f.heap.mapped, f.heap.mapped > 0;
            }
        }
        push_bar(&mut ops, Rect::new(12, 94, wide, 14), heap_percent, CYAN);
        let mut t: Vec<char> = Vec::new();
        push_dec(&mut t, f.heap.live_allocations as u64);
        push_str(&mut t, " live allocations, ");
        push_sized(&mut t, f.heap.mapped);
        push_str(&mut t, " mapped, ");
        push_dec(&mut t, f.heap.free_blocks as u64);
        push_str(&mut t, " free blocks");
        text(&mut ops, t, 12, 112, TEXT, Weight::Regular);
        let mut t: Vec<char> = Vec::new();
        push_dec(&mut t, f.heap.total_allocations);
        push_str(&mut t, " allocations served since boot");
        text(&mut ops, t, 12, 128, TEXT_DIM, Weight::Regular);
        push_op(&mut ops, Paint::Fill(Rect::new(12, 154, wide, 46), PANEL_SUNKEN));
        push_op(&mut ops, Paint::Stroke(Rect::new(12, 154, wide, 46), BORDER));
        proof {
            assert(ops_view(ops@) =~= top_ops(f, width as int));
        }
        ops
}

impl Monitor {
    fn graph(&self, ops: &mut Vec<Paint>, gw: i32)
        requires
            self.wf(),
            2 <= gw <= 0x100_0000,
        ensures
            ops_view(final(ops)@) == ops_view(old(ops)@) + graph_ops(self.heap_history@, gw as int),
    {
        let h = &self.heap_history;
        let n = h.len();
        if n <= 1 {
            proof {
                assert(ops_view(ops@) =~= ops_view(old(ops)@) + graph_ops(self.heap_history@, gw as int));
            }
            return;
        }
        let mut peak: u32 = 1;
        let mut i: usize = 0;
        while i < n
            invariant
                n == h@.len(),
                i <= n,
                peak as int == peak_of(h@, i as int),
                peak >= 1,
            decreases n - i,
        {
            if h[i] > peak {
                peak = h[i];
            }
            i += 1;
        }
        let ghost start = ops_view(ops@);
        let mut i: usize = 0;
        while i < n
            invariant
                n == h@.len(),
                n <= HISTORY,
                2 <= gw <= 0x100_0000,
                peak as int == peak_of(h@, n as int),
                peak >= 1,
                i <= n,
                ops_view(ops@) == start + Seq::new(i as nat, |k: int| column_op(h@, k, peak as int, gw as int)),
            decreases n - i,
        {
            proof {
                assert(0 <= (i as int) * (gw - 2) <= 120 * 0x100_0000) by (nonlinear_arith)
                    requires 0 <= i < 120, 2 <= gw <= 0x100_0000;
                assert(0 <= (h@[i as int] as int) * 44 <= 44 * 0xFFFF_FFFF) by (nonlinear_arith)
                    requires 0 <= h@[i as int] <= 0xFFFF_FFFF;
                assert((h@[i as int] as int) * 44 / (peak as int) <= 44 * 0xFFFF_FFFF) by (nonlinear_arith)
                    requires 0 <= (h@[i as int] as int) * 44 <= 44 * 0xFFFF_FFFF, peak >= 1;
            }
            let x = 13 + (i as i64 * (gw as i64 - 2)) / 120;
            let height = (h[i] as i64 * 44) / peak as i64;
            push_op(ops, Paint::VLine(x as i32, (199 - height) as i32, height as i32, CYAN_DIM));
            i += 1;
            proof {
                assert(Seq::new(i as nat, |k: int| column_op(h@, k, peak as int, gw as int))
                    =~= Seq::new((i - 1) as nat, |k: int| column_op(h@, k, peak as int, gw as int)).push(column_op(h@, i - 1, peak as int, gw as int)));
            }
        }
    }

    /// Everything the window draws, for a `width` x `height` window.
    pub fn scene(&self, f: &Sample, width: i32, height: i32) -> (ops: Vec<Paint>)
        requires
            self.wf(),
            sample_ok(f),
            26 <= width <= 0x100_0000,
            0 <= height,
        ensures
            ops_view(ops@) == monitor_scene(self, f, width as int, height as int),
    {
        let mut ops = top(f, width);
        let ghost s1 = ops_view(ops@);
        self.graph(&mut ops, width - 24);
        let ghost s2 = ops_view(ops@);
        literal(&mut ops, "heap in use", 16, 157, TEXT_FAINT, Weight::Regular);
        literal(&mut ops, "THREADS", 12, 210, CYAN, Weight::Bold);
        literal(&mut ops, "id   name            state      ticks", 12, 230, TEXT_FAINT, Weight::Regular);
        let ghost s3 = ops_view(ops@);
        proof {
            assert(s3 =~= s2 + middle_ops());
        }
        self.rows(&mut ops, f, height);
        let ghost s4 = ops_view(ops@);
        push_op(&mut ops, Paint::HLine(0, height - 28, width, BORDER));
        let mut t: Vec<char> = Vec::new();
        push_str(&mut t, "uptime ");
        push_dec(&mut t, f.uptime_ms / 1000);
        push_str(&mut t, ".");
        crate::apps::shell::push_zero_padded(&mut t, f.uptime_ms % 1000, 3);
        push_str(&mut t, "s   ");
        push_dec(&mut t, f.switches);
        push_str(&mut t, " context switches");
        text(&mut ops, t, 12, height - 22, TEXT_DIM, Weight::Regular);
        proof {
            assert(ops_view(ops@) =~= s4 + foot_ops(f, width as int, height as int));
            assert(ops_view(ops@) =~= monitor_scene(self, f, width as int, height as int));
        }
        ops
    }

    fn rows(&self, ops: &mut Vec<Paint>, f: &Sample, height: i32)
        requires
            0 <= height,
        ensures
            ops_view(final(ops)@) == ops_view(old(ops)@) + thread_rows(f.threads@, 0, height as int),
    {
        let ts = &f.threads;
        let ghost start = ops_view(ops@);
        let n = ts.len();
        let mut i: usize = 0;
        let mut y: i64 = 246;
        while i < n && y <= height as i64 - 34
            invariant
                n == ts@.len(),
                i <= n,
                y == 246 + 16 * i,
                0 <= height,
                i == 0 || y <= height as i64 - 18,
                start + thread_rows(ts@, 0, height as int) == ops_view(ops@) + thread_rows(ts@, i as int, height as int),
            decreases n - i,
        {
            let t = &ts[i];
            let c = if t.current { AMBER } else { TEXT };
            let ghost before = ops_view(ops@);
            let mut id: Vec<char> = Vec::new();
            push_dec(&mut id, t.id);
            let mut idp: Vec<char> = Vec::new();
            crate::apps::shell::push_padded_chars(&mut idp, id.as_slice(), 4);
            text(ops, idp, 12, y as i32, c, Weight::Regular);
            let name = chars_of(t.name.as_str());
            let mut short: Vec<char> = Vec::new();
            let mut k: usize = 0;
            while k < name.len() && k < 15
                invariant
                    k <= name@.len(),
                    k <= 15,
                    short@ == name@.take(k as int),
                decreases name@.len() - k,
            {
                short.push(name[k]);
                k += 1;
                proof {
                    assert(short@ =~= name@.take(k as int));
                }
            }
            proof {
                if name@.len() <= 15 {
                    assert(name@.take(k as int) =~= name@);
                }
            }
            text(ops, short, 52, y as i32, c, Weight::Regular);
            let state = match t.state {
                crate::task::State::Running => "running",
                crate::task::State::Ready => "ready",
                crate::task::State::Sleeping(_) => "sleeping",
                crate::task::State::Finished => "finished",
            };
            literal(ops, state, 180, y as i32, TEXT_DIM, Weight::Regular);
            let mut ticks: Vec<char> = Vec::new();
            push_dec(&mut ticks, t.ticks_used);
            text(ops, ticks, 268, y as i32, TEXT_DIM, Weight::Regular);
            proof {
                assert(ops_view(ops@) =~= before + thread_ops(ts@[i as int], y as int));
                assert(thread_rows(ts@, i as int, height as int) == thread_ops(ts@[i as int], y as int) + thread_rows(ts@, i + 1, height as int));
            }
            i += 1;
            y = y + 16;
        }
        proof {
            assert(thread_rows(ts@, i as int, height as int) =~= Seq::<Op>::empty());
        }
    }

    /// Draw the window from these figures: the scene, painted onto
    /// `surface`.
    pub fn draw(&mut self, surface: &mut Surface, font: &Font, f: &Sample)
        requires
            old(self).wf(),
            old(surface).wf(),
            font.wf(),
            sample_ok(f),
            26 <= old(surface).width <= 0x100_0000,
        ensures
            final(self).wf(),
            !final(self).dirty,
            final(self).heap_history@ == old(self).heap_history@,
            final(self).last_sample == old(self).last_sample,
            final(surface).wf(),
            final(surface).width == old(surface).width,
            final(surface).height == old(surface).height,
            (final(surface).pixels@, final(surface).clip) == run((old(surface).pixels@, old(surface).clip),
                monitor_scene(old(self), f, old(surface).width as int, old(surface).height as int),
                old(surface).width as int, old(surface).height as int, font.rows@, old(surface).clip),
    {
        let ops = self.scene(f, surface.width as i32, surface.height as i32);
        paint(surface, font, &ops);
        self.dirty = false;
    }
}

} // verus!
