//! Tetris.
//!
//! The game state and its rules. The clock, the random seed and the
//! speaker belong to the caller: `tick` is handed the time, `new` a seed,
//! and the sounds come back as steps to play.

use vstd::prelude::*;

verus! {

use crate::input::{Key, KeyEvent};
use crate::drivers::speaker::{Step, beep, error_tone};
use crate::apps::snake::rng_next;
use crate::gfx::draw::{Rect, Surface};
use crate::gfx::font::{Font, Weight};
use crate::gfx::palette::{Color, scale, scale_value, AMBER, BLACK, BORDER, CYAN, ERROR, OK, TEXT_BRIGHT, TEXT_DIM, TEXT_FAINT, VIOLET, WARN};
use crate::gfx::scene::{Op, Paint, op_view, ops_view, lemma_ops_push, paint, run};
use crate::text::{dec_str, push_dec, push_str, string_of};
use crate::num::quot;

pub const COLUMNS: i32 = 10;
pub const ROWS: i32 = 20;
pub const HEADER: i32 = 24;

/// The four cells of piece `kind` (I, J, L, O, S, T, Z) in rotation `rot`,
/// relative to the piece's origin. Written out rather than rotated at
/// runtime, which gives the classic wall-kick-free shapes.
pub open spec fn piece(kind: int, rot: int) -> Seq<(i32, i32)> {
    if kind == 0 && rot == 0 { seq![(0i32, 1i32), (1i32, 1i32), (2i32, 1i32), (3i32, 1i32)] } else
    if kind == 0 && rot == 1 { seq![(2i32, 0i32), (2i32, 1i32), (2i32, 2i32), (2i32, 3i32)] } else
    if kind == 0 && rot == 2 { seq![(0i32, 2i32), (1i32, 2i32), (2i32, 2i32), (3i32, 2i32)] } else
    if kind == 0 && rot == 3 { seq![(1i32, 0i32), (1i32, 1i32), (1i32, 2i32), (1i32, 3i32)] } else
    if kind == 1 && rot == 0 { seq![(0i32, 0i32), (0i32, 1i32), (1i32, 1i32), (2i32, 1i32)] } else
    if kind == 1 && rot == 1 { seq![(1i32, 0i32), (2i32, 0i32), (1i32, 1i32), (1i32, 2i32)] } else
    if kind == 1 && rot == 2 { seq![(0i32, 1i32), (1i32, 1i32), (2i32, 1i32), (2i32, 2i32)] } else
    if kind == 1 && rot == 3 { seq![(1i32, 0i32), (1i32, 1i32), (0i32, 2i32), (1i32, 2i32)] } else
    if kind == 2 && rot == 0 { seq![(2i32, 0i32), (0i32, 1i32), (1i32, 1i32), (2i32, 1i32)] } else
    if kind == 2 && rot == 1 { seq![(1i32, 0i32), (1i32, 1i32), (1i32, 2i32), (2i32, 2i32)] } else
    if kind == 2 && rot == 2 { seq![(0i32, 1i32), (1i32, 1i32), (2i32, 1i32), (0i32, 2i32)] } else
    if kind == 2 && rot == 3 { seq![(0i32, 0i32), (1i32, 0i32), (1i32, 1i32), (1i32, 2i32)] } else
    if kind == 3 && rot == 0 { seq![(1i32, 0i32), (2i32, 0i32), (1i32, 1i32), (2i32, 1i32)] } else
    if kind == 3 && rot == 1 { seq![(1i32, 0i32), (2i32, 0i32), (1i32, 1i32), (2i32, 1i32)] } else
    if kind == 3 && rot == 2 { seq![(1i32, 0i32), (2i32, 0i32), (1i32, 1i32), (2i32, 1i32)] } else
    if kind == 3 && rot == 3 { seq![(1i32, 0i32), (2i32, 0i32), (1i32, 1i32), (2i32, 1i32)] } else
    if kind == 4 && rot == 0 { seq![(1i32, 0i32), (2i32, 0i32), (0i32, 1i32), (1i32, 1i32)] } else
    if kind == 4 && rot == 1 { seq![(1i32, 0i32), (1i32, 1i32), (2i32, 1i32), (2i32, 2i32)] } else
    if kind == 4 && rot == 2 { seq![(1i32, 1i32), (2i32, 1i32), (0i32, 2i32), (1i32, 2i32)] } else
    if kind == 4 && rot == 3 { seq![(0i32, 0i32), (0i32, 1i32), (1i32, 1i32), (1i32, 2i32)] } else
    if kind == 5 && rot == 0 { seq![(1i32, 0i32), (0i32, 1i32), (1i32, 1i32), (2i32, 1i32)] } else
    if kind == 5 && rot == 1 { seq![(1i32, 0i32), (1i32, 1i32), (2i32, 1i32), (1i32, 2i32)] } else
    if kind == 5 && rot == 2 { seq![(0i32, 1i32), (1i32, 1i32), (2i32, 1i32), (1i32, 2i32)] } else
    if kind == 5 && rot == 3 { seq![(1i32, 0i32), (0i32, 1i32), (1i32, 1i32), (1i32, 2i32)] } else
    if kind == 6 && rot == 0 { seq![(0i32, 0i32), (1i32, 0i32), (1i32, 1i32), (2i32, 1i32)] } else
    if kind == 6 && rot == 1 { seq![(2i32, 0i32), (1i32, 1i32), (2i32, 1i32), (1i32, 2i32)] } else
    if kind == 6 && rot == 2 { seq![(0i32, 1i32), (1i32, 1i32), (1i32, 2i32), (2i32, 2i32)] } else
    if kind == 6 && rot == 3 { seq![(1i32, 0i32), (0i32, 1i32), (1i32, 1i32), (0i32, 2i32)] } else { seq![(0i32, 0i32), (0i32, 0i32), (0i32, 0i32), (0i32, 0i32)] }
}

fn piece_exec(kind: usize, rot: usize) -> (v: Vec<(i32, i32)>)
    requires
        kind < 7,
        rot < 4,
    ensures
        v@ == piece(kind as int, rot as int),
{
    let mut v: Vec<(i32, i32)> = Vec::new();
    if kind == 0 && rot == 0 { v.push((0, 1)); v.push((1, 1)); v.push((2, 1)); v.push((3, 1)); } else
    if kind == 0 && rot == 1 { v.push((2, 0)); v.push((2, 1)); v.push((2, 2)); v.push((2, 3)); } else
    if kind == 0 && rot == 2 { v.push((0, 2)); v.push((1, 2)); v.push((2, 2)); v.push((3, 2)); } else
    if kind == 0 && rot == 3 { v.push((1, 0)); v.push((1, 1)); v.push((1, 2)); v.push((1, 3)); } else
    if kind == 1 && rot == 0 { v.push((0, 0)); v.push((0, 1)); v.push((1, 1)); v.push((2, 1)); } else
    if kind == 1 && rot == 1 { v.push((1, 0)); v.push((2, 0)); v.push((1, 1)); v.push((1, 2)); } else
    if kind == 1 && rot == 2 { v.push((0, 1)); v.push((1, 1)); v.push((2, 1)); v.push((2, 2)); } else
    if kind == 1 && rot == 3 { v.push((1, 0)); v.push((1, 1)); v.push((0, 2)); v.push((1, 2)); } else
    if kind == 2 && rot == 0 { v.push((2, 0)); v.push((0, 1)); v.push((1, 1)); v.push((2, 1)); } else
    if kind == 2 && rot == 1 { v.push((1, 0)); v.push((1, 1)); v.push((1, 2)); v.push((2, 2)); } else
    if kind == 2 && rot == 2 { v.push((0, 1)); v.push((1, 1)); v.push((2, 1)); v.push((0, 2)); } else
    if kind == 2 && rot == 3 { v.push((0, 0)); v.push((1, 0)); v.push((1, 1)); v.push((1, 2)); } else
    if kind == 3 && rot == 0 { v.push((1, 0)); v.push((2, 0)); v.push((1, 1)); v.push((2, 1)); } else
    if kind == 3 && rot == 1 { v.push((1, 0)); v.push((2, 0)); v.push((1, 1)); v.push((2, 1)); } else
    if kind == 3 && rot == 2 { v.push((1, 0)); v.push((2, 0)); v.push((1, 1)); v.push((2, 1)); } else
    if kind == 3 && rot == 3 { v.push((1, 0)); v.push((2, 0)); v.push((1, 1)); v.push((2, 1)); } else
    if kind == 4 && rot == 0 { v.push((1, 0)); v.push((2, 0)); v.push((0, 1)); v.push((1, 1)); } else
    if kind == 4 && rot == 1 { v.push((1, 0)); v.push((1, 1)); v.push((2, 1)); v.push((2, 2)); } else
    if kind == 4 && rot == 2 { v.push((1, 1)); v.push((2, 1)); v.push((0, 2)); v.push((1, 2)); } else
    if kind == 4 && rot == 3 { v.push((0, 0)); v.push((0, 1)); v.push((1, 1)); v.push((1, 2)); } else
    if kind == 5 && rot == 0 { v.push((1, 0)); v.push((0, 1)); v.push((1, 1)); v.push((2, 1)); } else
    if kind == 5 && rot == 1 { v.push((1, 0)); v.push((1, 1)); v.push((2, 1)); v.push((1, 2)); } else
    if kind == 5 && rot == 2 { v.push((0, 1)); v.push((1, 1)); v.push((2, 1)); v.push((1, 2)); } else
    if kind == 5 && rot == 3 { v.push((1, 0)); v.push((0, 1)); v.push((1, 1)); v.push((1, 2)); } else
    if kind == 6 && rot == 0 { v.push((0, 0)); v.push((1, 0)); v.push((1, 1)); v.push((2, 1)); } else
    if kind == 6 && rot == 1 { v.push((2, 0)); v.push((1, 1)); v.push((2, 1)); v.push((1, 2)); } else
    if kind == 6 && rot == 2 { v.push((0, 1)); v.push((1, 1)); v.push((1, 2)); v.push((2, 2)); } else
    if kind == 6 && rot == 3 { v.push((1, 0)); v.push((0, 1)); v.push((1, 1)); v.push((0, 2)); } else { v.push((0, 0)); v.push((0, 0)); v.push((0, 0)); v.push((0, 0)); }
    proof {
        assert(v@ =~= piece(kind as int, rot as int));
    }
    v
}

/// An empty row.
pub open spec fn empty_row() -> Seq<u8> {
    Seq::new(10, |c: int| 0u8)
}

/// Every cell of the row is taken.
pub open spec fn full(row: Seq<u8>) -> bool {
    forall|c: int| 0 <= c < row.len() ==> row[c] != 0
}

/// The rows that are not full, in order.
pub open spec fn nonfull(rows: Seq<Seq<u8>>) -> Seq<Seq<u8>>
    decreases rows.len(),
{
    if rows.len() == 0 {
        Seq::empty()
    } else if full(rows.last()) {
        nonfull(rows.drop_last())
    } else {
        nonfull(rows.drop_last()).push(rows.last())
    }
}

/// How many rows are full.
pub open spec fn count_full(rows: Seq<Seq<u8>>) -> nat
    decreases rows.len(),
{
    if rows.len() == 0 {
        0
    } else {
        count_full(rows.drop_last()) + if full(rows.last()) { 1nat } else { 0nat }
    }
}

/// The board once full rows are removed and everything above drops down.
pub open spec fn cleared(rows: Seq<Seq<u8>>) -> Seq<Seq<u8>> {
    Seq::new(count_full(rows), |i: int| empty_row()) + nonfull(rows)
}

/// Cell (cx, cy) is on the board and free; above the top counts as free
/// while a piece is entering.
pub open spec fn cell_free(rows: Seq<Seq<u8>>, cx: int, cy: int) -> bool {
    0 <= cx < COLUMNS && cy < ROWS && (cy >= 0 ==> rows[cy][cx] == 0)
}

/// Piece `kind` in rotation `rot` with its origin at (x, y) fits.
pub open spec fn fits(rows: Seq<Seq<u8>>, kind: int, rot: int, x: int, y: int) -> bool {
    forall|i: int| 0 <= i < 4 ==> #[trigger] cell_free(rows, x + piece(kind, rot)[i].0, y + piece(kind, rot)[i].1)
}

/// The board with the piece written into the cells it covers on the board.
pub open spec fn stamp(rows: Seq<Seq<u8>>, kind: int, rot: int, x: int, y: int) -> Seq<Seq<u8>> {
    stamp_upto(rows, kind, rot, x, y, 4)
}

/// The board with the first `n` cells of the piece written in, each that
/// lies on the board.
pub open spec fn stamp_upto(rows: Seq<Seq<u8>>, kind: int, rot: int, x: int, y: int, n: int) -> Seq<Seq<u8>>
    decreases n,
{
    if n <= 0 {
        rows
    } else {
        let prev = stamp_upto(rows, kind, rot, x, y, n - 1);
        let cx = x + piece(kind, rot)[n - 1].0;
        let cy = y + piece(kind, rot)[n - 1].1;
        if 0 <= cy < ROWS && 0 <= cx < COLUMNS {
            prev.update(cy, prev[cy].update(cx, (kind + 1) as u8))
        } else {
            prev
        }
    }
}

/// Points for clearing `n` rows at once: four at once is worth far more
/// than four singles.
pub open spec fn points(n: nat) -> u32 {
    if n == 1 { 100 } else if n == 2 { 300 } else if n == 3 { 500 } else { 800 }
}

/// Milliseconds between drops at `level`.
pub open spec fn interval(level: u32) -> u64 {
    let slowed = (level - 1) * 55;
    let t = if slowed >= 600 { 0 } else { 600 - slowed };
    (if t >= 80 { t } else { 80 }) as u64
}

/// The game as plain values.
pub struct TetrisView {
    pub rows: Seq<Seq<u8>>,
    pub kind: nat,
    pub next_kind: nat,
    pub rotation: nat,
    pub x: i32,
    pub y: i32,
    pub score: u32,
    pub lines: u32,
    pub level: u32,
    pub alive: bool,
    pub started: bool,
    pub paused: bool,
    pub last_step: u64,
    pub rng: u64,
}

/// Bring on the next piece at the top; the game ends if it does not fit.
pub open spec fn spawn_spec(v: TetrisView) -> (TetrisView, Seq<Step>) {
    let (rng, out) = rng_next(v.rng);
    let w = TetrisView { kind: v.next_kind, next_kind: (out % 7) as nat, rotation: 0, x: 3i32, y: -1i32, rng, ..v };
    if fits(w.rows, w.kind as int, 0, 3, -1) {
        (w, Seq::empty())
    } else {
        (TetrisView { alive: false, ..w }, seq![Step::Tone(220, 90)])
    }
}

/// Remove full rows and score them.
pub open spec fn clear_spec(v: TetrisView) -> (TetrisView, Seq<Step>) {
    let n = count_full(v.rows);
    if n == 0 {
        (v, Seq::empty())
    } else {
        let lines = vstd::wrapping::u32_specs::wrapping_add(v.lines, n as u32);
        (TetrisView {
            rows: cleared(v.rows),
            score: vstd::wrapping::u32_specs::wrapping_add(v.score, vstd::wrapping::u32_specs::wrapping_mul(points(n), v.level)),
            lines,
            level: (1 + lines / 10) as u32,
            ..v
        }, seq![Step::Tone((700 + n * 200) as u32, 25)])
    }
}

/// Fix the piece where it is, clear rows, and bring on the next.
pub open spec fn lock_spec(v: TetrisView) -> (TetrisView, Seq<Step>) {
    let v1 = TetrisView { rows: stamp(v.rows, v.kind as int, v.rotation as int, v.x as int, v.y as int), ..v };
    let (v2, s1) = clear_spec(v1);
    let (v3, s2) = spawn_spec(v2);
    (v3, s1 + s2)
}

/// Move down a row, or lock if the piece cannot.
pub open spec fn drop_spec(v: TetrisView) -> (TetrisView, Seq<Step>) {
    if fits(v.rows, v.kind as int, v.rotation as int, v.x as int, v.y + 1) {
        (TetrisView { y: (v.y + 1) as i32, ..v }, Seq::empty())
    } else {
        lock_spec(v)
    }
}

/// How far the piece falls before it would stop.
pub open spec fn fall(v: TetrisView, k: int) -> int
    decreases 40 - k,
{
    if k >= 40 || !fits(v.rows, v.kind as int, v.rotation as int, v.x as int, v.y + k + 1) { k } else { fall(v, k + 1) }
}

/// Drop the piece to the bottom at once, two points a row, and lock it.
pub open spec fn hard_drop_spec(v: TetrisView) -> (TetrisView, Seq<Step>) {
    let d = fall(v, 0);
    let score = ((v.score + 2 * d) % 0x1_0000_0000) as u32;
    lock_spec(TetrisView { y: (v.y + d) as i32, score, ..v })
}

pub struct Tetris {
    /// 0 is empty; otherwise the piece index plus one. Row 0 is the top.
    board: Vec<Vec<u8>>,
    kind: usize,
    next_kind: usize,
    rotation: usize,
    x: i32,
    y: i32,
    score: u32,
    lines: u32,
    level: u32,
    alive: bool,
    started: bool,
    paused: bool,
    last_step: u64,
    rng: u64,
    dirty: bool,
}

impl Tetris {
    pub closed spec fn view(&self) -> TetrisView {
        TetrisView {
            rows: self.board@.map_values(|r: Vec<u8>| r@),
            kind: self.kind as nat,
            next_kind: self.next_kind as nat,
            rotation: self.rotation as nat,
            x: self.x,
            y: self.y,
            score: self.score,
            lines: self.lines,
            level: self.level,
            alive: self.alive,
            started: self.started,
            paused: self.paused,
            last_step: self.last_step,
            rng: self.rng,
        }
    }

    /// Twenty rows of ten cells, a piece and rotation that exist, and the
    /// piece near the board.
    pub closed spec fn wf(&self) -> bool {
        &&& self.board@.len() == 20
        &&& forall|r: int| 0 <= r < 20 ==> (#[trigger] self.board@[r])@.len() == 10
        &&& self.kind < 7
        &&& self.next_kind < 7
        &&& self.rotation < 4
        &&& -10 <= self.x <= 20
        &&& -10 <= self.y <= 20
        &&& self.level >= 1
    }

    fn fits_at(&self, kind: usize, rotation: usize, x: i32, y: i32) -> (r: bool)
        requires
            self.wf(),
            kind < 7,
            rotation < 4,
            -20 <= x <= 30,
            -20 <= y <= 30,
        ensures
            r == fits(self.view().rows, kind as int, rotation as int, x as int, y as int),
    {
        let cells = piece_exec(kind, rotation);
        let ghost rows = self.view().rows;
        proof {
            assert(piece(kind as int, rotation as int).len() == 4);
        }
        let mut i: usize = 0;
        while i < 4
            invariant
                self.wf(),
                rows == self.view().rows,
                cells@ == piece(kind as int, rotation as int),
                cells@.len() == 4,
                -20 <= x <= 30,
                -20 <= y <= 30,
                i <= 4,
                forall|j: int| 0 <= j < i ==> #[trigger] cell_free(rows, x + piece(kind as int, rotation as int)[j].0, y + piece(kind as int, rotation as int)[j].1),
            decreases 4 - i,
        {
            let (px, py) = cells[i];
            proof {
                assert(0 <= px <= 3 && 0 <= py <= 3);
            }
            let cx = x + px;
            let cy = y + py;
            proof {
                assert(cells@[i as int] == piece(kind as int, rotation as int)[i as int]);
            }
            if cx < 0 || cx >= COLUMNS || cy >= ROWS {
                proof {
                    assert(!cell_free(rows, x + piece(kind as int, rotation as int)[i as int].0, y + piece(kind as int, rotation as int)[i as int].1));
                }
                return false;
            }
            if cy >= 0 {
                proof {
                    assert(self.board@[cy as int]@.len() == 10);
                    assert(rows[cy as int] == self.board@[cy as int]@);
                }
                if self.board[cy as usize][cx as usize] != 0 {
                    proof {
                        assert(!cell_free(rows, x + piece(kind as int, rotation as int)[i as int].0, y + piece(kind as int, rotation as int)[i as int].1));
                    }
                    return false;
                }
            }
            i += 1;
        }
        true
    }
}

proof fn lemma_nonfull_count(x: Seq<Seq<u8>>)
    ensures
        nonfull(x).len() + count_full(x) == x.len(),
    decreases x.len(),
{
    if x.len() > 0 {
        lemma_nonfull_count(x.drop_last());
    }
}

proof fn lemma_nonfull_front_empty(x: Seq<Seq<u8>>)
    ensures
        nonfull(seq![empty_row()] + x) == seq![empty_row()] + nonfull(x),
        count_full(seq![empty_row()] + x) == count_full(x),
    decreases x.len(),
{
    let e = empty_row();
    assert(!full(e)) by {
        assert(e[0] == 0);
    }
    let none = Seq::<Seq<u8>>::empty();
    assert(seq![e].drop_last() =~= none);
    assert(seq![e].last() == e);
    assert(nonfull(seq![e]) == nonfull(none).push(e));
    assert(nonfull(seq![e]) =~= seq![e]);
    assert(count_full(seq![e]) == count_full(none));
    if x.len() == 0 {
        assert(seq![e] + x =~= seq![e]);
        assert(seq![e] + nonfull(x) =~= seq![e]);
    } else {
        lemma_nonfull_front_empty(x.drop_last());
        assert((seq![e] + x).drop_last() =~= seq![e] + x.drop_last());
        assert((seq![e] + x).last() == x.last());
        if !full(x.last()) {
            assert(seq![e] + nonfull(x.drop_last()).push(x.last()) =~= (seq![e] + nonfull(x.drop_last())).push(x.last()));
        }
    }
}

proof fn lemma_nonfull_same(x: Seq<Seq<u8>>)
    requires
        count_full(x) == 0,
    ensures
        nonfull(x) == x,
    decreases x.len(),
{
    if x.len() > 0 {
        lemma_nonfull_same(x.drop_last());
        assert(nonfull(x.drop_last()).push(x.last()) =~= x);
    }
}

/// The board a partly cleared board will end up as: the rows below
/// `b` are settled, the ones above still to be looked at.
pub open spec fn settled(s: Seq<Seq<u8>>, b: int) -> Seq<Seq<u8>> {
    let u = nonfull(s.take(b));
    Seq::new((b - u.len()) as nat, |i: int| empty_row()) + u + s.skip(b)
}

fn row_is_full(row: &Vec<u8>) -> (r: bool)
    ensures
        r == full(row@),
{
    let mut c: usize = 0;
    while c < row.len()
        invariant
            c <= row@.len(),
            forall|k: int| 0 <= k < c ==> row@[k] != 0,
        decreases row@.len() - c,
    {
        if row[c] == 0 {
            return false;
        }
        c += 1;
    }
    true
}

fn new_row() -> (r: Vec<u8>)
    ensures
        r@ == empty_row(),
{
    let mut r: Vec<u8> = Vec::new();
    let mut c: usize = 0;
    while c < 10
        invariant
            c <= 10,
            r@ == Seq::new(c as nat, |k: int| 0u8),
        decreases 10 - c,
    {
        r.push(0);
        c += 1;
        proof {
            assert(r@ =~= Seq::new(c as nat, |k: int| 0u8));
        }
    }
    r
}

impl Tetris {
    /// Remove every full row, dropping what is above; score the rows.
    fn clear_lines(&mut self) -> (sound: Vec<Step>)
        requires
            old(self).wf(),
        ensures
            final(self).wf(),
            (final(self).view(), sound@) == clear_spec(old(self).view()),
    {
        let ghost r0 = self.view().rows;
        let mut removed: u32 = 0;
        let mut row: i32 = 19;
        proof {
            lemma_nonfull_count(r0);
            assert(r0.take(20) =~= r0);
            assert(r0.skip(20) =~= Seq::<Seq<u8>>::empty());
            assert(settled(r0, 20) =~= cleared(r0));
        }
        while row >= 0
            invariant
                self.wf(),
                self.kind == old(self).kind,
                self.next_kind == old(self).next_kind,
                self.rotation == old(self).rotation,
                self.x == old(self).x,
                self.y == old(self).y,
                self.score == old(self).score,
                self.lines == old(self).lines,
                self.level == old(self).level,
                self.alive == old(self).alive,
                self.started == old(self).started,
                self.paused == old(self).paused,
                self.last_step == old(self).last_step,
                self.rng == old(self).rng,
                r0 == old(self).view().rows,
                r0.len() == 20,
                -1 <= row <= 19,
                removed + count_full(self.view().rows.take(row + 1)) == count_full(r0),
                settled(self.view().rows, row + 1) == cleared(r0),
            decreases row + 1 + 20 - removed,
        {
            let ghost s = self.view().rows;
            let r = row as usize;
            proof {
                lemma_nonfull_count(s.take(row + 1));
                lemma_nonfull_count(r0);
                assert(s.take(row + 1).drop_last() =~= s.take(row as int));
                assert(s.take(row + 1).last() == s[row as int]);
                assert(s[row as int] == self.board@[row as int]@);
            }
            if row_is_full(&self.board[r]) {
                proof {
                    assert(count_full(s.take(row + 1)) >= 1);
                }
                self.board.remove(r);
                let e = new_row();
                self.board.insert(0, e);
                removed = removed + 1;
                proof {
                    let s2 = self.view().rows;
                    assert(s2 =~= seq![empty_row()] + s.take(row as int) + s.skip(row + 1));
                    assert(s2.take(row + 1) =~= seq![empty_row()] + s.take(row as int));
                    assert(s2.skip(row + 1) =~= s.skip(row + 1));
                    lemma_nonfull_front_empty(s.take(row as int));
                    let u = nonfull(s.take(row + 1));
                    assert(nonfull(s2.take(row + 1)) == seq![empty_row()] + u);
                    let k = row + 1 - u.len();
                    assert(k >= 1) by {
                        lemma_nonfull_count(s.take(row + 1));
                    }
                    assert(settled(s2, row + 1) =~= settled(s, row + 1));
                    assert forall|q: int| 0 <= q < 20 implies (#[trigger] self.board@[q])@.len() == 10 by {
                        if q == 0 {
                        } else if q <= row {
                            assert(self.board@[q] == old(self).board@[q - 1] || true);
                            assert(s2[q] == s[q - 1]);
                        } else {
                            assert(s2[q] == s[q]);
                        }
                    }
                }
            } else {
                proof {
                    assert(s.take(row + 1) =~= s.take(row as int).push(s[row as int]));
                    assert(s.skip(row as int) =~= seq![s[row as int]] + s.skip(row + 1));
                    assert(settled(s, row as int) =~= settled(s, row + 1));
                }
                row = row - 1;
            }
        }
        proof {
            let s = self.view().rows;
            assert(s.take(0) =~= Seq::<Seq<u8>>::empty());
            assert(s.skip(0) =~= s);
            assert(settled(s, 0) =~= s);
        }
        proof {
            if removed == 0 {
                lemma_nonfull_same(r0);
                assert(cleared(r0) =~= r0);
            }
        }
        if removed > 0 {
            let pts: u32 = if removed == 1 { 100 } else if removed == 2 { 300 } else if removed == 3 { 500 } else { 800 };
            self.score = self.score.wrapping_add(pts.wrapping_mul(self.level));
            self.lines = self.lines.wrapping_add(removed);
            self.level = 1 + self.lines / 10;
            return beep(700 + removed * 200, 25);
        }
        let sound = Vec::new();
        proof {
            assert(sound@ =~= Seq::<Step>::empty());
            assert(self.view().rows =~= old(self).view().rows);
        }
        sound
    }
}

impl Tetris {
    /// Write the piece into the board where it lies.
    fn stamp_piece(&mut self)
        requires
            old(self).wf(),
        ensures
            final(self).wf(),
            final(self).view() == (TetrisView {
                rows: stamp(old(self).view().rows, old(self).kind as int, old(self).rotation as int, old(self).x as int, old(self).y as int),
                ..old(self).view()
            }),
    {
        let ghost r0 = self.view().rows;
        let ghost k = self.kind as int;
        let ghost rot = self.rotation as int;
        let ghost x0 = self.x as int;
        let ghost y0 = self.y as int;
        let cells = piece_exec(self.kind, self.rotation);
        let value = self.kind as u8 + 1;
        let mut i: usize = 0;
        proof {
            assert(self.view().rows =~= stamp_upto(r0, k, rot, x0, y0, 0));
        }
        while i < 4
            invariant
                self.wf(),
                self.kind == old(self).kind,
                self.rotation == old(self).rotation,
                self.x == old(self).x,
                self.y == old(self).y,
                self.next_kind == old(self).next_kind,
                self.score == old(self).score,
                self.lines == old(self).lines,
                self.level == old(self).level,
                self.alive == old(self).alive,
                self.started == old(self).started,
                self.paused == old(self).paused,
                self.last_step == old(self).last_step,
                self.rng == old(self).rng,
                r0 == old(self).view().rows,
                r0.len() == 20,
                forall|r: int| 0 <= r < 20 ==> (#[trigger] r0[r]).len() == 10,
                k == self.kind, rot == self.rotation, x0 == self.x, y0 == self.y,
                value == k + 1,
                cells@ == piece(k, rot),
                i <= 4,
                self.view().rows == stamp_upto(r0, k, rot, x0, y0, i as int),
                self.view().rows.len() == 20,
            decreases 4 - i,
        {
            let (px, py) = cells[i];
            proof {
                assert(0 <= px <= 3 && 0 <= py <= 3);
            }
            let cx = self.x + px;
            let cy = self.y + py;
            let ghost before = self.view().rows;
            if cy >= 0 && cy < ROWS && cx >= 0 && cx < COLUMNS {
                let mut row = self.board.remove(cy as usize);
                row.set(cx as usize, value);
                self.board.insert(cy as usize, row);
            }
            proof {
                let after = self.view().rows;
                assert(after =~= stamp_upto(r0, k, rot, x0, y0, i as int + 1));
                assert forall|r: int| 0 <= r < 20 implies (#[trigger] self.board@[r])@.len() == 10 by {
                    assert(after[r] == self.board@[r]@);
                }
            }
            i += 1;
        }
    }

    /// Bring on the next piece; the game ends if it does not fit.
    fn spawn(&mut self) -> (sound: Vec<Step>)
        requires
            old(self).wf(),
        ensures
            final(self).wf(),
            (final(self).view(), sound@) == spawn_spec(old(self).view()),
    {
        self.kind = self.next_kind;
        let out = crate::apps::snake::next_random(&mut self.rng);
        self.next_kind = (out % 7) as usize;
        self.rotation = 0;
        self.x = COLUMNS / 2 - 2;
        self.y = -1;
        if !self.fits_at(self.kind, self.rotation, self.x, self.y) {
            self.alive = false;
            return error_tone();
        }
        let sound = Vec::new();
        proof {
            assert(sound@ =~= Seq::<Step>::empty());
        }
        sound
    }

    /// Fix the piece, clear rows, and bring on the next piece.
    fn lock(&mut self) -> (sound: Vec<Step>)
        requires
            old(self).wf(),
        ensures
            final(self).wf(),
            (final(self).view(), sound@) == lock_spec(old(self).view()),
    {
        self.stamp_piece();
        let mut sound = self.clear_lines();
        let mut more = self.spawn();
        sound.append(&mut more);
        sound
    }

    /// Move down a row, or lock the piece if it cannot.
    fn drop_one(&mut self) -> (sound: Vec<Step>)
        requires
            old(self).wf(),
        ensures
            final(self).wf(),
            (final(self).view(), sound@) == drop_spec(old(self).view()),
    {
        self.dirty = true;
        if self.fits_at(self.kind, self.rotation, self.x, self.y + 1) {
            proof {
                lemma_fits_bounds(self.view(), self.y as int + 1);
            }
            self.y = self.y + 1;
            let sound = Vec::new();
            proof {
                assert(sound@ =~= Seq::<Step>::empty());
            }
            return sound;
        }
        self.lock()
    }

    /// Drop to the bottom at once, two points a row, and lock.
    fn hard_drop(&mut self) -> (sound: Vec<Step>)
        requires
            old(self).wf(),
        ensures
            final(self).wf(),
            (final(self).view(), sound@) == hard_drop_spec(old(self).view()),
    {
        let ghost v0 = self.view();
        let mut d: u32 = 0;
        proof {
            lemma_fall(v0, 0);
        }
        while d < 40 && self.fits_at(self.kind, self.rotation, self.x, self.y + 1)
            invariant
                self.wf(),
                d <= 40,
                self.view() == (TetrisView { y: (v0.y + d) as i32, score: ((v0.score + 2 * d) % 0x1_0000_0000) as u32, ..v0 }),
                fall(v0, d as int) == fall(v0, 0),
                v0.y + d <= 20,
            decreases 40 - d,
        {
            proof {
                lemma_fits_bounds(self.view(), self.y as int + 1);
            }
            self.y = self.y + 1;
            self.score = self.score.wrapping_add(2);
            d = d + 1;
        }
        self.lock()
    }
}

proof fn lemma_fits_bounds(v: TetrisView, y: int)
    requires
        v.kind < 7,
        v.rotation < 4,
        fits(v.rows, v.kind as int, v.rotation as int, v.x as int, y),
    ensures
        y <= 19,
{
    assert(cell_free(v.rows, v.x + piece(v.kind as int, v.rotation as int)[0].0, y + piece(v.kind as int, v.rotation as int)[0].1));
    assert(piece(v.kind as int, v.rotation as int)[0].1 >= 0);
}

proof fn lemma_fall(v: TetrisView, k: int)
    requires
        0 <= k <= 40,
    ensures
        k <= fall(v, k) <= 40,
    decreases 40 - k,
{
    if k < 40 && fits(v.rows, v.kind as int, v.rotation as int, v.x as int, v.y + k + 1) {
        lemma_fall(v, k + 1);
    }
}

/// An empty board.
pub open spec fn empty_board() -> Seq<Seq<u8>> {
    Seq::new(20, |r: int| empty_row())
}

/// A new round on an empty board.
pub open spec fn reset_spec(v: TetrisView) -> (TetrisView, Seq<Step>) {
    spawn_spec(TetrisView {
        rows: empty_board(), score: 0, lines: 0, level: 1, alive: true, started: false, paused: false, ..v
    })
}

/// The first of the nudges 0, -1, 1, -2, 2 at which the piece fits
/// turned a quarter.
pub open spec fn kick(v: TetrisView) -> Option<int> {
    let r = ((v.rotation + 1) % 4) as int;
    let k = v.kind as int;
    if fits(v.rows, k, r, v.x as int, v.y as int) { Some(0) }
    else if fits(v.rows, k, r, v.x - 1, v.y as int) { Some(-1) }
    else if fits(v.rows, k, r, v.x + 1, v.y as int) { Some(1) }
    else if fits(v.rows, k, r, v.x - 2, v.y as int) { Some(-2) }
    else if fits(v.rows, k, r, v.x + 2, v.y as int) { Some(2) }
    else { None }
}

/// What a key press does.
pub open spec fn key_spec(v: TetrisView, e: KeyEvent) -> (TetrisView, Seq<Step>) {
    if !e.pressed {
        (v, Seq::empty())
    } else if e.character == Some('r') {
        reset_spec(v)
    } else if !v.alive {
        (v, Seq::empty())
    } else if e.character == Some('p') {
        (TetrisView { paused: !v.paused, ..v }, Seq::empty())
    } else if v.paused {
        (TetrisView { started: true, ..v }, Seq::empty())
    } else {
        let v1 = TetrisView { started: true, ..v };
        let k = v.kind as int;
        let r = v.rotation as int;
        match e.key {
            Key::Left => if fits(v.rows, k, r, v.x - 1, v.y as int) { (TetrisView { x: (v.x - 1) as i32, ..v1 }, Seq::empty()) } else { (v1, Seq::empty()) },
            Key::Right => if fits(v.rows, k, r, v.x + 1, v.y as int) { (TetrisView { x: (v.x + 1) as i32, ..v1 }, Seq::empty()) } else { (v1, Seq::empty()) },
            Key::Down => drop_spec(v1),
            Key::Up => match kick(v1) {
                Some(o) => (TetrisView { rotation: ((v.rotation + 1) % 4) as nat, x: (v.x + o) as i32, ..v1 }, Seq::empty()),
                None => (v1, Seq::empty()),
            },
            Key::Char => if e.character == Some(' ') { hard_drop_spec(v1) } else { (v1, Seq::empty()) },
            _ => (v1, Seq::empty()),
        }
    }
}

fn empty_board_exec() -> (b: Vec<Vec<u8>>)
    ensures
        b@.map_values(|row: Vec<u8>| row@) == empty_board(),
        b@.len() == 20,
        forall|q: int| 0 <= q < 20 ==> (#[trigger] b@[q])@ == empty_row(),
{
    let mut board: Vec<Vec<u8>> = Vec::new();
    let mut r: usize = 0;
    while r < 20
        invariant
            r <= 20,
            board@.len() == r,
            forall|q: int| 0 <= q < r ==> (#[trigger] board@[q])@ == empty_row(),
        decreases 20 - r,
    {
        board.push(new_row());
        r += 1;
    }
    proof {
        assert(board@.map_values(|row: Vec<u8>| row@) =~= empty_board());
    }
    board
}

impl Tetris {
    /// Clear the board and start a new round.
    pub fn reset(&mut self) -> (sound: Vec<Step>)
        requires
            old(self).wf(),
        ensures
            final(self).wf(),
            (final(self).view(), sound@) == reset_spec(old(self).view()),
    {
        let board = empty_board_exec();
        self.board = board;
        proof {
            assert forall|q: int| 0 <= q < 20 implies (#[trigger] self.board@[q])@.len() == 10 by {
                assert(self.board@[q]@ == empty_row());
            }
        }
        self.score = 0;
        self.lines = 0;
        self.level = 1;
        self.alive = true;
        self.started = false;
        self.paused = false;
        self.dirty = true;
        self.spawn()
    }

    /// A new game, its random generator seeded from `seed`.
    pub fn new(seed: u64) -> (r: (Tetris, Vec<Step>))
        ensures
            r.0.wf(),
            ({
                let (s1, a) = rng_next(seed | 1);
                let (s2, b) = rng_next(s1);
                (r.0.view(), r.1@) == spawn_spec(TetrisView {
                    rows: empty_board(), kind: (a % 7) as nat, next_kind: (b % 7) as nat, rotation: 0,
                    x: 3, y: 0, score: 0, lines: 0, level: 1, alive: true, started: false, paused: false,
                    last_step: 0, rng: s2 })
            }),
    {
        let mut rng = seed | 1;
        let kind = (crate::apps::snake::next_random(&mut rng) % 7) as usize;
        let next_kind = (crate::apps::snake::next_random(&mut rng) % 7) as usize;
        let mut game = Tetris {
            board: Vec::new(),
            kind,
            next_kind,
            rotation: 0,
            x: COLUMNS / 2 - 2,
            y: 0,
            score: 0,
            lines: 0,
            level: 1,
            alive: true,
            started: false,
            paused: false,
            last_step: 0,
            rng,
            dirty: true,
        };
        let board = empty_board_exec();
        game.board = board;
        proof {
            assert forall|q: int| 0 <= q < 20 implies (#[trigger] game.board@[q])@.len() == 10 by {
                assert(game.board@[q]@ == empty_row());
            }
        }
        let sound = game.spawn();
        (game, sound)
    }

    /// React to a key: arrows move and turn the piece, space drops it,
    /// `p` pauses and `r` starts over.
    pub fn on_key(&mut self, event: &KeyEvent) -> (sound: Vec<Step>)
        requires
            old(self).wf(),
        ensures
            final(self).wf(),
            (final(self).view(), sound@) == key_spec(old(self).view(), *event),
    {
        let none = Vec::new();
        proof {
            assert(none@ =~= Seq::<Step>::empty());
        }
        if !event.pressed {
            return none;
        }
        self.dirty = true;
        let is_char = |c: char| -> (r: bool) ensures r == (event.character == Some(c)) {
            match event.character {
                Some(d) => d == c,
                None => false,
            }
        };
        if is_char('r') {
            return self.reset();
        }
        if !self.alive {
            return none;
        }
        if is_char('p') {
            self.paused = !self.paused;
            return none;
        }
        self.started = true;
        if self.paused {
            return none;
        }
        proof {
            assert(-10 <= self.x <= 20 && -10 <= self.y <= 20);
        }
        match event.key {
            Key::Left => {
                if self.fits_at(self.kind, self.rotation, self.x - 1, self.y) {
                    proof {
                        lemma_fits_x(self.view(), self.kind as int, self.rotation as int, self.x - 1, self.y as int);
                    }
                    self.x = self.x - 1;
                }
                none
            },
            Key::Right => {
                if self.fits_at(self.kind, self.rotation, self.x + 1, self.y) {
                    proof {
                        lemma_fits_x(self.view(), self.kind as int, self.rotation as int, self.x + 1, self.y as int);
                    }
                    self.x = self.x + 1;
                }
                none
            },
            Key::Down => self.drop_one(),
            Key::Up => {
                let rotated = (self.rotation + 1) % 4;
                let offsets: [i32; 5] = [0, -1, 1, -2, 2];
                let mut i: usize = 0;
                let ghost v1 = self.view();
                proof {
                    assert(self.view().rows =~= old(self).view().rows);
                    assert(v1 == TetrisView { started: true, ..old(self).view() });
                }
                while i < 5
                    invariant
                        self.wf(),
                        self.view() == v1,
                        v1 == (TetrisView { started: true, ..old(self).view() }),
                        !old(self).view().paused,
                        old(self).view().alive,
                        v1.alive && v1.started,
                        rotated == (v1.rotation + 1) % 4,
                        offsets@ == seq![0i32, -1i32, 1i32, -2i32, 2i32],
                        none@ == Seq::<Step>::empty(),
                        event.pressed,
                        event.key == Key::Up,
                        event.character != Some('r'),
                        event.character != Some('p'),
                        i <= 5,
                        forall|j: int| 0 <= j < i ==> !fits(v1.rows, v1.kind as int, rotated as int, v1.x + offsets@[j], v1.y as int),
                    decreases 5 - i,
                {
                    let offset = offsets[i];
                    if self.fits_at(self.kind, rotated, self.x + offset, self.y) {
                        proof {
                            lemma_fits_x(self.view(), self.kind as int, rotated as int, self.x + offset, self.y as int);
                        }
                        proof {
                            let k = v1.kind as int;
                            let rr = rotated as int;
                            if i >= 1 { assert(!fits(v1.rows, k, rr, v1.x + offsets@[0], v1.y as int)); }
                            if i >= 2 { assert(!fits(v1.rows, k, rr, v1.x + offsets@[1], v1.y as int)); }
                            if i >= 3 { assert(!fits(v1.rows, k, rr, v1.x + offsets@[2], v1.y as int)); }
                            if i >= 4 { assert(!fits(v1.rows, k, rr, v1.x + offsets@[3], v1.y as int)); }
                            assert(kick(v1) == Some(offsets@[i as int] as int));
                        }
                        self.rotation = rotated;
                        self.x = self.x + offset;
                        proof {
                            let v = old(self).view();
                            assert(v1 == TetrisView { started: true, ..v });
                            assert(self.view() == TetrisView { rotation: ((v.rotation + 1) % 4) as nat, x: (v.x + offsets@[i as int]) as i32, ..v1 });
                        }
                        return none;
                    }
                    i += 1;
                }
                proof {
                    let k = v1.kind as int;
                    let rr = rotated as int;
                    assert(!fits(v1.rows, k, rr, v1.x + offsets@[0], v1.y as int));
                    assert(!fits(v1.rows, k, rr, v1.x + offsets@[1], v1.y as int));
                    assert(!fits(v1.rows, k, rr, v1.x + offsets@[2], v1.y as int));
                    assert(!fits(v1.rows, k, rr, v1.x + offsets@[3], v1.y as int));
                    assert(!fits(v1.rows, k, rr, v1.x + offsets@[4], v1.y as int));
                }
                none
            },
            Key::Char => {
                if is_char(' ') {
                    self.hard_drop()
                } else {
                    none
                }
            },
            _ => none,
        }
    }

    /// Milliseconds between drops at the current level.
    pub fn step_interval(&self) -> (r: u64)
        requires
            self.wf(),
        ensures
            r == interval(self.view().level),
    {
        let slowed = (self.level as u64 - 1) * 55;
        let t = 600u64.saturating_sub(slowed);
        if t >= 80 { t } else { 80 }
    }

    /// Advance the clock to `now_ms`: while the game runs, the piece
    /// drops a row each interval.
    pub fn tick(&mut self, now_ms: u64) -> (sound: Vec<Step>)
        requires
            old(self).wf(),
        ensures
            final(self).wf(),
            ({
                let v = old(self).view();
                let due = v.started && !v.paused && v.alive
                    && (if now_ms >= v.last_step { now_ms - v.last_step } else { 0 }) >= interval(v.level);
                if due {
                    (final(self).view(), sound@) == drop_spec(TetrisView { last_step: now_ms, ..v })
                } else {
                    final(self).view() == v && sound@.len() == 0
                }
            }),
    {
        if !self.started || self.paused || !self.alive {
            return Vec::new();
        }
        if now_ms.saturating_sub(self.last_step) >= self.step_interval() {
            self.last_step = now_ms;
            return self.drop_one();
        }
        Vec::new()
    }

    /// Score, lines, level, and whether the game is alive, started, paused.
    pub fn status(&self) -> (r: (u32, u32, u32, bool, bool, bool))
        ensures
            r == (self.view().score, self.view().lines, self.view().level, self.view().alive, self.view().started, self.view().paused),
    {
        (self.score, self.lines, self.level, self.alive, self.started, self.paused)
    }
}

proof fn lemma_fits_x(v: TetrisView, k: int, r: int, x: int, y: int)
    requires
        0 <= k < 7,
        0 <= r < 4,
        fits(v.rows, k, r, x, y),
    ensures
        -3 <= x <= 9,
{
    assert(cell_free(v.rows, x + piece(k, r)[0].0, y + piece(k, r)[0].1));
    assert(cell_free(v.rows, x + piece(k, r)[1].0, y + piece(k, r)[1].1));
    assert(cell_free(v.rows, x + piece(k, r)[2].0, y + piece(k, r)[2].1));
    assert(cell_free(v.rows, x + piece(k, r)[3].0, y + piece(k, r)[3].1));
}

/// After rows are cleared none is left full, and the board keeps its
/// twenty rows.
pub proof fn law_no_full_rows_after_clear(rows: Seq<Seq<u8>>)
    ensures
        count_full(cleared(rows)) == 0,
        cleared(rows).len() == rows.len(),
{
    lemma_nonfull_count(rows);
    lemma_count_nonfull_zero(rows);
    lemma_count_empty_prefix(count_full(rows), nonfull(rows));
}

/// A clear adds to the lines counter exactly the number of rows it took
/// off the board (wrapping at the top of the counter), and the level
/// follows the counter: one more for every ten lines.
pub proof fn law_lines_count_rows_removed(v: TetrisView)
    ensures
        ({
            let removed = v.rows.len() - nonfull(v.rows).len();
            let after = clear_spec(v).0;
            &&& after.lines == vstd::wrapping::u32_specs::wrapping_add(v.lines, removed as u32)
            &&& v.lines + removed <= u32::MAX ==> after.lines == v.lines + removed
            &&& removed > 0 ==> after.level == 1 + after.lines / 10
        }),
{
    lemma_nonfull_count(v.rows);
}

proof fn lemma_count_nonfull_zero(x: Seq<Seq<u8>>)
    ensures
        count_full(nonfull(x)) == 0,
    decreases x.len(),
{
    if x.len() > 0 {
        lemma_count_nonfull_zero(x.drop_last());
        if !full(x.last()) {
            assert(nonfull(x.drop_last()).push(x.last()).drop_last() =~= nonfull(x.drop_last()));
        }
    }
}

proof fn lemma_count_empty_prefix(n: nat, x: Seq<Seq<u8>>)
    ensures
        count_full(Seq::new(n, |i: int| empty_row()) + x) == count_full(x),
    decreases n,
{
    if n > 0 {
        lemma_count_empty_prefix((n - 1) as nat, x);
        lemma_nonfull_front_empty(Seq::new((n - 1) as nat, |i: int| empty_row()) + x);
        assert(seq![empty_row()] + (Seq::new((n - 1) as nat, |i: int| empty_row()) + x) =~= Seq::new(n, |i: int| empty_row()) + x);
    }
}

// ---------------------------------------------------------------------
// What the window shows.
// ---------------------------------------------------------------------

/// The colour of piece `kind`.
pub open spec fn piece_colour(kind: int) -> Color {
    if kind == 0 {
        CYAN
    } else if kind == 1 {
        0x005A_9BFF
    } else if kind == 2 {
        0x00FF_9A3C
    } else if kind == 3 {
        WARN
    } else if kind == 4 {
        OK
    } else if kind == 5 {
        VIOLET
    } else {
        ERROR
    }
}

fn colour_of(kind: usize) -> (c: Color)
    ensures
        c == piece_colour(kind as int),
{
    if kind == 0 {
        CYAN
    } else if kind == 1 {
        0x005A_9BFF
    } else if kind == 2 {
        0x00FF_9A3C
    } else if kind == 3 {
        WARN
    } else if kind == 4 {
        OK
    } else if kind == 5 {
        VIOLET
    } else {
        ERROR
    }
}

/// The board's geometry in a `w` x `h` window: the cell size, and the
/// board's top-left corner.
pub open spec fn cell_size(w: int, h: int) -> int {
    let a = quot(w - 90, COLUMNS as int);
    let b = quot(h - HEADER - 12, ROWS as int);
    let m = if a < b { a } else { b };
    if m > 4 { m } else { 4 }
}

pub open spec fn board_top(h: int, cell: int) -> int {
    HEADER + quot(h - HEADER - cell * ROWS, 2)
}

pub open spec fn square(x: int, y: int, side: int) -> Rect {
    Rect { x: x as i32, y: y as i32, w: side as i32, h: side as i32 }
}

/// A block at board cell (x, y): a filled square with a lighter top edge.
pub open spec fn block_ops(ox: int, oy: int, cell: int, x: int, y: int, c: Color) -> Seq<Op> {
    let r = square(ox + x * cell + 1, oy + y * cell + 1, cell - 2);
    seq![Op::Fill(r, c), Op::HLine(r.x, r.y, r.w, scale_value(c, 200) as u32)]
}

/// The settled blocks among the first `k` cells, row by row.
pub open spec fn settled_ops(rows: Seq<Seq<u8>>, ox: int, oy: int, cell: int, k: int) -> Seq<Op>
    decreases k,
{
    if k <= 0 {
        Seq::empty()
    } else {
        let i = k - 1;
        let value = rows[i / 10][i % 10];
        settled_ops(rows, ox, oy, cell, i) + if value != 0 {
            block_ops(ox, oy, cell, i % 10, i / 10, piece_colour(value - 1))
        } else {
            Seq::empty()
        }
    }
}

/// The landing shadow's outline for cell `i` of the falling piece.
pub open spec fn shadow_ops(v: TetrisView, ox: int, oy: int, cell: int, i: int) -> Seq<Op> {
    let p = piece(v.kind as int, v.rotation as int)[i];
    let cx = v.x + p.0;
    let cy = v.y + fall(v, 0) + p.1;
    if cy >= 0 {
        seq![Op::Stroke(square(ox + cx * cell + 1, oy + cy * cell + 1, cell - 2), scale_value(piece_colour(v.kind as int), 90) as u32)]
    } else {
        Seq::empty()
    }
}

/// The falling piece's block for its cell `i`.
pub open spec fn falling_ops(v: TetrisView, ox: int, oy: int, cell: int, i: int) -> Seq<Op> {
    let p = piece(v.kind as int, v.rotation as int)[i];
    let cx = v.x + p.0;
    let cy = v.y + p.1;
    if cy >= 0 { block_ops(ox, oy, cell, cx, cy, piece_colour(v.kind as int)) } else { Seq::empty() }
}

/// The next piece's cell `i`, in the side panel.
pub open spec fn next_op(v: TetrisView, panel_x: int, oy: int, cell: int, i: int) -> Op {
    let p = piece(v.next_kind as int, 0)[i];
    Op::Fill(Rect {
        x: (panel_x + p.0 * (cell - 2) + 2) as i32,
        y: (oy + 22 + p.1 * (cell - 2)) as i32,
        w: (cell - 4) as i32,
        h: (cell - 4) as i32,
    }, piece_colour(v.next_kind as int))
}

/// The operations `f(0)`, ..., `f(n - 1)`, one after another.
pub open spec fn concat_upto(f: spec_fn(int) -> Seq<Op>, n: int) -> Seq<Op>
    decreases n,
{
    if n <= 0 { Seq::empty() } else { concat_upto(f, n - 1) + f(n - 1) }
}

/// One for each cell of a piece.
pub open spec fn four(f: spec_fn(int) -> Seq<Op>) -> Seq<Op> {
    concat_upto(f, 4)
}

/// The banner over the board when the game is not running.
pub open spec fn banner_ops(v: TetrisView, ox: int, oy: int, bw: int, bh: int) -> Seq<Op> {
    if !v.started || v.paused || !v.alive {
        let (line, colour) = if !v.alive {
            ("GAME OVER"@, ERROR)
        } else if v.paused {
            ("PAUSED"@, WARN)
        } else {
            ("press a key"@, TEXT_BRIGHT)
        };
        seq![
            Op::Blend(Rect { x: ox as i32, y: (oy + quot(bh, 2) - 26) as i32, w: bw as i32, h: 52 }, BLACK, 200),
            Op::Centered(line, (ox + quot(bw, 2)) as i32, (oy + quot(bh, 2) - 14) as i32, colour, Weight::Bold),
        ] + if !v.alive {
            seq![Op::Centered("r restarts"@, (ox + quot(bw, 2)) as i32, (oy + quot(bh, 2) + 4) as i32, TEXT_DIM, Weight::Regular)]
        } else {
            Seq::empty()
        }
    } else {
        Seq::empty()
    }
}

/// The header and the empty board.
pub open spec fn head_ops(v: TetrisView, w: int, ox: int, oy: int, bw: int, bh: int) -> Seq<Op> {
    let board = Rect { x: ox as i32, y: oy as i32, w: bw as i32, h: bh as i32 };
    seq![
        Op::Clear(0x0006_0912),
        Op::Fill(Rect { x: 0, y: 0, w: w as i32, h: HEADER }, 0x0012_1828),
        Op::HLine(0, 23i32, w as i32, BORDER),
        Op::Text("score "@ + dec_str(v.score as nat), 8, 4, AMBER, Weight::Bold, 1),
        Op::Text("lines "@ + dec_str(v.lines as nat) + "   level "@ + dec_str(v.level as nat), 128, 4, TEXT_DIM, Weight::Regular, 1),
        Op::Fill(board, 0x0008_0C16),
        Op::Stroke(board, BORDER),
    ]
}

/// The falling piece and where it will land, while the game is alive.
pub open spec fn piece_ops(v: TetrisView, ox: int, oy: int, cell: int) -> Seq<Op> {
    if v.alive {
        four(|i: int| shadow_ops(v, ox, oy, cell, i)) + four(|i: int| falling_ops(v, ox, oy, cell, i))
    } else {
        Seq::empty()
    }
}

/// The side panel: the next piece, and the keys.
pub open spec fn panel_ops(v: TetrisView, panel_x: int, oy: int, cell: int) -> Seq<Op> {
    seq![Op::Text("next"@, panel_x as i32, (oy + 4) as i32, TEXT_DIM, Weight::Regular, 1)]
        + four(|i: int| seq![next_op(v, panel_x, oy, cell, i)])
        + seq![
            Op::Text("arrows move"@, panel_x as i32, (oy + 100) as i32, TEXT_FAINT, Weight::Regular, 1),
            Op::Text("up rotates"@, panel_x as i32, (oy + 116) as i32, TEXT_FAINT, Weight::Regular, 1),
            Op::Text("space drops"@, panel_x as i32, (oy + 132) as i32, TEXT_FAINT, Weight::Regular, 1),
            Op::Text("p pauses"@, panel_x as i32, (oy + 148) as i32, TEXT_FAINT, Weight::Regular, 1),
        ]
}

/// Everything the window draws, in order, for a `w` x `h` window.
pub open spec fn tetris_scene(v: TetrisView, w: int, h: int) -> Seq<Op> {
    let cell = cell_size(w, h);
    let bw = cell * COLUMNS;
    let bh = cell * ROWS;
    let oy = board_top(h, cell);
    head_ops(v, w, 8, oy, bw, bh) + settled_ops(v.rows, 8, oy, cell, 200) + piece_ops(v, 8, oy, cell)
        + panel_ops(v, 8 + bw + 10, oy, cell) + banner_ops(v, 8, oy, bw, bh)
}

fn push_op(ops: &mut Vec<Paint>, p: Paint)
    ensures
        ops_view(final(ops)@) == ops_view(old(ops)@).push(op_view(p)),
{
    proof {
        lemma_ops_push(ops@, p);
    }
    ops.push(p);
}

fn push_block(ops: &mut Vec<Paint>, ox: i64, oy: i64, cell: i64, x: i64, y: i64, c: Color)
    requires
        4 <= cell <= 0x1000_0000,
        -0x1_0000_0000 <= ox <= 0x1_0000_0000,
        -0x1_0000_0000 <= oy <= 0x1_0000_0000,
        -80 <= x <= 80,
        -80 <= y <= 80,
    ensures
        ops_view(final(ops)@) == ops_view(old(ops)@) + block_ops(ox as int, oy as int, cell as int, x as int, y as int, c),
{
    proof {
        assert(-80 * 0x1000_0000 <= x * cell <= 80 * 0x1000_0000) by (nonlinear_arith) requires -80 <= x <= 80, 4 <= cell <= 0x1000_0000;
        assert(-80 * 0x1000_0000 <= y * cell <= 80 * 0x1000_0000) by (nonlinear_arith) requires -80 <= y <= 80, 4 <= cell <= 0x1000_0000;
    }
    let r = Rect::new((ox + x * cell + 1) as i32, (oy + y * cell + 1) as i32, (cell - 2) as i32, (cell - 2) as i32);
    push_op(ops, Paint::Fill(r, c));
    push_op(ops, Paint::HLine(r.x, r.y, r.w, scale(c, 200)));
    proof {
        assert(ops_view(ops@) =~= ops_view(old(ops)@) + block_ops(ox as int, oy as int, cell as int, x as int, y as int, c));
    }
}

fn text_op(t: Vec<char>, x: i32, y: i32, c: Color, w: Weight) -> (p: Paint)
    ensures
        op_view(p) == Op::Text(t@, x, y, c, w, 1),
{
    Paint::Text(string_of(t.as_slice()), x, y, c, w, 1)
}

fn literal_op(t: &str, x: i32, y: i32, c: Color, w: Weight) -> (p: Paint)
    ensures
        op_view(p) == Op::Text(t@, x, y, c, w, 1),
{
    Paint::Text(crate::text::to_string(t), x, y, c, w, 1)
}

fn halve(a: i64) -> (q: i64)
    requires
        -0x4000_0000_0000 <= a <= 0x4000_0000_0000,
    ensures
        q == quot(a as int, 2),
{
    crate::num::divide(a, 2)
}

impl Tetris {
    /// Where the falling piece would land.
    fn landing(&self) -> (d: i32)
        requires
            self.wf(),
        ensures
            d == fall(self.view(), 0),
            0 <= d <= 40,
    {
        let ghost v0 = self.view();
        let mut d: i32 = 0;
        proof {
            lemma_fall(v0, 0);
        }
        while d < 40 && self.fits_at(self.kind, self.rotation, self.x, self.y + d + 1)
            invariant
                self.wf(),
                v0 == self.view(),
                0 <= d <= 40,
                fall(v0, d as int) == fall(v0, 0),
                v0.y + d <= 20,
            decreases 40 - d,
        {
            proof {
                lemma_fits_bounds(self.view(), self.y as int + d + 1);
            }
            d = d + 1;
        }
        d
    }

    /// Everything the window draws, for a `width` x `height` window.
    pub fn scene(&self, width: i32, height: i32) -> (ops: Vec<Paint>)
        requires
            self.wf(),
            width >= 0,
            height >= 0,
        ensures
            ops_view(ops@) == tetris_scene(self.view(), width as int, height as int),
    {
        let ghost v = self.view();
        let w = width as i64;
        let h = height as i64;
        let a = crate::num::divide(w - 90, COLUMNS as i64);
        let b = crate::num::divide(h - HEADER as i64 - 12, ROWS as i64);
        let m = if a < b { a } else { b };
        let cell = if m > 4 { m } else { 4 };
        proof {
            assert(cell as int == cell_size(width as int, height as int));
            assert(cell <= 0x1000_0000);
        }
        let bw = cell * COLUMNS as i64;
        let bh = cell * ROWS as i64;
        let ox: i64 = 8;
        let oy = HEADER as i64 + halve(h - HEADER as i64 - bh);
        let panel_x = ox + bw + 10;
        let mut ops = self.head(width, ox, oy, bw, bh);
        let ghost s1 = ops_view(ops@);
        self.settled(&mut ops, ox, oy, cell);
        let ghost s2 = ops_view(ops@);
        self.falling(&mut ops, ox, oy, cell);
        let ghost s3 = ops_view(ops@);
        self.panel(&mut ops, panel_x, oy, cell);
        let ghost s4 = ops_view(ops@);
        self.banner(&mut ops, ox, oy, bw, bh);
        proof {
            assert(ops_view(ops@) =~= tetris_scene(v, width as int, height as int));
        }
        ops
    }

    fn head(&self, width: i32, ox: i64, oy: i64, bw: i64, bh: i64) -> (ops: Vec<Paint>)
        requires
            self.wf(),
            ox == 8,
        ensures
            ops_view(ops@) == head_ops(self.view(), width as int, ox as int, oy as int, bw as int, bh as int),
    {
        let ghost v = self.view();
        let board = Rect::new(ox as i32, oy as i32, bw as i32, bh as i32);
        let mut ops: Vec<Paint> = Vec::new();
        push_op(&mut ops, Paint::Clear(0x0006_0912));
        push_op(&mut ops, Paint::Fill(Rect::new(0, 0, width, HEADER), 0x0012_1828));
        push_op(&mut ops, Paint::HLine(0, HEADER - 1, width, BORDER));
        let mut t: Vec<char> = Vec::new();
        push_str(&mut t, "score ");
        push_dec(&mut t, self.score as u64);
        push_op(&mut ops, text_op(t, 8, 4, AMBER, Weight::Bold));
        let mut t: Vec<char> = Vec::new();
        push_str(&mut t, "lines ");
        push_dec(&mut t, self.lines as u64);
        push_str(&mut t, "   level ");
        push_dec(&mut t, self.level as u64);
        push_op(&mut ops, text_op(t, 128, 4, TEXT_DIM, Weight::Regular));
        push_op(&mut ops, Paint::Fill(board, 0x0008_0C16));
        push_op(&mut ops, Paint::Stroke(board, BORDER));
        proof {
            assert(ops_view(ops@) =~= seq![
                Op::Clear(0x0006_0912),
                Op::Fill(Rect { x: 0, y: 0, w: width, h: HEADER }, 0x0012_1828),
                Op::HLine(0, 23i32, width, BORDER),
                Op::Text("score "@ + dec_str(v.score as nat), 8, 4, AMBER, Weight::Bold, 1),
                Op::Text("lines "@ + dec_str(v.lines as nat) + "   level "@ + dec_str(v.level as nat), 128, 4, TEXT_DIM, Weight::Regular, 1),
                Op::Fill(Rect { x: ox as i32, y: oy as i32, w: bw as i32, h: bh as i32 }, 0x0008_0C16),
                Op::Stroke(Rect { x: ox as i32, y: oy as i32, w: bw as i32, h: bh as i32 }, BORDER),
            ]);
        }
        ops
    }

    fn settled(&self, ops: &mut Vec<Paint>, ox: i64, oy: i64, cell: i64)
        requires
            self.wf(),
            4 <= cell <= 0x1000_0000,
            -0x1_0000_0000 <= oy <= 0x1_0000_0000,
            ox == 8,
        ensures
            ops_view(final(ops)@) == ops_view(old(ops)@) + settled_ops(self.view().rows, ox as int, oy as int, cell as int, 200),
    {
        let ghost v = self.view();
        let ghost head = ops_view(ops@);
        let mut k: usize = 0;
        while k < 200
            invariant
                self.wf(),
                v == self.view(),
                4 <= cell <= 0x1000_0000,
                -0x1_0000_0000 <= oy <= 0x1_0000_0000,
                ox == 8,
                k <= 200,
                ops_view(ops@) == head + settled_ops(v.rows, ox as int, oy as int, cell as int, k as int),
            decreases 200 - k,
        {
            let row = k / 10;
            let column = k % 10;
            let value = self.board[row][column];
            proof {
                assert(v.rows[row as int] == self.board@[row as int]@);
            }
            if value != 0 {
                let kind = (value - 1) as usize;
                push_block(ops, ox, oy, cell, column as i64, row as i64, colour_of(kind));
            }
            k += 1;
            proof {
                assert(ops_view(ops@) =~= head + settled_ops(v.rows, ox as int, oy as int, cell as int, k as int));
            }
        }
    }

    fn falling(&self, ops: &mut Vec<Paint>, ox: i64, oy: i64, cell: i64)
        requires
            self.wf(),
            4 <= cell <= 0x1000_0000,
            -0x1_0000_0000 <= oy <= 0x1_0000_0000,
            ox == 8,
        ensures
            ops_view(final(ops)@) == ops_view(old(ops)@) + piece_ops(self.view(), ox as int, oy as int, cell as int),
    {
        let ghost v = self.view();
        let ghost mid = ops_view(ops@);
        if self.alive {
            let land = self.landing();
            let cells = piece_exec(self.kind, self.rotation);
            let shade = scale(colour_of(self.kind), 90);
            let mut i: usize = 0;
            while i < 4
                invariant
                    self.wf(),
                    v == self.view(),
                    cells@ == piece(v.kind as int, v.rotation as int),
                    land == fall(v, 0),
                    0 <= land <= 40,
                    4 <= cell <= 0x1000_0000,
                    -0x1_0000_0000 <= oy <= 0x1_0000_0000,
                    ox == 8,
                    shade == scale_value(piece_colour(v.kind as int), 90) as u32,
                    i <= 4,
                    ops_view(ops@) == mid + concat_upto(|j: int| shadow_ops(v, ox as int, oy as int, cell as int, j), i as int),
                decreases 4 - i,
            {
                let (dx, dy) = cells[i];
                let cx = self.x as i64 + dx as i64;
                let cy = self.y as i64 + land as i64 + dy as i64;
                let ghost before = ops_view(ops@);
                proof {
                    assert(-80 * 0x1000_0000 <= cx * cell <= 80 * 0x1000_0000) by (nonlinear_arith) requires -80 <= cx <= 80, 4 <= cell <= 0x1000_0000;
                    assert(-80 * 0x1000_0000 <= cy * cell <= 80 * 0x1000_0000) by (nonlinear_arith) requires -80 <= cy <= 80, 4 <= cell <= 0x1000_0000;
                }
                if cy >= 0 {
                    push_op(ops, Paint::Stroke(Rect::new((ox + cx * cell + 1) as i32, (oy + cy * cell + 1) as i32,
                        (cell - 2) as i32, (cell - 2) as i32), shade));
                }
                proof {
                    let f = |j: int| shadow_ops(v, ox as int, oy as int, cell as int, j);
                    assert(ops_view(ops@) =~= before + f(i as int));
                    assert(mid + (concat_upto(f, i as int) + f(i as int)) =~= (mid + concat_upto(f, i as int)) + f(i as int));
                }
                i += 1;
            }
            let ghost mid2 = ops_view(ops@);
            let colour = colour_of(self.kind);
            let mut i: usize = 0;
            while i < 4
                invariant
                    self.wf(),
                    v == self.view(),
                    cells@ == piece(v.kind as int, v.rotation as int),
                    4 <= cell <= 0x1000_0000,
                    -0x1_0000_0000 <= oy <= 0x1_0000_0000,
                    ox == 8,
                    colour == piece_colour(v.kind as int),
                    i <= 4,
                    ops_view(ops@) == mid2 + concat_upto(|j: int| falling_ops(v, ox as int, oy as int, cell as int, j), i as int),
                decreases 4 - i,
            {
                let (dx, dy) = cells[i];
                let cx = self.x as i64 + dx as i64;
                let cy = self.y as i64 + dy as i64;
                let ghost before = ops_view(ops@);
                if cy >= 0 {
                    push_block(ops, ox, oy, cell, cx, cy, colour);
                }
                proof {
                    let f = |j: int| falling_ops(v, ox as int, oy as int, cell as int, j);
                    assert(ops_view(ops@) =~= before + f(i as int));
                    assert(mid2 + (concat_upto(f, i as int) + f(i as int)) =~= (mid2 + concat_upto(f, i as int)) + f(i as int));
                }
                i += 1;
            }
            proof {
                assert(ops_view(ops@) =~= mid + (four(|j: int| shadow_ops(v, ox as int, oy as int, cell as int, j))
                    + four(|j: int| falling_ops(v, ox as int, oy as int, cell as int, j))));
            }
        }
        proof {
            assert(ops_view(ops@) =~= ops_view(old(ops)@) + piece_ops(v, ox as int, oy as int, cell as int));
        }
    }

    fn panel(&self, ops: &mut Vec<Paint>, panel_x: i64, oy: i64, cell: i64)
        requires
            self.wf(),
            4 <= cell <= 0x1000_0000,
            -0x1_0000_0000 <= oy <= 0x1_0000_0000,
            panel_x == 8 + cell * COLUMNS + 10,
        ensures
            ops_view(final(ops)@) == ops_view(old(ops)@) + panel_ops(self.view(), panel_x as int, oy as int, cell as int),
    {
        let ghost v = self.view();
        let ghost mid3 = ops_view(ops@);
        push_op(ops, literal_op("next", panel_x as i32, (oy + 4) as i32, TEXT_DIM, Weight::Regular));
        let next = piece_exec(self.next_kind, 0);
        let colour = colour_of(self.next_kind);
        let mut i: usize = 0;
        let ghost mid4 = ops_view(ops@);
        while i < 4
            invariant
                self.wf(),
                v == self.view(),
                next@ == piece(v.next_kind as int, 0),
                4 <= cell <= 0x1000_0000,
                -0x1_0000_0000 <= oy <= 0x1_0000_0000,
                panel_x == 8 + cell * COLUMNS + 10,
                colour == piece_colour(v.next_kind as int),
                i <= 4,
                ops_view(ops@) == mid4 + Seq::new(i as nat, |j: int| next_op(v, panel_x as int, oy as int, cell as int, j)),
            decreases 4 - i,
        {
            let (dx, dy) = next[i];
            proof {
                assert(0 <= dx <= 3 && 0 <= dy <= 3);
                assert(0 <= dx * (cell - 2) <= 3 * 0x1000_0000) by (nonlinear_arith) requires 0 <= dx <= 3, 4 <= cell <= 0x1000_0000;
                assert(0 <= dy * (cell - 2) <= 3 * 0x1000_0000) by (nonlinear_arith) requires 0 <= dy <= 3, 4 <= cell <= 0x1000_0000;
            }
            let r = Rect::new((panel_x + dx as i64 * (cell - 2) + 2) as i32, (oy + 22 + dy as i64 * (cell - 2)) as i32,
                (cell - 4) as i32, (cell - 4) as i32);
            push_op(ops, Paint::Fill(r, colour));
            i += 1;
            proof {
                assert(Seq::new(i as nat, |j: int| next_op(v, panel_x as int, oy as int, cell as int, j))
                    =~= Seq::new((i - 1) as nat, |j: int| next_op(v, panel_x as int, oy as int, cell as int, j))
                        .push(next_op(v, panel_x as int, oy as int, cell as int, i - 1)));
            }
        }
        proof {
            let f = |j: int| seq![next_op(v, panel_x as int, oy as int, cell as int, j)];
            assert(concat_upto(f, 0) =~= Seq::new(0, |j: int| next_op(v, panel_x as int, oy as int, cell as int, j)));
            assert(concat_upto(f, 1) =~= Seq::new(1, |j: int| next_op(v, panel_x as int, oy as int, cell as int, j)));
            assert(concat_upto(f, 2) =~= Seq::new(2, |j: int| next_op(v, panel_x as int, oy as int, cell as int, j)));
            assert(concat_upto(f, 3) =~= Seq::new(3, |j: int| next_op(v, panel_x as int, oy as int, cell as int, j)));
            assert(four(f) =~= Seq::new(4, |j: int| next_op(v, panel_x as int, oy as int, cell as int, j)));
        }
        let ghost mid5 = ops_view(ops@);
        push_op(ops, literal_op("arrows move", panel_x as i32, (oy + 100) as i32, TEXT_FAINT, Weight::Regular));
        push_op(ops, literal_op("up rotates", panel_x as i32, (oy + 116) as i32, TEXT_FAINT, Weight::Regular));
        push_op(ops, literal_op("space drops", panel_x as i32, (oy + 132) as i32, TEXT_FAINT, Weight::Regular));
        push_op(ops, literal_op("p pauses", panel_x as i32, (oy + 148) as i32, TEXT_FAINT, Weight::Regular));
        proof {
            assert(ops_view(ops@) =~= ops_view(old(ops)@) + panel_ops(v, panel_x as int, oy as int, cell as int));
        }
    }

    fn banner(&self, ops: &mut Vec<Paint>, ox: i64, oy: i64, bw: i64, bh: i64)
        requires
            self.wf(),
            ox == 8,
            0 <= bw <= 0x1_0000_0000,
            0 <= bh <= 0x1_0000_0000,
            -0x1_0000_0000 <= oy <= 0x1_0000_0000,
        ensures
            ops_view(final(ops)@) == ops_view(old(ops)@) + banner_ops(self.view(), ox as int, oy as int, bw as int, bh as int),
    {
        let ghost v = self.view();
        let ghost mid6 = ops_view(ops@);
        if !self.started || self.paused || !self.alive {
            let half_h = halve(bh);
            let half_w = halve(bw);
            push_op(ops, Paint::Blend(Rect::new(ox as i32, (oy + half_h - 26) as i32, bw as i32, 52), BLACK, 200));
            let (line, colour) = if !self.alive {
                ("GAME OVER", ERROR)
            } else if self.paused {
                ("PAUSED", WARN)
            } else {
                ("press a key", TEXT_BRIGHT)
            };
            push_op(ops, Paint::Centered(crate::text::to_string(line), (ox + half_w) as i32, (oy + half_h - 14) as i32,
                colour, Weight::Bold));
            if !self.alive {
                push_op(ops, Paint::Centered(crate::text::to_string("r restarts"), (ox + half_w) as i32,
                    (oy + half_h + 4) as i32, TEXT_DIM, Weight::Regular));
            }
        }
        proof {
            assert(ops_view(ops@) =~= ops_view(old(ops)@) + banner_ops(v, ox as int, oy as int, bw as int, bh as int));
        }
    }

    /// The window needs drawing again.
    pub closed spec fn is_dirty(&self) -> bool {
        self.dirty
    }

    pub fn dirty(&self) -> (d: bool)
        ensures
            d == self.is_dirty(),
    {
        self.dirty
    }

    pub fn clear_dirty(&mut self)
        requires
            old(self).wf(),
        ensures
            final(self).wf(),
            final(self).view() == old(self).view(),
            !final(self).is_dirty(),
    {
        self.dirty = false;
    }

    pub fn min_size(&self) -> (r: (i32, i32))
        ensures
            r == (330i32, 420i32),
    {
        (330, 420)
    }

    /// Draw the window: the scene, painted onto `surface`.
    pub fn draw(&mut self, surface: &mut Surface, font: &Font)
        requires
            old(self).wf(),
            old(surface).wf(),
            font.wf(),
        ensures
            final(self).wf(),
            final(self).view() == old(self).view(),
            !final(self).is_dirty(),
            final(surface).wf(),
            final(surface).width == old(surface).width,
            final(surface).height == old(surface).height,
            (final(surface).pixels@, final(surface).clip) == run((old(surface).pixels@, old(surface).clip),
                tetris_scene(old(self).view(), old(surface).width as int, old(surface).height as int),
                old(surface).width as int, old(surface).height as int, font.rows@, old(surface).clip),
    {
        let ops = self.scene(surface.width as i32, surface.height as i32);
        paint(surface, font, &ops);
        self.dirty = false;
    }
}

} // verus!
