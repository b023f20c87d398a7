//! Snake. Every operating system needs one.
//!
//! The game state and its rules. The clock, the random seed and the
//! speaker belong to the caller: `tick` is handed the time, `new` a seed,
//! and the sounds come back as steps to play.

use vstd::prelude::*;
use std::collections::VecDeque;

verus! {

use crate::input::{Key, KeyEvent};
use crate::drivers::speaker::{Step, beep, error_tone};
use crate::gfx::draw::{Rect, Surface};
use crate::gfx::font::{Font, Weight};
use crate::gfx::palette::{Color, scale, scale_value, AMBER, BLACK, BORDER, ERROR, OK, TEXT_BRIGHT, TEXT_DIM};
use crate::gfx::scene::{Op, Paint, op_view, ops_view, lemma_ops_push, paint, run};
use crate::text::{dec_str, push_dec, push_str, string_of, to_string};
use crate::num::quot;

pub const GRID_W: i32 = 32;
pub const GRID_H: i32 = 22;
pub const HEADER: i32 = 22;

#[derive(Clone, Copy, Debug, PartialEq, Eq, Structural)]
pub enum Direction {
    Up,
    Down,
    Left,
    Right,
}

impl Direction {
    pub open spec fn delta_spec(self) -> (i32, i32) {
        match self {
            Direction::Up => (0i32, -1i32),
            Direction::Down => (0i32, 1i32),
            Direction::Left => (-1i32, 0i32),
            Direction::Right => (1i32, 0i32),
        }
    }

    pub fn delta(self) -> (r: (i32, i32))
        ensures
            r == self.delta_spec(),
    {
        match self {
            Direction::Up => (0, -1),
            Direction::Down => (0, 1),
            Direction::Left => (-1, 0),
            Direction::Right => (1, 0),
        }
    }

    pub open spec fn opposes_spec(self, other: Direction) -> bool {
        (self == Direction::Up && other == Direction::Down)
            || (self == Direction::Down && other == Direction::Up)
            || (self == Direction::Left && other == Direction::Right)
            || (self == Direction::Right && other == Direction::Left)
    }

    pub fn opposes(self, other: Direction) -> (r: bool)
        ensures
            r == self.opposes_spec(other),
    {
        match (self, other) {
            (Direction::Up, Direction::Down) => true,
            (Direction::Down, Direction::Up) => true,
            (Direction::Left, Direction::Right) => true,
            (Direction::Right, Direction::Left) => true,
            _ => false,
        }
    }
}

/// The xorshift step of the generator state.
pub open spec fn xorshift(x: u64) -> u64 {
    let a = x ^ (x >> 12u64);
    let b = a ^ (a << 25u64);
    b ^ (b >> 27u64)
}

pub const RNG_MULTIPLIER: u64 = 0x2545_F491_4F6C_DD1D;

/// xorshift64*: the next state and the number it yields.
pub open spec fn rng_next(x: u64) -> (u64, u64) {
    let s = xorshift(x);
    (s, ((s as nat * RNG_MULTIPLIER as nat) % 0x1_0000_0000_0000_0000nat) as u64)
}

/// A number below `limit` (below 1 if `limit` is not positive), and the
/// next state.
pub open spec fn rng_below(x: u64, limit: i32) -> (u64, i32) {
    let (s, out) = rng_next(x);
    let m = if limit > 1 { limit as u64 } else { 1u64 };
    (s, (out % m) as i32)
}

pub(crate) fn next_random(state: &mut u64) -> (r: u64)
    ensures
        (*final(state), r) == rng_next(*old(state)),
{
    let mut x = *state;
    x = x ^ (x >> 12);
    x = x ^ (x << 25);
    x = x ^ (x >> 27);
    *state = x;
    x.wrapping_mul(RNG_MULTIPLIER)
}

fn random_below(state: &mut u64, limit: i32) -> (r: i32)
    ensures
        (*final(state), r) == rng_below(*old(state), limit),
{
    let m: u64 = if limit > 1 { limit as u64 } else { 1 };
    (next_random(state) % m) as i32
}

/// Where food goes: up to `tries` random cells, the first not under the
/// snake; the corner when every try lands on it.
pub open spec fn food_search(rng: u64, body: Seq<(i32, i32)>, tries: nat) -> ((i32, i32), u64)
    decreases tries,
{
    if tries == 0 {
        ((0, 0), rng)
    } else {
        let (s1, x) = rng_below(rng, GRID_W);
        let (s2, y) = rng_below(s1, GRID_H);
        if !body.contains((x, y)) { ((x, y), s2) } else { food_search(s2, body, (tries - 1) as nat) }
    }
}

/// The game as plain values.
pub struct SnakeView {
    pub body: Seq<(i32, i32)>,
    pub direction: Direction,
    pub queued: Option<Direction>,
    pub food: (i32, i32),
    pub score: u32,
    pub best: u32,
    pub alive: bool,
    pub started: bool,
    pub last_step: u64,
    pub step_ms: u64,
    pub rng: u64,
}

/// A cell of the board.
pub open spec fn on_board(p: (i32, i32)) -> bool {
    0 <= p.0 < GRID_W && 0 <= p.1 < GRID_H
}

pub struct Snake {
    body: VecDeque<(i32, i32)>,
    direction: Direction,
    queued: Option<Direction>,
    food: (i32, i32),
    score: u32,
    best: u32,
    alive: bool,
    started: bool,
    last_step: u64,
    step_ms: u64,
    rng: u64,
    dirty: bool,
}

fn start_body() -> (b: VecDeque<(i32, i32)>)
    ensures
        b@ == seq![(7i32, 11i32), (6i32, 11i32), (5i32, 11i32), (4i32, 11i32)],
{
    let mut body: VecDeque<(i32, i32)> = VecDeque::new();
    let mut x: i32 = 0;
    while x < 4
        invariant
            0 <= x <= 4,
            body@ == Seq::new(x as nat, |i: int| ((3 + x - i) as i32, 11i32)),
        decreases 4 - x,
    {
        body.push_front((4 + x, GRID_H / 2));
        x += 1;
        proof {
            assert(body@ =~= Seq::new(x as nat, |i: int| ((3 + x - i) as i32, 11i32)));
        }
    }
    proof {
        assert(body@ =~= seq![(7i32, 11i32), (6i32, 11i32), (5i32, 11i32), (4i32, 11i32)]);
    }
    body
}

/// The board after `reset`: a four-segment snake heading right in the
/// middle row, food placed, score cleared (the best kept).
pub open spec fn reset_spec(v: SnakeView) -> SnakeView {
    let body = seq![(7i32, 11i32), (6i32, 11i32), (5i32, 11i32), (4i32, 11i32)];
    let (food, rng) = food_search(v.rng, body, 500);
    SnakeView {
        body,
        direction: Direction::Right,
        queued: None,
        food,
        score: 0,
        best: v.best,
        alive: true,
        started: false,
        last_step: v.last_step,
        step_ms: 110,
        rng,
    }
}

/// One move of the snake, and the sound it makes.
pub open spec fn step_spec(v: SnakeView) -> (SnakeView, Seq<Step>) {
    if !v.alive || !v.started {
        (v, Seq::empty())
    } else {
        let dir = match v.queued {
            Some(q) => if !q.opposes_spec(v.direction) { q } else { v.direction },
            None => v.direction,
        };
        let v1 = SnakeView { direction: dir, queued: None, ..v };
        let d = dir.delta_spec();
        let head = ((v.body[0].0 + d.0) as i32, (v.body[0].1 + d.1) as i32);
        let tail = v.body.last();
        if !on_board(head) || (v.body.contains(head) && head != tail) {
            (SnakeView { alive: false, ..v1 }, seq![Step::Tone(220, 90)])
        } else if head == v.food {
            let grown = seq![head] + v.body;
            let score: u32 = if v.score == u32::MAX { 0 } else { (v.score + 1) as u32 };
            let (food, rng) = food_search(v.rng, grown, 500);
            (SnakeView {
                body: grown,
                score,
                best: if v.best >= score { v.best } else { score },
                step_ms: if v.step_ms >= 47 { (v.step_ms - 2) as u64 } else { 45 },
                food,
                rng,
                ..v1
            }, seq![Step::Tone(1200, 8)])
        } else {
            (SnakeView { body: (seq![head] + v.body).drop_last(), ..v1 }, Seq::empty())
        }
    }
}

impl Snake {
    pub closed spec fn view(&self) -> SnakeView {
        SnakeView {
            body: self.body@,
            direction: self.direction,
            queued: self.queued,
            food: self.food,
            score: self.score,
            best: self.best,
            alive: self.alive,
            started: self.started,
            last_step: self.last_step,
            step_ms: self.step_ms,
            rng: self.rng,
        }
    }

    /// What holds of every game: a snake on the board, at least four
    /// long, moving at a pace between 45 and 110 ms a step.
    pub closed spec fn wf(&self) -> bool {
        &&& self.body@.len() >= 4
        &&& forall|i: int| 0 <= i < self.body@.len() ==> on_board(#[trigger] self.body@[i])
        &&& 45 <= self.step_ms <= 110
    }

    fn place_food(&mut self)
        ensures
            (final(self).food, final(self).rng) == food_search(old(self).rng, old(self).body@, 500),
            final(self).body == old(self).body,
            final(self).score == old(self).score,
            final(self).best == old(self).best,
            final(self).direction == old(self).direction,
            final(self).queued == old(self).queued,
            final(self).alive == old(self).alive,
            final(self).started == old(self).started,
            final(self).last_step == old(self).last_step,
            final(self).step_ms == old(self).step_ms,
    {
        let mut tries: u32 = 500;
        while tries > 0
            invariant
                self.body == old(self).body,
                self.score == old(self).score,
                self.best == old(self).best,
                self.direction == old(self).direction,
                self.queued == old(self).queued,
                self.alive == old(self).alive,
                self.started == old(self).started,
                self.last_step == old(self).last_step,
                self.step_ms == old(self).step_ms,
                tries <= 500,
                food_search(self.rng, self.body@, tries as nat) == food_search(old(self).rng, old(self).body@, 500),
            decreases tries,
        {
            let x = random_below(&mut self.rng, GRID_W);
            let y = random_below(&mut self.rng, GRID_H);
            let candidate = (x, y);
            let mut found = false;
            let mut i: usize = 0;
            while i < self.body.len()
                invariant
                    i <= self.body@.len(),
                    found <==> exists|j: int| 0 <= j < i && self.body@[j] == candidate,
                decreases self.body@.len() - i,
            {
                let seg = self.body[i];
                if seg.0 == candidate.0 && seg.1 == candidate.1 {
                    found = true;
                }
                i += 1;
            }
            if !found {
                proof {
                    assert(!self.body@.contains(candidate));
                }
                self.food = candidate;
                return;
            }
            proof {
                let j = choose|j: int| 0 <= j < self.body@.len() && self.body@[j] == candidate;
                assert(self.body@.contains(candidate));
            }
            tries -= 1;
        }
        self.food = (0, 0);
    }

    /// Start a new round.
    pub fn reset(&mut self)
        ensures
            final(self).wf(),
            final(self).view() == reset_spec(old(self).view()),
    {
        self.body = start_body();
        self.direction = Direction::Right;
        self.queued = None;
        self.score = 0;
        self.alive = true;
        self.started = false;
        self.step_ms = 110;
        self.place_food();
        self.dirty = true;
        proof {
            let b = self.body@;
            assert(b == seq![(7i32, 11i32), (6i32, 11i32), (5i32, 11i32), (4i32, 11i32)]);
            assert forall|i: int| 0 <= i < b.len() implies on_board(#[trigger] b[i]) by {
                assert(0 <= i < 4);
            }
        }
    }

    /// A new game, with the random generator seeded from `seed`.
    pub fn new(seed: u64) -> (s: Snake)
        ensures
            s.wf(),
            s.view() == reset_spec(SnakeView {
                body: Seq::empty(), direction: Direction::Right, queued: None, food: (0, 0), score: 0, best: 0,
                alive: true, started: false, last_step: 0, step_ms: 110, rng: seed | 1 }),
    {
        let mut game = Snake {
            body: VecDeque::new(),
            direction: Direction::Right,
            queued: None,
            food: (0, 0),
            score: 0,
            best: 0,
            alive: true,
            started: false,
            last_step: 0,
            step_ms: 110,
            rng: seed | 1,
            dirty: true,
        };
        game.reset();
        game
    }
}

/// What a key press does to the game.
pub open spec fn key_spec(v: SnakeView, e: KeyEvent) -> SnakeView {
    if !e.pressed {
        v
    } else {
        let dir: Option<Direction> = match e.key {
            Key::Up => Some(Direction::Up),
            Key::Down => Some(Direction::Down),
            Key::Left => Some(Direction::Left),
            Key::Right => Some(Direction::Right),
            _ => None,
        };
        match dir {
            Some(d) => SnakeView { started: true, queued: Some(d), ..v },
            None => if e.character == Some('r') || (e.key == Key::Enter && !v.alive) { reset_spec(v) } else { v },
        }
    }
}

impl Snake {
    /// Move one cell; returns the sound to play.
    fn step(&mut self) -> (sound: Vec<Step>)
        requires
            old(self).wf(),
        ensures
            final(self).wf(),
            (final(self).view(), sound@) == step_spec(old(self).view()),
    {
        if !self.alive || !self.started {
            return Vec::new();
        }
        let ghost v = self.view();
        if let Some(queued) = self.queued {
            if !queued.opposes(self.direction) {
                self.direction = queued;
            }
        }
        self.queued = None;
        let (dx, dy) = self.direction.delta();
        let front = self.body[0];
        let head = (front.0 + dx, front.1 + dy);
        if head.0 < 0 || head.1 < 0 || head.0 >= GRID_W || head.1 >= GRID_H {
            self.alive = false;
            self.dirty = true;
            return error_tone();
        }
        let n = self.body.len();
        let tail = self.body[n - 1];
        let mut hit = false;
        let mut i: usize = 0;
        while i < n
            invariant
                n == self.body@.len(),
                i <= n,
                hit <==> exists|j: int| 0 <= j < i && self.body@[j] == head,
            decreases n - i,
        {
            let seg = self.body[i];
            if seg.0 == head.0 && seg.1 == head.1 {
                hit = true;
            }
            i += 1;
        }
        proof {
            if hit {
                let j = choose|j: int| 0 <= j < n && self.body@[j] == head;
                assert(self.body@.contains(head));
            }
            if self.body@.contains(head) {
                let j = choose|j: int| 0 <= j < self.body@.len() && self.body@[j] == head;
                assert(hit);
            }
            assert(tail == self.body@.last());
        }
        if hit && !(head.0 == tail.0 && head.1 == tail.1) {
            self.alive = false;
            self.dirty = true;
            return error_tone();
        }
        let ghost before = self.body@;
        self.body.push_front(head);
        proof {
            assert(self.body@ =~= seq![head] + before);
        }
        let sound;
        if head.0 == self.food.0 && head.1 == self.food.1 {
            self.score = if self.score == u32::MAX { 0 } else { self.score + 1 };
            if self.score > self.best {
                self.best = self.score;
            }
            self.step_ms = if self.step_ms >= 47 { self.step_ms - 2 } else { 45 };
            self.place_food();
            sound = beep(1200, 8);
        } else {
            self.body.pop_back();
            proof {
                assert(self.body@ =~= (seq![head] + before).drop_last());
            }
            sound = Vec::new();
            proof {
                assert(sound@ =~= Seq::<Step>::empty());
            }
        }
        self.dirty = true;
        proof {
            assert forall|k: int| 0 <= k < self.body@.len() implies on_board(#[trigger] self.body@[k]) by {
                if k > 0 {
                    assert(self.body@[k] == before[k - 1]);
                }
            }
        }
        sound
    }

    /// React to a key: arrows steer (and start the game), `r` starts over,
    /// and so does Enter once the snake has died.
    pub fn on_key(&mut self, event: &KeyEvent)
        requires
            old(self).wf(),
        ensures
            final(self).wf(),
            final(self).view() == key_spec(old(self).view(), *event),
    {
        if !event.pressed {
            return;
        }
        let direction = match event.key {
            Key::Up => Some(Direction::Up),
            Key::Down => Some(Direction::Down),
            Key::Left => Some(Direction::Left),
            Key::Right => Some(Direction::Right),
            _ => None,
        };
        if let Some(d) = direction {
            self.started = true;
            self.queued = Some(d);
            self.dirty = true;
            return;
        }
        let is_r = match event.character {
            Some(c) => c == 'r',
            None => false,
        };
        let enter = match event.key {
            Key::Enter => true,
            _ => false,
        };
        if is_r || (enter && !self.alive) {
            self.reset();
        }
    }

    /// Advance the clock to `now_ms`; the snake moves once its step time
    /// has passed. Returns the sound to play.
    pub fn tick(&mut self, now_ms: u64) -> (sound: Vec<Step>)
        requires
            old(self).wf(),
        ensures
            final(self).wf(),
            ({
                let v = old(self).view();
                let due = (if now_ms >= v.last_step { now_ms - v.last_step } else { 0 }) >= v.step_ms;
                if due {
                    (final(self).view(), sound@) == step_spec(SnakeView { last_step: now_ms, ..v })
                } else {
                    final(self).view() == v && sound@.len() == 0
                }
            }),
    {
        let elapsed = now_ms.saturating_sub(self.last_step);
        if elapsed >= self.step_ms {
            self.last_step = now_ms;
            return self.step();
        }
        Vec::new()
    }

    /// The score, best score, and whether the snake is alive and the game started.
    pub fn status(&self) -> (r: (u32, u32, bool, bool))
        ensures
            r == (self.view().score, self.view().best, self.view().alive, self.view().started),
    {
        (self.score, self.best, self.alive, self.started)
    }

    /// The cells of the snake, head first, and of the food.
    pub fn cells(&self) -> (r: (Vec<(i32, i32)>, (i32, i32)))
        ensures
            r.0@ == self.view().body,
            r.1 == self.view().food,
    {
        let mut out: Vec<(i32, i32)> = Vec::new();
        let mut i: usize = 0;
        while i < self.body.len()
            invariant
                i <= self.body@.len(),
                out@ == self.body@.take(i as int),
            decreases self.body@.len() - i,
        {
            out.push(self.body[i]);
            i += 1;
            proof {
                assert(out@ =~= self.body@.take(i as int));
            }
        }
        proof {
            assert(self.body@.take(self.body@.len() as int) =~= self.body@);
        }
        (out, self.food)
    }
}

// ---------------------------------------------------------------------
// What the window shows.
// ---------------------------------------------------------------------

/// Square cells as large as fit a `w` x `h` window, at least 3 pixels.
pub open spec fn snake_cell(w: int, h: int) -> int {
    let a = quot(w, GRID_W as int);
    let b = quot(h - HEADER, GRID_H as int);
    let m = if a < b { a } else { b };
    if m > 3 { m } else { 3 }
}

/// The body fades from the head: segment `i` is the green at this
/// brightness.
pub open spec fn shade(i: int) -> int {
    let t = if 4 * i >= 220 { 0 } else { 220 - 4 * i };
    if t > 90 { t } else { 90 }
}

pub open spec fn segment_colour(i: int) -> Color {
    if i == 0 { AMBER } else { scale_value(OK, shade(i) as u8) as u32 }
}

pub open spec fn cell_rect(ox: int, oy: int, cell: int, p: (i32, i32)) -> Rect {
    Rect { x: (ox + p.0 * cell + 1) as i32, y: (oy + p.1 * cell + 1) as i32, w: (cell - 2) as i32, h: (cell - 2) as i32 }
}

pub open spec fn overlay_ops(v: SnakeView, ox: int, oy: int, bw: int, bh: int) -> Seq<Op> {
    let cx = (ox + quot(bw, 2)) as i32;
    let mid = oy + quot(bh, 2);
    if !v.started {
        seq![
            Op::Blend(Rect { x: ox as i32, y: (mid - 22) as i32, w: bw as i32, h: 44 }, BLACK, 190),
            Op::Centered("arrow keys to start"@, cx, (mid - 8) as i32, TEXT_BRIGHT, Weight::Bold),
        ]
    } else if !v.alive {
        seq![
            Op::Blend(Rect { x: ox as i32, y: (mid - 28) as i32, w: bw as i32, h: 56 }, BLACK, 200),
            Op::Centered("GAME OVER"@, cx, (mid - 16) as i32, ERROR, Weight::Bold),
            Op::Centered("press r to play again"@, cx, (mid + 4) as i32, TEXT_DIM, Weight::Regular),
        ]
    } else {
        Seq::empty()
    }
}

/// Everything the window draws, in order, for a `w` x `h` window.
pub open spec fn snake_scene(v: SnakeView, w: int, h: int) -> Seq<Op> {
    let cell = snake_cell(w, h);
    let bw = cell * GRID_W;
    let bh = cell * GRID_H;
    let ox = quot(w - bw, 2);
    let oy = HEADER + quot(h - HEADER - bh, 2);
    let board = Rect { x: ox as i32, y: oy as i32, w: bw as i32, h: bh as i32 };
    seq![
        Op::Clear(0x0006_0912),
        Op::Fill(Rect { x: 0, y: 0, w: w as i32, h: HEADER }, 0x0012_1828),
        Op::HLine(0, 21i32, w as i32, BORDER),
        Op::Text("score "@ + dec_str(v.score as nat), 8, 3, AMBER, Weight::Bold, 1),
        Op::Text("best "@ + dec_str(v.best as nat), 120, 3, TEXT_DIM, Weight::Regular, 1),
        Op::Fill(board, 0x0008_0C16),
        Op::Stroke(board, BORDER),
        Op::Fill(cell_rect(ox, oy, cell, v.food), ERROR),
    ]
        + Seq::new(v.body.len(), |i: int| Op::Fill(cell_rect(ox, oy, cell, v.body[i]), segment_colour(i)))
        + overlay_ops(v, ox, oy, bw, bh)
}

fn push_op(ops: &mut Vec<Paint>, p: Paint)
    ensures
        ops_view(final(ops)@) == ops_view(old(ops)@).push(op_view(p)),
{
    proof {
        lemma_ops_push(ops@, p);
    }
    ops.push(p);
}

fn cell_at(ox: i64, oy: i64, cell: i64, p: (i32, i32)) -> (r: Rect)
    requires
        3 <= cell <= 0x1000_0000,
        -0x1_0000_0000 <= ox <= 0x1_0000_0000,
        -0x1_0000_0000 <= oy <= 0x1_0000_0000,
    ensures
        r == cell_rect(ox as int, oy as int, cell as int, p),
{
    proof {
        assert(-0x8000_0000 * 0x1000_0000 <= p.0 * cell <= 0x8000_0000 * 0x1000_0000) by (nonlinear_arith)
            requires i32::MIN <= p.0 <= i32::MAX, 3 <= cell <= 0x1000_0000;
        assert(-0x8000_0000 * 0x1000_0000 <= p.1 * cell <= 0x8000_0000 * 0x1000_0000) by (nonlinear_arith)
            requires i32::MIN <= p.1 <= i32::MAX, 3 <= cell <= 0x1000_0000;
    }
    Rect::new((ox + p.0 as i64 * cell + 1) as i32, (oy + p.1 as i64 * cell + 1) as i32, (cell - 2) as i32, (cell - 2) as i32)
}

fn segment_colour_of(i: usize) -> (c: Color)
    ensures
        c == segment_colour(i as int),
{
    if i == 0 {
        AMBER
    } else {
        let t: u32 = if i >= 55 { 0 } else { 220 - 4 * i as u32 };
        let s: u32 = if t > 90 { t } else { 90 };
        scale(OK, s as u8)
    }
}

impl Snake {
    /// Everything the window draws, for a `width` x `height` window.
    pub fn scene(&self, width: i32, height: i32) -> (ops: Vec<Paint>)
        requires
            width >= 0,
            height >= 0,
        ensures
            ops_view(ops@) == snake_scene(self.view(), width as int, height as int),
    {
        let ghost v = self.view();
        let w = width as i64;
        let h = height as i64;
        let a = crate::num::divide(w, GRID_W as i64);
        let b = crate::num::divide(h - HEADER as i64, GRID_H as i64);
        let m = if a < b { a } else { b };
        let cell = if m > 3 { m } else { 3 };
        proof {
            assert(cell <= 0x1000_0000);
        }
        let bw = cell * GRID_W as i64;
        let bh = cell * GRID_H as i64;
        let ox = crate::num::divide(w - bw, 2);
        let oy = HEADER as i64 + crate::num::divide(h - HEADER as i64 - bh, 2);
        let board = Rect::new(ox as i32, oy as i32, bw as i32, bh as i32);
        let mut ops: Vec<Paint> = Vec::new();
        push_op(&mut ops, Paint::Clear(0x0006_0912));
        push_op(&mut ops, Paint::Fill(Rect::new(0, 0, width, HEADER), 0x0012_1828));
        push_op(&mut ops, Paint::HLine(0, HEADER - 1, width, BORDER));
        let mut t: Vec<char> = Vec::new();
        push_str(&mut t, "score ");
        push_dec(&mut t, self.score as u64);
        push_op(&mut ops, Paint::Text(string_of(t.as_slice()), 8, 3, AMBER, Weight::Bold, 1));
        let mut t: Vec<char> = Vec::new();
        push_str(&mut t, "best ");
        push_dec(&mut t, self.best as u64);
        push_op(&mut ops, Paint::Text(string_of(t.as_slice()), 120, 3, TEXT_DIM, Weight::Regular, 1));
        push_op(&mut ops, Paint::Fill(board, 0x0008_0C16));
        push_op(&mut ops, Paint::Stroke(board, BORDER));
        push_op(&mut ops, Paint::Fill(cell_at(ox, oy, cell, self.food), ERROR));
        let ghost head = ops_view(ops@);
        let n = self.body.len();
        let mut i: usize = 0;
        while i < n
            invariant
                v == self.view(),
                n == v.body.len(),
                3 <= cell <= 0x1000_0000,
                -0x1_0000_0000 <= ox <= 0x1_0000_0000,
                -0x1_0000_0000 <= oy <= 0x1_0000_0000,
                i <= n,
                ops_view(ops@) == head + Seq::new(i as nat, |k: int| Op::Fill(cell_rect(ox as int, oy as int, cell as int, v.body[k]), segment_colour(k))),
            decreases n - i,
        {
            let p = self.body[i];
            push_op(&mut ops, Paint::Fill(cell_at(ox, oy, cell, p), segment_colour_of(i)));
            i += 1;
            proof {
                assert(Seq::new(i as nat, |k: int| Op::Fill(cell_rect(ox as int, oy as int, cell as int, v.body[k]), segment_colour(k)))
                    =~= Seq::new((i - 1) as nat, |k: int| Op::Fill(cell_rect(ox as int, oy as int, cell as int, v.body[k]), segment_colour(k)))
                        .push(Op::Fill(cell_rect(ox as int, oy as int, cell as int, v.body[i - 1]), segment_colour(i - 1))));
            }
        }
        let ghost body = ops_view(ops@);
        let cx = (ox + crate::num::divide(bw, 2)) as i32;
        let mid = oy + crate::num::divide(bh, 2);
        if !self.started {
            push_op(&mut ops, Paint::Blend(Rect::new(ox as i32, (mid - 22) as i32, bw as i32, 44), BLACK, 190));
            push_op(&mut ops, Paint::Centered(to_string("arrow keys to start"), cx, (mid - 8) as i32, TEXT_BRIGHT, Weight::Bold));
        } else if !self.alive {
            push_op(&mut ops, Paint::Blend(Rect::new(ox as i32, (mid - 28) as i32, bw as i32, 56), BLACK, 200));
            push_op(&mut ops, Paint::Centered(to_string("GAME OVER"), cx, (mid - 16) as i32, ERROR, Weight::Bold));
            push_op(&mut ops, Paint::Centered(to_string("press r to play again"), cx, (mid + 4) as i32, TEXT_DIM, Weight::Regular));
        }
        proof {
            assert(ops_view(ops@) =~= snake_scene(v, width as int, height as int));
        }
        ops
    }

    /// The window needs drawing again.
    pub closed spec fn is_dirty(&self) -> bool {
        self.dirty
    }

    pub fn dirty(&self) -> (d: bool)
        ensures
            d == self.is_dirty(),
    {
        self.dirty
    }

    pub fn clear_dirty(&mut self)
        requires
            old(self).wf(),
        ensures
            final(self).wf(),
            final(self).view() == old(self).view(),
            !final(self).is_dirty(),
    {
        self.dirty = false;
    }

    pub fn min_size(&self) -> (r: (i32, i32))
        ensures
            r == (320i32, 260i32),
    {
        (320, 260)
    }

    /// Draw the window: the scene, painted onto `surface`.
    pub fn draw(&mut self, surface: &mut Surface, font: &Font)
        requires
            old(self).wf(),
            old(surface).wf(),
            font.wf(),
        ensures
            final(self).wf(),
            final(self).view() == old(self).view(),
            !final(self).is_dirty(),
            final(surface).wf(),
            final(surface).width == old(surface).width,
            final(surface).height == old(surface).height,
            (final(surface).pixels@, final(surface).clip) == run((old(surface).pixels@, old(surface).clip),
                snake_scene(old(self).view(), old(surface).width as int, old(surface).height as int),
                old(surface).width as int, old(surface).height as int, font.rows@, old(surface).clip),
    {
        let ops = self.scene(surface.width as i32, surface.height as i32);
        paint(surface, font, &ops);
        self.dirty = false;
    }
}

} // verus!
