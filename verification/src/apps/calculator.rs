//! Calculator.
//!
//! Arithmetic is done in fixed point with four decimal places: 1.2345 is
//! held as 12345. The number being typed is kept as text, so digits after
//! a decimal point behave, and read back as a fixed-point value when an
//! operator needs it. Like the rest of the kernel's integer arithmetic,
//! results that leave the range of `i64` wrap.

use vstd::prelude::*;

verus! {

use vstd::wrapping::i64_specs::{wrapping_add, wrapping_mul, wrapping_sub};
use crate::text::{dec_str, push_dec, trimmed, trim_chars};
use crate::input::{Key, KeyEvent};
use crate::gfx::draw::{Rect, Surface};
use crate::gfx::font::{Font, Weight};
use crate::gfx::palette::{AMBER, AMBER_DIM, BORDER, CYAN, ERROR, PANEL, TEXT_BRIGHT, TEXT_FAINT};
use crate::gfx::scene::{Op, Paint, op_view, ops_view, lemma_ops_push, paint, run};
use vstd::string::StrSliceExecFns;
use crate::apps::WindowMouse;
use crate::num::{quot, divide};

/// Four decimal places, so 1.2345 is stored as 12345.
pub const SCALE: i64 = 10_000;

#[derive(Clone, Copy, Debug, PartialEq, Eq, Structural)]
pub enum Operator {
    Idle,
    Add,
    Subtract,
    Multiply,
    Divide,
}

pub open spec fn symbol_text(op: Operator) -> Seq<char> {
    match op {
        Operator::Idle => ""@,
        Operator::Add => "+"@,
        Operator::Subtract => "-"@,
        Operator::Multiply => "*"@,
        Operator::Divide => "/"@,
    }
}

impl Operator {
    pub fn symbol(self) -> (r: &'static str)
        ensures
            r@ == symbol_text(self),
    {
        match self {
            Operator::Idle => "",
            Operator::Add => "+",
            Operator::Subtract => "-",
            Operator::Multiply => "*",
            Operator::Divide => "/",
        }
    }
}

/// What a button or key asks of the calculator.
#[derive(Clone, Copy, Debug, PartialEq, Eq, Structural)]
pub enum Command {
    Clear,
    Back,
    Negate,
    Percent,
    Point,
    Add,
    Subtract,
    Multiply,
    Divide,
    Equals,
    Digit(char),
}

// ---------------------------------------------------------------------
// Numbers as text.
// ---------------------------------------------------------------------

pub open spec fn is_digit(c: char) -> bool {
    '0' <= c <= '9'
}

pub open spec fn digit_value(c: char) -> int {
    (c as u32) as int - 48
}

pub open spec fn all_digits(s: Seq<char>) -> bool {
    forall|i: int| 0 <= i < s.len() ==> is_digit(#[trigger] s[i])
}

/// The number a string of decimal digits spells.
pub open spec fn digits_value(s: Seq<char>) -> int
    decreases s.len(),
{
    if s.len() == 0 {
        0
    } else {
        digits_value(s.drop_last()) * 10 + digit_value(s.last())
    }
}

/// An optional `+` and at least one digit, in range: the integers that
/// parse as an `i64` when no minus sign is in front.
pub open spec fn whole_value(s: Seq<char>) -> Option<i64> {
    let d = if s.len() > 0 && s[0] == '+' { s.skip(1) } else { s };
    if d.len() > 0 && all_digits(d) && digits_value(d) <= i64::MAX {
        Some(digits_value(d) as i64)
    } else {
        None
    }
}

/// The weight of the `k`th digit after the point.
pub open spec fn place(k: int) -> int {
    if k == 0 { 1000 } else if k == 1 { 100 } else if k == 2 { 10 } else { 1 }
}

/// The first digits after the point, weighted by their place.
pub open spec fn frac_sum(f: Seq<char>) -> int
    decreases f.len(),
{
    if f.len() == 0 {
        0
    } else {
        frac_sum(f.drop_last()) + digit_value(f.last()) * place(f.len() - 1)
    }
}

/// Where the run of minus signs at or after `i` ends.
pub open spec fn dash_end(s: Seq<char>, i: int) -> int
    decreases s.len() - i,
{
    if i < 0 || i >= s.len() || s[i] != '-' { i } else { dash_end(s, i + 1) }
}

/// The first decimal point at or after `i`, or the length.
pub open spec fn dot_from(s: Seq<char>, i: int) -> int
    decreases s.len() - i,
{
    if i < 0 || i >= s.len() || s[i] == '.' { i } else { dot_from(s, i + 1) }
}

/// The fixed-point value of the text being typed: a leading minus makes
/// it negative, the part before the point is the whole number (zero when
/// it does not parse), and up to four digits after it are the fraction.
pub open spec fn value_spec(entry: Seq<char>) -> i64 {
    let t = trimmed(entry);
    let negative = t.len() > 0 && t[0] == '-';
    let b = t.skip(dash_end(t, 0));
    let d = dot_from(b, 0);
    let whole = match whole_value(b.take(d)) {
        Some(v) => v,
        None => 0i64,
    };
    let frac = if d < b.len() { b.skip(d + 1) } else { Seq::empty() };
    let n = if frac.len() < 4 { frac.len() as int } else { 4 };
    let scaled = frac_sum(frac.take(n)) as i64;
    let v = wrapping_add(wrapping_mul(whole, SCALE), scaled);
    if negative { wrapping_sub(0, v) } else { v }
}

pub open spec fn digit_char(d: int) -> char {
    ((d + 48) as u8) as char
}

/// The four digits of a fraction, zero-padded.
pub open spec fn pad4(f: nat) -> Seq<char> {
    seq![digit_char((f / 1000) as int), digit_char((f / 100 % 10) as int),
        digit_char((f / 10 % 10) as int), digit_char((f % 10) as int)]
}

pub open spec fn strip_zeros(s: Seq<char>) -> Seq<char>
    decreases s.len(),
{
    if s.len() > 0 && s.last() == '0' { strip_zeros(s.drop_last()) } else { s }
}

pub open spec fn magnitude(v: i64) -> nat {
    if v < 0 { (-v) as nat } else { v as nat }
}

/// A fixed-point value as text: no fraction when it is whole, otherwise
/// the fraction without trailing zeros.
pub open spec fn render_spec(v: i64) -> Seq<char> {
    let m = magnitude(v);
    let whole = m / 10000;
    let fraction = m % 10000;
    let body = if fraction == 0 {
        dec_str(whole)
    } else {
        dec_str(whole) + "."@ + strip_zeros(pad4(fraction))
    };
    if v < 0 { "-"@ + body } else { body }
}

fn to_digit(d: u64) -> (c: char)
    requires
        d < 10,
    ensures
        c == digit_char(d as int),
{
    ((d as u8) + 48) as char
}

/// `v` as text.
pub fn render(value: i64) -> (text: Vec<char>)
    ensures
        text@ == render_spec(value),
{
    let mut out: Vec<char> = Vec::new();
    if value < 0 {
        out.push('-');
    }
    let m: u64 = if value < 0 {
        if value == i64::MIN { 0x8000_0000_0000_0000u64 } else { (-value) as u64 }
    } else {
        value as u64
    };
    let whole = m / 10000;
    let fraction = m % 10000;
    let ghost start = out@;
    push_dec(&mut out, whole);
    if fraction != 0 {
        out.push('.');
        let digits: [char; 4] = [
            to_digit(fraction / 1000),
            to_digit(fraction / 100 % 10),
            to_digit(fraction / 10 % 10),
            to_digit(fraction % 10),
        ];
        let ghost pad = pad4(fraction as nat);
        proof {
            assert(digits@ =~= pad);
            assert(pad.take(4) =~= pad);
        }
        let mut n: usize = 4;
        while n > 0 && digits[n - 1] == '0'
            invariant
                n <= 4,
                digits@ == pad,
                strip_zeros(pad.take(n as int)) == strip_zeros(pad),
            decreases n,
        {
            proof {
                assert(pad.take(n as int).drop_last() =~= pad.take(n - 1));
            }
            n -= 1;
        }
        proof {
            if n == 0 {
                assert(pad.take(0) =~= Seq::<char>::empty());
            }
        }
        let ghost before = out@;
        let mut i: usize = 0;
        while i < n
            invariant
                i <= n <= 4,
                digits@ == pad,
                out@ == before + pad.take(i as int),
            decreases n - i,
        {
            out.push(digits[i]);
            i += 1;
            proof {
                assert(out@ =~= before + pad.take(i as int));
            }
        }
        proof {
            assert(strip_zeros(pad.take(n as int)) == pad.take(n as int));
        }
    }
    proof {
        reveal_strlit(".");
        reveal_strlit("-");
        let body = if fraction == 0 {
            dec_str(whole as nat)
        } else {
            dec_str(whole as nat) + "."@ + strip_zeros(pad4(fraction as nat))
        };
        assert(magnitude(value) == m);
        if value < 0 {
            assert(out@ =~= "-"@ + body);
        } else {
            assert(out@ =~= body);
        }
    }
    out
}

proof fn lemma_digits_value_nonneg(s: Seq<char>)
    requires
        all_digits(s),
    ensures
        digits_value(s) >= 0,
    decreases s.len(),
{
    if s.len() > 0 {
        assert(all_digits(s.drop_last()));
        lemma_digits_value_nonneg(s.drop_last());
    }
}

/// A prefix of a digit string spells no more than the whole.
proof fn lemma_prefix_value(s: Seq<char>, k: int)
    requires
        all_digits(s),
        0 <= k <= s.len(),
    ensures
        digits_value(s.take(k)) <= digits_value(s),
    decreases s.len() - k,
{
    if k < s.len() {
        lemma_prefix_value(s, k + 1);
        let p = s.take(k + 1);
        assert(p.drop_last() =~= s.take(k));
        assert(all_digits(s.take(k)));
        lemma_digits_value_nonneg(s.take(k));
        assert(is_digit(s[k]));
    } else {
        assert(s.take(k) =~= s);
    }
}

/// The whole-number part, or zero when it does not parse.
fn parse_whole(s: &[char]) -> (v: i64)
    ensures
        v == (match whole_value(s@) {
            Some(w) => w,
            None => 0i64,
        }),
{
    let n = s.len();
    let start: usize = if n > 0 && s[0] == '+' { 1 } else { 0 };
    let ghost d = if s@.len() > 0 && s@[0] == '+' { s@.skip(1) } else { s@ };
    if start >= n {
        return 0;
    }
    let mut acc: i64 = 0;
    let mut i: usize = start;
    proof {
        assert(d =~= s@.skip(start as int));
        assert(d.take(0) =~= Seq::<char>::empty());
    }
    while i < n
        invariant
            start <= i <= n,
            n == s@.len(),
            d =~= s@.skip(start as int),
            d == (if s@.len() > 0 && s@[0] == '+' { s@.skip(1) } else { s@ }),
            all_digits(d.take(i - start)),
            acc == digits_value(d.take(i - start)),
            acc >= 0,
        decreases n - i,
    {
        let c = s[i];
        let k: Ghost<int> = Ghost(i - start);
        if !('0' <= c && c <= '9') {
            proof {
                assert(d[k@] == c);
                assert(!all_digits(d));
                assert(whole_value(s@) is None);
            }
            return 0;
        }
        let dv = (c as u32 - 48) as i64;
        proof {
            assert(d.take(k@ + 1).drop_last() =~= d.take(k@));
            assert(d.take(k@ + 1).last() == c);
            assert(digits_value(d.take(k@ + 1)) == acc * 10 + dv);
            assert(all_digits(d.take(k@ + 1)));
        }
        if acc > (i64::MAX - dv) / 10 {
            proof {
                assert(acc * 10 + dv > i64::MAX) by (nonlinear_arith)
                    requires
                        acc > (i64::MAX - dv) / 10,
                        0 <= dv <= 9,
                ;
                if all_digits(d) {
                    lemma_prefix_value(d, k@ + 1);
                }
                assert(whole_value(s@) is None);
            }
            return 0;
        }
        proof {
            assert(acc * 10 + dv <= i64::MAX) by (nonlinear_arith)
                requires
                    acc <= (i64::MAX - dv) / 10,
                    0 <= dv <= 9,
                    acc >= 0,
            ;
        }
        acc = acc * 10 + dv;
        i += 1;
    }
    proof {
        assert(d.take(n - start) =~= d);
    }
    acc
}

/// The fraction digits, weighted: at most four are read.
fn fraction_value(f: &[char]) -> (v: i64)
    ensures
        v as int == frac_sum(f@.take(if f@.len() < 4 { f@.len() as int } else { 4 })),
{
    let n: usize = if f.len() < 4 { f.len() } else { 4 };
    let mut scaled: i64 = 0;
    let mut place_value: i64 = 1000;
    let mut i: usize = 0;
    proof {
        assert(f@.take(0) =~= Seq::<char>::empty());
    }
    while i < n
        invariant
            i <= n <= 4,
            n <= f@.len(),
            i < n ==> place_value == place(i as int),
            scaled == frac_sum(f@.take(i as int)),
            -48 * 1111 <= scaled <= 4294967295 * 1111,
            i == 0 ==> scaled == 0,
            i == 1 ==> -48 * 1000 <= scaled <= 4294967295 * 1000,
            i == 2 ==> -48 * 1100 <= scaled <= 4294967295 * 1100,
            i == 3 ==> -48 * 1110 <= scaled <= 4294967295 * 1110,
        decreases n - i,
    {
        let c = f[i];
        let dv = c as u32 as i64 - 48;
        proof {
            assert(f@.take(i + 1).drop_last() =~= f@.take(i as int));
            assert(f@.take(i + 1).last() == c);
            assert(dv == digit_value(c));
        }
        scaled = scaled + dv * place_value;
        place_value = place_value / 10;
        i += 1;
    }
    scaled
}

/// The split of `entry` that `value_spec` reads, computed.
fn value_of(entry: &[char]) -> (v: i64)
    ensures
        v == value_spec(entry@),
{
    let t = trim_chars(entry);
    let negative = t.len() > 0 && t[0] == '-';
    let mut a: usize = 0;
    while a < t.len() && t[a] == '-'
        invariant
            a <= t@.len(),
            dash_end(t@, a as int) == dash_end(t@, 0),
        decreases t@.len() - a,
    {
        a += 1;
    }
    let mut d: usize = a;
    while d < t.len() && t[d] != '.'
        invariant
            a <= d <= t@.len(),
            dot_from(t@.skip(a as int), d - a) == dot_from(t@.skip(a as int), 0),
        decreases t@.len() - d,
    {
        d += 1;
    }
    let ghost b = t@.skip(a as int);
    proof {
        assert(dash_end(t@, a as int) == a);
        assert(dot_from(b, d - a) == d - a);
    }
    let mut whole_text: Vec<char> = Vec::new();
    let mut i: usize = a;
    while i < d
        invariant
            a <= i <= d <= t@.len(),
            whole_text@ == t@.subrange(a as int, i as int),
        decreases d - i,
    {
        whole_text.push(t[i]);
        i += 1;
        proof {
            assert(whole_text@ =~= t@.subrange(a as int, i as int));
        }
    }
    let mut frac_text: Vec<char> = Vec::new();
    if d < t.len() {
        let mut j: usize = d + 1;
        while j < t.len()
            invariant
                d < j <= t@.len(),
                frac_text@ == t@.subrange(d + 1, j as int),
            decreases t@.len() - j,
        {
            frac_text.push(t[j]);
            j += 1;
            proof {
                assert(frac_text@ =~= t@.subrange(d + 1, j as int));
            }
        }
    }
    proof {
        assert(b.take(d - a) =~= whole_text@);
        if d < t@.len() {
            assert(b.skip(d - a + 1) =~= frac_text@);
        } else {
            assert(frac_text@ =~= Seq::<char>::empty());
        }
    }
    let whole = parse_whole(whole_text.as_slice());
    let scaled = fraction_value(frac_text.as_slice());
    let v = whole.wrapping_mul(SCALE).wrapping_add(scaled);
    if negative { 0i64.wrapping_sub(v) } else { v }
}

// ---------------------------------------------------------------------
// The calculator.
// ---------------------------------------------------------------------

/// A button: its label, what it does, where it is, and whether it is an
/// operator.
pub struct Button {
    pub label: &'static str,
    pub command: Command,
    pub rect: Rect,
    pub accent: bool,
}

pub type ButtonView = (Seq<char>, Command, Rect, bool);

impl Button {
    pub open spec fn view(&self) -> ButtonView {
        (self.label@, self.command, self.rect, self.accent)
    }
}

pub struct CalcView {
    pub entry: Seq<char>,
    pub accumulator: i64,
    pub pending: Operator,
    pub fresh: bool,
    pub history: Seq<Seq<char>>,
    pub error: Option<Seq<char>>,
    pub buttons: Seq<ButtonView>,
    pub dirty: bool,
    pub pressed: Option<usize>,
}

pub struct Calculator {
    /// The number being typed, as text.
    entry: Vec<char>,
    accumulator: i64,
    pending: Operator,
    fresh: bool,
    history: Vec<Vec<char>>,
    error: Option<&'static str>,
    buttons: Vec<Button>,
    dirty: bool,
    pressed: Option<usize>,
}

pub open spec fn result_spec(op: Operator, left: i64, right: i64) -> Option<i64> {
    match op {
        Operator::Add => Some(wrapping_add(left, right)),
        Operator::Subtract => Some(wrapping_sub(left, right)),
        // Both operands carry the scale, so a product has it twice.
        Operator::Multiply => Some(quot(wrapping_mul(left, right) as int, 10000) as i64),
        Operator::Divide => if right == 0 {
            None
        } else {
            Some(quot(wrapping_mul(left, SCALE) as int, right as int) as i64)
        },
        Operator::Idle => Some(right),
    }
}

/// The line the history keeps for one operation.
pub open spec fn history_line(left: i64, op: Operator, right: i64, value: i64) -> Seq<char> {
    render_spec(left) + " "@ + symbol_text(op) + " "@ + render_spec(right) + " = "@ + render_spec(value)
}

/// The last six lines.
pub open spec fn keep_six(h: Seq<Seq<char>>) -> Seq<Seq<char>> {
    if h.len() > 6 { h.skip(h.len() - 6) } else { h }
}

/// Dividing the smallest value by minus one has no result in `i64`: the
/// operation the calculator is about to finish would do that.
pub open spec fn apply_overflows(c: CalcView) -> bool {
    c.pending == Operator::Divide && value_spec(c.entry) == -1
        && wrapping_mul(c.accumulator, SCALE) == i64::MIN
}

/// Finish the pending operation with the typed number and make `op`
/// the next one.
pub open spec fn apply_spec(c: CalcView, op: Operator) -> CalcView {
    let right = value_spec(c.entry);
    let (acc, history, error) = if c.pending == Operator::Idle {
        (right, c.history, c.error)
    } else {
        match result_spec(c.pending, c.accumulator, right) {
            Some(v) => (v, keep_six(c.history.push(history_line(c.accumulator, c.pending, right, v))), c.error),
            None => (0i64, c.history, Some("division by zero"@)),
        }
    };
    CalcView {
        entry: render_spec(acc),
        accumulator: acc,
        pending: op,
        fresh: true,
        history,
        error,
        dirty: true,
        ..c
    }
}

pub open spec fn count_digits(s: Seq<char>) -> int
    decreases s.len(),
{
    if s.len() == 0 {
        0
    } else {
        count_digits(s.drop_last()) + if is_digit(s.last()) { 1int } else { 0int }
    }
}

/// Type a digit: a fresh entry starts over, and twelve digits are the most.
pub open spec fn digit_spec(c: CalcView, ch: char) -> CalcView {
    let (entry, fresh) = if c.fresh || c.entry == "0"@ { (Seq::<char>::empty(), false) } else { (c.entry, c.fresh) };
    if count_digits(entry) >= 12 {
        CalcView { entry, fresh, ..c }
    } else {
        CalcView { entry: entry.push(ch), fresh, error: None, dirty: true, ..c }
    }
}

pub open spec fn command_applies(cmd: Command) -> bool {
    cmd == Command::Add || cmd == Command::Subtract || cmd == Command::Multiply
        || cmd == Command::Divide || cmd == Command::Equals
}

/// The entry after the sign key: a leading minus comes off, otherwise one
/// goes on, except on a plain zero.
pub open spec fn negated(e: Seq<char>) -> Seq<char> {
    if e.len() > 0 && e[0] == '-' {
        e.skip(1)
    } else if e != "0"@ {
        seq!['-'] + e
    } else {
        e
    }
}

pub open spec fn press_spec(c: CalcView, cmd: Command) -> CalcView {
    let next = match cmd {
        Command::Clear => CalcView {
            entry: "0"@,
            accumulator: 0,
            pending: Operator::Idle,
            fresh: true,
            error: None,
            ..c
        },
        Command::Back => {
            let e = if c.entry.len() > 0 { c.entry.drop_last() } else { c.entry };
            if e.len() == 0 || e == "-"@ {
                CalcView { entry: "0"@, fresh: true, ..c }
            } else {
                CalcView { entry: e, ..c }
            }
        },
        Command::Negate => CalcView { entry: negated(c.entry), ..c },
        Command::Percent => CalcView {
            entry: render_spec(quot(value_spec(c.entry) as int, 100) as i64),
            fresh: true,
            ..c
        },
        Command::Point => {
            let (e, f) = if c.fresh { ("0"@, false) } else { (c.entry, c.fresh) };
            if e.contains('.') {
                CalcView { entry: e, fresh: f, ..c }
            } else {
                CalcView { entry: e.push('.'), fresh: f, ..c }
            }
        },
        Command::Add => apply_spec(c, Operator::Add),
        Command::Subtract => apply_spec(c, Operator::Subtract),
        Command::Multiply => apply_spec(c, Operator::Multiply),
        Command::Divide => apply_spec(c, Operator::Divide),
        Command::Equals => CalcView { pending: Operator::Idle, ..apply_spec(c, Operator::Idle) },
        Command::Digit(ch) => digit_spec(c, ch),
    };
    CalcView { dirty: true, ..next }
}

/// What a key other than a digit asks for.
pub open spec fn key_command(e: KeyEvent) -> Option<Command> {
    match e.key {
        Key::Enter => Some(Command::Equals),
        Key::Backspace => Some(Command::Back),
        Key::Escape | Key::Delete => Some(Command::Clear),
        Key::Char => match e.character {
            Some(ch) => if ch == '.' || ch == ',' {
                Some(Command::Point)
            } else if ch == '+' {
                Some(Command::Add)
            } else if ch == '-' {
                Some(Command::Subtract)
            } else if ch == '*' || ch == 'x' {
                Some(Command::Multiply)
            } else if ch == '/' {
                Some(Command::Divide)
            } else if ch == '=' {
                Some(Command::Equals)
            } else if ch == 'c' {
                Some(Command::Clear)
            } else if ch == '%' {
                Some(Command::Percent)
            } else {
                None
            },
            None => None,
        },
        _ => None,
    }
}

pub open spec fn digit_key(e: KeyEvent) -> bool {
    e.key == Key::Char && (e.character matches Some(ch) && is_digit(ch))
}

pub open spec fn key_spec(c: CalcView, e: KeyEvent) -> CalcView {
    if !e.pressed {
        c
    } else if digit_key(e) {
        digit_spec(c, e.character->Some_0)
    } else {
        match key_command(e) {
            Some(cmd) => press_spec(c, cmd),
            None => c,
        }
    }
}

pub open spec fn key_overflows(c: CalcView, e: KeyEvent) -> bool {
    e.pressed && !digit_key(e) && (key_command(e) matches Some(cmd) && command_applies(cmd)) && apply_overflows(c)
}

/// The first button under the point, from index `i` on.
pub open spec fn hit_from(b: Seq<ButtonView>, x: int, y: int, i: int) -> Option<int>
    decreases b.len() - i,
{
    if i < 0 || i >= b.len() {
        None
    } else if b[i].2.contains_spec(x, y) {
        Some(i)
    } else {
        hit_from(b, x, y, i + 1)
    }
}

pub open spec fn mouse_spec(c: CalcView, e: WindowMouse) -> CalcView {
    if e.released {
        CalcView { pressed: None, dirty: true, ..c }
    } else if !e.pressed {
        c
    } else {
        match hit_from(c.buttons, e.x as int, e.y as int, 0) {
            Some(i) => press_spec(CalcView { pressed: Some(i as usize), ..c }, c.buttons[i].1),
            None => c,
        }
    }
}

pub open spec fn mouse_overflows(c: CalcView, e: WindowMouse) -> bool {
    !e.released && e.pressed && (hit_from(c.buttons, e.x as int, e.y as int, 0) matches Some(i)
        && command_applies(c.buttons[i].1)) && apply_overflows(c)
}

/// The keypad, row by row.
pub open spec fn keypad() -> Seq<(Seq<char>, Command)> {
    seq![
        ("C"@, Command::Clear), ("+/-"@, Command::Negate), ("%"@, Command::Percent), ("/"@, Command::Divide),
        ("7"@, Command::Digit('7')), ("8"@, Command::Digit('8')), ("9"@, Command::Digit('9')), ("*"@, Command::Multiply),
        ("4"@, Command::Digit('4')), ("5"@, Command::Digit('5')), ("6"@, Command::Digit('6')), ("-"@, Command::Subtract),
        ("1"@, Command::Digit('1')), ("2"@, Command::Digit('2')), ("3"@, Command::Digit('3')), ("+"@, Command::Add),
        ("0"@, Command::Digit('0')), ("."@, Command::Point), ("<"@, Command::Back), ("="@, Command::Equals),
    ]
}

pub open spec fn accent_spec(cmd: Command) -> bool {
    command_applies(cmd)
}

/// Where the twenty buttons go in a window of this size.
pub open spec fn layout_spec(width: int, height: int) -> Seq<ButtonView> {
    let cell_w = quot(width - 20, 4);
    let cell_h = (if height - 120 > 16 { height - 120 } else { 16 }) / 5;
    Seq::new(20, |i: int| {
        let row = i / 4;
        let column = i % 4;
        (keypad()[i].0, keypad()[i].1,
            Rect { x: (4 + column * (cell_w + 4)) as i32, y: (100 + row * (cell_h + 4)) as i32, w: cell_w as i32, h: cell_h as i32 },
            accent_spec(keypad()[i].1))
    })
}

fn keypad_entry(i: usize) -> (r: (&'static str, Command))
    requires
        i < 20,
    ensures
        (r.0@, r.1) == keypad()[i as int],
{
    match i {
        0 => ("C", Command::Clear),
        1 => ("+/-", Command::Negate),
        2 => ("%", Command::Percent),
        3 => ("/", Command::Divide),
        4 => ("7", Command::Digit('7')),
        5 => ("8", Command::Digit('8')),
        6 => ("9", Command::Digit('9')),
        7 => ("*", Command::Multiply),
        8 => ("4", Command::Digit('4')),
        9 => ("5", Command::Digit('5')),
        10 => ("6", Command::Digit('6')),
        11 => ("-", Command::Subtract),
        12 => ("1", Command::Digit('1')),
        13 => ("2", Command::Digit('2')),
        14 => ("3", Command::Digit('3')),
        15 => ("+", Command::Add),
        16 => ("0", Command::Digit('0')),
        17 => (".", Command::Point),
        18 => ("<", Command::Back),
        _ => ("=", Command::Equals),
    }
}

fn applies(cmd: Command) -> (r: bool)
    ensures
        r == command_applies(cmd),
{
    match cmd {
        Command::Add | Command::Subtract | Command::Multiply | Command::Divide | Command::Equals => true,
        _ => false,
    }
}

impl Calculator {
    pub closed spec fn view(&self) -> CalcView {
        CalcView {
            entry: self.entry@,
            accumulator: self.accumulator,
            pending: self.pending,
            fresh: self.fresh,
            history: self.history@.map_values(|l: Vec<char>| l@),
            error: match self.error {
                Some(e) => Some(e@),
                None => None,
            },
            buttons: self.buttons@.map_values(|b: Button| b.view()),
            dirty: self.dirty,
            pressed: self.pressed,
        }
    }

    pub fn new() -> (c: Calculator)
        ensures
            c.view() == (CalcView {
                entry: "0"@,
                accumulator: 0,
                pending: Operator::Idle,
                fresh: true,
                history: Seq::empty(),
                error: None,
                buttons: Seq::empty(),
                dirty: true,
                pressed: None,
            }),
    {
        let c = Calculator {
            entry: vec!['0'],
            accumulator: 0,
            pending: Operator::Idle,
            fresh: true,
            history: Vec::new(),
            error: None,
            buttons: Vec::new(),
            dirty: true,
            pressed: None,
        };
        proof {
            reveal_strlit("0");
            assert(c.entry@ =~= "0"@);
            assert(c.history@.map_values(|l: Vec<char>| l@) =~= Seq::<Seq<char>>::empty());
            assert(c.buttons@.map_values(|b: Button| b.view()) =~= Seq::<ButtonView>::empty());
        }
        c
    }

    /// The fixed-point value of the number being typed.
    fn value(&self) -> (v: i64)
        ensures
            v == value_spec(self.view().entry),
    {
        value_of(self.entry.as_slice())
    }

    /// Would finishing the pending operation divide the smallest value by
    /// minus one?
    pub fn pending_overflows(&self) -> (r: bool)
        ensures
            r == apply_overflows(self.view()),
    {
        self.pending == Operator::Divide && self.value() == -1
            && self.accumulator.wrapping_mul(SCALE) == i64::MIN
    }

    fn push_history(&mut self, line: Vec<char>)
        ensures
            final(self).view() == (CalcView {
                history: keep_six(old(self).view().history.push(line@)),
                ..old(self).view()
            }),
    {
        self.history.push(line);
        let ghost h = old(self).view().history.push(line@);
        proof {
            assert(self.history@.map_values(|l: Vec<char>| l@) =~= h);
        }
        let ghost mut dropped: int = 0;
        while self.history.len() > 6
            invariant
                0 <= dropped <= h.len(),
                self.history@.map_values(|l: Vec<char>| l@) =~= h.skip(dropped),
                self.history@.len() == h.len() - dropped,
                h.len() > 6 ==> dropped <= h.len() - 6,
                h.len() <= 6 ==> dropped == 0,
                self.entry == old(self).entry,
                self.accumulator == old(self).accumulator,
                self.pending == old(self).pending,
                self.fresh == old(self).fresh,
                self.error == old(self).error,
                self.buttons == old(self).buttons,
                self.dirty == old(self).dirty,
                self.pressed == old(self).pressed,
            decreases self.history@.len(),
        {
            let ghost before = self.history@;
            self.history.remove(0);
            proof {
                assert(self.history@ =~= before.subrange(1, before.len() as int));
                let mb = before.map_values(|l: Vec<char>| l@);
                assert(self.history@.map_values(|l: Vec<char>| l@) =~= mb.subrange(1, mb.len() as int));
                assert(h.skip(dropped + 1) =~= h.skip(dropped).subrange(1, h.skip(dropped).len() as int));
                dropped = dropped + 1;
            }
        }
        proof {
            assert(self.history@.map_values(|l: Vec<char>| l@) =~= keep_six(h));
        }
    }

    fn history_text(left: i64, op: Operator, right: i64, value: i64) -> (line: Vec<char>)
        ensures
            line@ == history_line(left, op, right, value),
    {
        proof {
            reveal_strlit(" ");
        }
        let mut line = render(left);
        line.push(' ');
        let sym = op.symbol();
        crate::text::push_str(&mut line, sym);
        line.push(' ');
        let r = render(right);
        let mut i: usize = 0;
        let ghost before = line@;
        while i < r.len()
            invariant
                i <= r@.len(),
                line@ == before + r@.take(i as int),
            decreases r@.len() - i,
        {
            line.push(r[i]);
            i += 1;
            proof {
                assert(line@ =~= before + r@.take(i as int));
            }
        }
        crate::text::push_str(&mut line, " = ");
        let v = render(value);
        let ghost before2 = line@;
        let mut j: usize = 0;
        while j < v.len()
            invariant
                j <= v@.len(),
                line@ == before2 + v@.take(j as int),
            decreases v@.len() - j,
        {
            line.push(v[j]);
            j += 1;
            proof {
                assert(line@ =~= before2 + v@.take(j as int));
            }
        }
        proof {
            assert(r@.take(r@.len() as int) =~= r@);
            assert(v@.take(v@.len() as int) =~= v@);
            assert(line@ =~= history_line(left, op, right, value));
        }
        line
    }

    fn apply(&mut self, operator: Operator)
        requires
            !apply_overflows(old(self).view()),
        ensures
            final(self).view() == apply_spec(old(self).view(), operator),
    {
        let right = self.value();
        if self.pending == Operator::Idle {
            self.accumulator = right;
        } else {
            let left = self.accumulator;
            let result: Option<i64> = match self.pending {
                Operator::Add => Some(left.wrapping_add(right)),
                Operator::Subtract => Some(left.wrapping_sub(right)),
                Operator::Multiply => Some(left.wrapping_mul(right) / SCALE),
                Operator::Divide => {
                    if right == 0 {
                        None
                    } else {
                        Some(divide(left.wrapping_mul(SCALE), right))
                    }
                },
                Operator::Idle => Some(right),
            };
            proof {
                let p = wrapping_mul(left, right) as int;
                if p < 0 {
                    assert(quot(p, 10000) == -((-p) / 10000));
                }
            }
            match result {
                Some(value) => {
                    let line = Self::history_text(left, self.pending, right, value);
                    self.push_history(line);
                    self.accumulator = value;
                },
                None => {
                    self.error = Some("division by zero");
                    self.accumulator = 0;
                },
            }
        }
        self.entry = render(self.accumulator);
        self.pending = operator;
        self.fresh = true;
        self.dirty = true;
        proof {
            let c = old(self).view();
            let s = apply_spec(c, operator);
            assert(self.view().entry == s.entry);
            assert(self.view().history == s.history);
            assert(self.view() == s);
        }
    }

    fn digit(&mut self, ch: char)
        ensures
            final(self).view() == digit_spec(old(self).view(), ch),
    {
        proof {
            reveal_strlit("0");
        }
        let is_zero = self.entry.len() == 1 && self.entry[0] == '0';
        proof {
            if is_zero {
                assert(self.entry@ =~= "0"@);
            }
            if self.entry@ == "0"@ {
                assert(self.entry@.len() == 1);
            }
        }
        if self.fresh || is_zero {
            self.entry.clear();
            self.fresh = false;
        }
        let mut count: usize = 0;
        let mut i: usize = 0;
        while i < self.entry.len()
            invariant
                i <= self.entry@.len(),
                count <= i,
                count == count_digits(self.entry@.take(i as int)),
            decreases self.entry@.len() - i,
        {
            proof {
                assert(self.entry@.take(i + 1).drop_last() =~= self.entry@.take(i as int));
            }
            if '0' <= self.entry[i] && self.entry[i] <= '9' {
                count += 1;
            }
            i += 1;
        }
        proof {
            assert(self.entry@.take(self.entry@.len() as int) =~= self.entry@);
        }
        if count >= 12 {
            return;
        }
        self.entry.push(ch);
        self.error = None;
        self.dirty = true;
    }

    fn press(&mut self, command: Command)
        requires
            command_applies(command) ==> !apply_overflows(old(self).view()),
        ensures
            final(self).view() == press_spec(old(self).view(), command),
    {
        proof {
            reveal_strlit("0");
            reveal_strlit("-");
        }
        match command {
            Command::Clear => {
                self.entry = vec!['0'];
                self.accumulator = 0;
                self.pending = Operator::Idle;
                self.fresh = true;
                self.error = None;
                proof {
                    assert(self.entry@ =~= "0"@);
                }
            },
            Command::Back => {
                self.entry.pop();
                let only_dash = self.entry.len() == 1 && self.entry[0] == '-';
                proof {
                    if only_dash {
                        assert(self.entry@ =~= "-"@);
                    }
                    if self.entry@ == "-"@ {
                        assert(self.entry@.len() == 1);
                    }
                    if old(self).entry@.len() > 0 {
                        assert(self.entry@ =~= old(self).entry@.drop_last());
                    }
                }
                if self.entry.len() == 0 || only_dash {
                    self.entry = vec!['0'];
                    self.fresh = true;
                    proof {
                        assert(self.entry@ =~= "0"@);
                    }
                }
            },
            Command::Negate => {
                let is_zero = self.entry.len() == 1 && self.entry[0] == '0';
                proof {
                    if is_zero {
                        assert(self.entry@ =~= "0"@);
                    }
                    if self.entry@ == "0"@ {
                        assert(self.entry@.len() == 1);
                    }
                }
                if self.entry.len() > 0 && self.entry[0] == '-' {
                    self.entry.remove(0);
                    proof {
                        assert(self.entry@ =~= old(self).entry@.skip(1));
                    }
                } else if !is_zero {
                    self.entry.insert(0, '-');
                    proof {
                        assert(self.entry@ =~= seq!['-'] + old(self).entry@);
                    }
                }
            },
            Command::Percent => {
                let v = self.value();
                let value = v / 100;
                proof {
                    if v < 0 {
                        assert(quot(v as int, 100) == -((-v) / 100));
                    }
                }
                self.entry = render(value);
                self.fresh = true;
            },
            Command::Point => {
                if self.fresh {
                    self.entry = vec!['0'];
                    self.fresh = false;
                    proof {
                        assert(self.entry@ =~= "0"@);
                    }
                }
                let mut has_point = false;
                let mut i: usize = 0;
                while i < self.entry.len()
                    invariant
                        i <= self.entry@.len(),
                        has_point <==> exists|j: int| 0 <= j < i && self.entry@[j] == '.',
                    decreases self.entry@.len() - i,
                {
                    if self.entry[i] == '.' {
                        has_point = true;
                    }
                    i += 1;
                }
                if !has_point {
                    self.entry.push('.');
                } else {
                    proof {
                        let j = choose|j: int| 0 <= j < self.entry@.len() && self.entry@[j] == '.';
                        assert(self.entry@.contains('.'));
                    }
                }
            },
            Command::Add => self.apply(Operator::Add),
            Command::Subtract => self.apply(Operator::Subtract),
            Command::Multiply => self.apply(Operator::Multiply),
            Command::Divide => self.apply(Operator::Divide),
            Command::Equals => {
                self.apply(Operator::Idle);
                self.pending = Operator::Idle;
            },
            Command::Digit(ch) => self.digit(ch),
        }
        self.dirty = true;
    }

    /// Lay the buttons out for a window of this size.
    pub fn layout(&mut self, width: i32, height: i32)
        requires
            width >= 0,
            height >= 0,
        ensures
            final(self).view() == (CalcView { buttons: layout_spec(width as int, height as int), ..old(self).view() }),
    {
        let cell_w = (width - 20) / 4;
        let tall = if height - 120 > 16 { height - 120 } else { 16 };
        let cell_h = tall / 5;
        proof {
            if width - 20 < 0 {
                assert(quot(width - 20, 4) == -((20 - width) / 4));
            }
        }
        self.buttons.clear();
        let mut i: usize = 0;
        while i < 20
            invariant
                i <= 20,
                self.buttons@.len() == i,
                cell_w as int == quot(width - 20, 4),
                cell_h as int == (if height - 120 > 16 { height - 120 } else { 16 }) / 5,
                -5 <= cell_w <= 536870906,
                3 <= cell_h <= 429496705,
                forall|k: int| 0 <= k < i ==> (#[trigger] self.buttons@[k]).view() == layout_spec(width as int, height as int)[k],
                self.entry == old(self).entry,
                self.accumulator == old(self).accumulator,
                self.pending == old(self).pending,
                self.fresh == old(self).fresh,
                self.history == old(self).history,
                self.error == old(self).error,
                self.dirty == old(self).dirty,
                self.pressed == old(self).pressed,
            decreases 20 - i,
        {
            let (label, command) = keypad_entry(i);
            let row = (i / 4) as i32;
            let column = (i % 4) as i32;
            proof {
                assert(-3 <= column * (cell_w + 4) <= 3 * 536870910) by (nonlinear_arith)
                    requires
                        0 <= column <= 3,
                        -1 <= cell_w + 4 <= 536870910,
                ;
                assert(0 <= row * (cell_h + 4) <= 4 * 429496709) by (nonlinear_arith)
                    requires
                        0 <= row <= 4,
                        7 <= cell_h + 4 <= 429496709,
                ;
            }
            let rect = Rect::new(4 + column * (cell_w + 4), 100 + row * (cell_h + 4), cell_w, cell_h);
            let accent = applies(command);
            self.buttons.push(Button { label, command, rect, accent });
            i += 1;
        }
        proof {
            assert(self.buttons@.map_values(|b: Button| b.view()) =~= layout_spec(width as int, height as int));
        }
    }

    /// React to a key.
    pub fn on_key(&mut self, event: &KeyEvent)
        requires
            !key_overflows(old(self).view(), *event),
        ensures
            final(self).view() == key_spec(old(self).view(), *event),
    {
        if !event.pressed {
            return;
        }
        match event.key {
            Key::Enter => self.press(Command::Equals),
            Key::Backspace => self.press(Command::Back),
            Key::Escape | Key::Delete => self.press(Command::Clear),
            Key::Char => {
                if let Some(ch) = event.character {
                    if '0' <= ch && ch <= '9' {
                        self.digit(ch);
                    } else if ch == '.' || ch == ',' {
                        self.press(Command::Point);
                    } else if ch == '+' {
                        self.press(Command::Add);
                    } else if ch == '-' {
                        self.press(Command::Subtract);
                    } else if ch == '*' || ch == 'x' {
                        self.press(Command::Multiply);
                    } else if ch == '/' {
                        self.press(Command::Divide);
                    } else if ch == '=' {
                        self.press(Command::Equals);
                    } else if ch == 'c' {
                        self.press(Command::Clear);
                    } else if ch == '%' {
                        self.press(Command::Percent);
                    }
                }
            },
            _ => {},
        }
    }

    /// The first button under the point.
    fn find_hit(&self, x: i32, y: i32) -> (hit: Option<usize>)
        ensures
            hit matches Some(i) ==> hit_from(self.view().buttons, x as int, y as int, 0) == Some(i as int)
                && i < self.view().buttons.len(),
            hit is None ==> hit_from(self.view().buttons, x as int, y as int, 0) is None,
    {
        let ghost b = self.view().buttons;
        let mut i: usize = 0;
        while i < self.buttons.len()
            invariant
                i <= self.buttons@.len(),
                b == self.buttons@.map_values(|bt: Button| bt.view()),
                hit_from(b, x as int, y as int, i as int) == hit_from(b, x as int, y as int, 0),
            decreases self.buttons@.len() - i,
        {
            let r = self.buttons[i].rect;
            proof {
                assert(b[i as int] == self.buttons@[i as int].view());
            }
            let inside = (x as i64) >= (r.x as i64) && (y as i64) >= (r.y as i64)
                && (x as i64) < (r.x as i64) + (r.w as i64) && (y as i64) < (r.y as i64) + (r.h as i64);
            if inside {
                return Some(i);
            }
            i += 1;
        }
        None
    }

    /// React to the pointer: a press on a button presses it.
    pub fn on_mouse(&mut self, event: &WindowMouse)
        requires
            !mouse_overflows(old(self).view(), *event),
        ensures
            final(self).view() == mouse_spec(old(self).view(), *event),
    {
        if event.released {
            self.pressed = None;
            self.dirty = true;
            return;
        }
        if !event.pressed {
            return;
        }
        let hit = self.find_hit(event.x, event.y);
        let ghost b = self.view().buttons;
        if let Some(index) = hit {
            let command = self.buttons[index].command;
            proof {
                assert(b[index as int] == self.buttons@[index as int].view());
            }
            self.pressed = Some(index);
            proof {
                assert(self.view() == (CalcView { pressed: Some(index), ..old(self).view() }));
            }
            self.press(command);
        }
    }

    /// What the display shows: the error, or else the number being typed.
    pub fn shown(&self) -> (s: Vec<char>)
        ensures
            s@ == (match self.view().error {
                Some(e) => e,
                None => self.view().entry,
            }),
    {
        match self.error {
            Some(e) => crate::text::chars_of(e),
            None => self.entry.clone(),
        }
    }

    /// The operations done so far, the oldest first.
    pub fn history(&self) -> (h: Vec<Vec<char>>)
        ensures
            h@.map_values(|l: Vec<char>| l@) == self.view().history,
    {
        self.history.clone()
    }

    pub fn dirty(&self) -> (d: bool)
        ensures
            d == self.view().dirty,
    {
        self.dirty
    }

    pub fn clear_dirty(&mut self)
        ensures
            final(self).view() == (CalcView { dirty: false, ..old(self).view() }),
    {
        self.dirty = false;
    }

    pub fn min_size(&self) -> (r: (i32, i32))
        ensures
            r == (260i32, 340i32),
    {
        (260, 340)
    }
}

// ---------------------------------------------------------------------
// What the window shows.
// ---------------------------------------------------------------------

/// What the display shows: the error, or else the number being typed.
pub open spec fn shown_spec(v: CalcView) -> Seq<char> {
    match v.error {
        Some(e) => e,
        None => v.entry,
    }
}

/// The last three history lines, newest first, at the top of the display.
pub open spec fn history_ops(h: Seq<Seq<char>>, k: int) -> Seq<Op>
    decreases k,
{
    if k <= 0 || k > h.len() {
        Seq::empty()
    } else {
        history_ops(h, k - 1) + seq![Op::Text(h[h.len() - k], 14, (12 + 14 * (k - 1)) as i32, TEXT_FAINT, Weight::Regular, 1)]
    }
}

pub open spec fn button_ops(b: ButtonView, held: bool) -> Seq<Op> {
    let fill = if held { 0x0034_4066u32 } else if b.3 { 0x0022_2B46u32 } else { 0x0016_1D30u32 };
    seq![
        Op::Fill(b.2, fill),
        Op::Stroke(b.2, if b.3 { AMBER_DIM } else { BORDER }),
        Op::Text(b.0, (b.2.x + quot(b.2.w - b.0.len() * 8, 2)) as i32, (b.2.y + quot(b.2.h - 16, 2)) as i32,
            if b.3 { AMBER } else { TEXT_BRIGHT }, Weight::Bold, 1),
    ]
}

pub open spec fn buttons_ops(bs: Seq<ButtonView>, pressed: Option<usize>, k: int) -> Seq<Op>
    decreases k,
{
    if k <= 0 || k > bs.len() {
        Seq::empty()
    } else {
        buttons_ops(bs, pressed, k - 1) + button_ops(bs[k - 1], pressed == Some((k - 1) as usize))
    }
}

/// Everything the window draws, in order, for a window `w` wide.
pub open spec fn calc_scene(v: CalcView, w: int) -> Seq<Op> {
    let display = Rect { x: 6, y: 6, w: (w - 12) as i32, h: 84 };
    let shown = shown_spec(v);
    let n = if v.history.len() < 3 { v.history.len() as int } else { 3 };
    seq![Op::Clear(PANEL), Op::Fill(display, 0x0006_0A14), Op::Stroke(display, BORDER)]
        + history_ops(v.history, n)
        + seq![Op::Text(shown, (w - 6 - shown.len() * 16 - 10) as i32, 64, if v.error is Some { ERROR } else { AMBER }, Weight::Bold, 2)]
        + (if v.pending != Operator::Idle { seq![Op::Text(symbol_text(v.pending), 14, 64, CYAN, Weight::Bold, 2)] } else { Seq::empty() })
        + buttons_ops(v.buttons, v.pressed, v.buttons.len() as int)
}

fn push_op(ops: &mut Vec<Paint>, p: Paint)
    ensures
        ops_view(final(ops)@) == ops_view(old(ops)@).push(op_view(p)),
{
    proof {
        lemma_ops_push(ops@, p);
    }
    ops.push(p);
}

impl Calculator {
    /// Everything the window draws, for a window `width` wide, with the
    /// buttons where they are.
    pub fn scene(&self, width: i32) -> (ops: Vec<Paint>)
        ensures
            ops_view(ops@) == calc_scene(self.view(), width as int),
    {
        let ghost v = self.view();
        let display = Rect::new(6, 6, (width as i64 - 12) as i32, 84);
        let mut ops: Vec<Paint> = Vec::new();
        push_op(&mut ops, Paint::Clear(PANEL));
        push_op(&mut ops, Paint::Fill(display, 0x0006_0A14));
        push_op(&mut ops, Paint::Stroke(display, BORDER));
        let ghost s1 = ops_view(ops@);
        let hl = self.history.len();
        let n = if hl < 3 { hl } else { 3 };
        let mut k: usize = 0;
        while k < n
            invariant
                v == self.view(),
                hl == v.history.len(),
                n <= 3,
                n <= hl,
                k <= n,
                ops_view(ops@) == s1 + history_ops(v.history, k as int),
            decreases n - k,
        {
            let line = &self.history[hl - 1 - k];
            proof {
                assert(v.history[hl - (k + 1)] == line@);
            }
            push_op(&mut ops, Paint::Text(crate::text::string_of(line.as_slice()), 14, (12 + 14 * k) as i32, TEXT_FAINT, Weight::Regular, 1));
            k += 1;
            proof {
                assert(history_ops(v.history, k as int) == history_ops(v.history, k - 1)
                    + seq![Op::Text(v.history[v.history.len() - k], 14, (12 + 14 * (k - 1)) as i32, TEXT_FAINT, Weight::Regular, 1)]);
            }
        }
        let shown = self.shown();
        let len = shown.len() as i128;
        let x = (width as i128 - 6 - len * 16 - 10) as i32;
        push_op(&mut ops, Paint::Text(crate::text::string_of(shown.as_slice()), x, 64,
            if self.error.is_some() { ERROR } else { AMBER }, Weight::Bold, 2));
        if self.pending != Operator::Idle {
            push_op(&mut ops, Paint::Text(crate::text::to_string(self.pending.symbol()), 14, 64, CYAN, Weight::Bold, 2));
        }
        let ghost s2 = ops_view(ops@);
        let nb = self.buttons.len();
        let mut i: usize = 0;
        while i < nb
            invariant
                v == self.view(),
                nb == v.buttons.len(),
                i <= nb,
                ops_view(ops@) == s2 + buttons_ops(v.buttons, v.pressed, i as int),
            decreases nb - i,
        {
            let b = &self.buttons[i];
            proof {
                assert(v.buttons[i as int] == b.view());
            }
            let held = match self.pressed { Some(p) => p == i, None => false };
            let fill = if held { 0x0034_4066u32 } else if b.accent { 0x0022_2B46u32 } else { 0x0016_1D30u32 };
            let ghost before = ops_view(ops@);
            push_op(&mut ops, Paint::Fill(b.rect, fill));
            push_op(&mut ops, Paint::Stroke(b.rect, if b.accent { AMBER_DIM } else { BORDER }));
            let label_width = b.label.unicode_len() as i128 * 8;
            let dx = (b.rect.w as i128 - label_width) / 2;
            let dy = crate::num::divide(b.rect.h as i64 - 16, 2);
            proof {
                let a = b.rect.w as int - b.label@.len() * 8;
                if a < 0 {
                    assert(quot(a, 2) == -((-a) / 2));
                }
            }
            push_op(&mut ops, Paint::Text(crate::text::to_string(b.label), (b.rect.x as i128 + dx) as i32,
                (b.rect.y as i64 + dy) as i32, if b.accent { AMBER } else { TEXT_BRIGHT }, Weight::Bold, 1));
            proof {
                assert(ops_view(ops@) =~= before + button_ops(v.buttons[i as int], v.pressed == Some(i)));
            }
            i += 1;
        }
        proof {
            assert(ops_view(ops@) =~= calc_scene(v, width as int));
        }
        ops
    }

    /// Draw the window: lay the buttons out for its size, then paint the
    /// scene.
    pub fn draw(&mut self, surface: &mut Surface, font: &Font)
        requires
            old(surface).wf(),
            font.wf(),
        ensures
            final(self).view() == (CalcView {
                buttons: layout_spec(old(surface).width as int, old(surface).height as int),
                dirty: false,
                ..old(self).view()
            }),
            final(surface).wf(),
            final(surface).width == old(surface).width,
            final(surface).height == old(surface).height,
            (final(surface).pixels@, final(surface).clip) == run((old(surface).pixels@, old(surface).clip),
                calc_scene(CalcView { buttons: layout_spec(old(surface).width as int, old(surface).height as int), ..old(self).view() },
                    old(surface).width as int),
                old(surface).width as int, old(surface).height as int, font.rows@, old(surface).clip),
    {
        let width = surface.width as i32;
        let height = surface.height as i32;
        self.layout(width, height);
        let ops = self.scene(width);
        paint(surface, font, &ops);
        self.dirty = false;
    }
}

// ---------------------------------------------------------------------
// Laws of the sign key.
// ---------------------------------------------------------------------

/// Text as typed: no white space, and a minus sign, if any, only in front.
pub open spec fn typed_entry(e: Seq<char>) -> bool {
    &&& forall|i: int| 0 <= i < e.len() ==> !crate::text::is_space(#[trigger] e[i])
    &&& forall|i: int| 1 <= i < e.len() ==> #[trigger] e[i] != '-'
}

proof fn lemma_trimmed_plain(s: Seq<char>)
    requires
        forall|i: int| 0 <= i < s.len() ==> !crate::text::is_space(#[trigger] s[i]),
    ensures
        trimmed(s) == s,
{
    if s.len() > 0 {
        assert(!crate::text::is_space(s[0]));
        assert(!crate::text::is_space(s[s.len() - 1]));
        assert(s.subrange(0, s.len() as int) =~= s);
    }
}

/// The value of an entry with a minus put in front is the negated value of
/// the entry, for an entry that does not start with a minus itself.
proof fn lemma_value_with_minus(e: Seq<char>)
    requires
        typed_entry(e),
        !(e.len() > 0 && e[0] == '-'),
    ensures
        value_spec(seq!['-'] + e) == wrapping_sub(0, value_spec(e)),
{
    let m = seq!['-'] + e;
    lemma_trimmed_plain(e);
    assert forall|i: int| 0 <= i < m.len() implies !crate::text::is_space(#[trigger] m[i]) by {
        if i > 0 {
            assert(m[i] == e[i - 1]);
        }
    }
    lemma_trimmed_plain(m);
    assert(dash_end(e, 0) == 0);
    assert(dash_end(m, 1) == 1);
    assert(dash_end(m, 0) == 1);
    assert(m.skip(1) =~= e);
    assert(e.skip(0) =~= e);
}

/// The sign key negates the value being typed: on text as typed, the new
/// entry's value is the old one's, negated (with the wrap of the fixed
/// range, where the most negative value stays as it is).
proof fn lemma_press_negate(c: CalcView)
    ensures
        press_spec(c, Command::Negate).entry == negated(c.entry),
{
}

proof fn lemma_negated_value(e: Seq<char>)
    requires
        typed_entry(e),
    ensures
        value_spec(negated(e)) == wrapping_sub(0, value_spec(e)),
{
    if e.len() > 0 && e[0] == '-' {
        let rest = e.skip(1);
        assert forall|i: int| 0 <= i < rest.len() implies !crate::text::is_space(#[trigger] rest[i]) by {
            assert(rest[i] == e[i + 1]);
        }
        assert forall|i: int| 1 <= i < rest.len() implies #[trigger] rest[i] != '-' by {
            assert(rest[i] == e[i + 1]);
        }
        if rest.len() > 0 {
            assert(rest[0] == e[1]);
        }
        lemma_value_with_minus(rest);
        assert(seq!['-'] + rest =~= e);
        let v = value_spec(rest);
        assert(wrapping_sub(0, wrapping_sub(0, v)) == v);
    } else if e != "0"@ {
        lemma_value_with_minus(e);
    } else {
        lemma_zero_value();
    }
}

proof fn lemma_zero_value()
    ensures
        value_spec("0"@) == 0,
{
    let e = "0"@;
    reveal_strlit("0");
    lemma_trimmed_plain(e);
    assert(dash_end(e, 0) == 0);
    assert(e.skip(0) =~= e);
    assert(dot_from(e, 1) == 1);
    assert(dot_from(e, 0) == 1);
    assert(e.take(1) =~= e);
    assert(e.drop_last() =~= Seq::<char>::empty());
    assert(e.last() == '0');
    assert(('0' as u32) == 48u32);
    assert(digit_value('0') == 0);
    assert(digits_value(e.drop_last()) == 0);
    assert(digits_value(e) == digits_value(e.drop_last()) * 10 + digit_value(e.last()));
    assert(digits_value(e) == 0);
}

proof fn lemma_negated_twice(e: Seq<char>)
    requires
        typed_entry(e),
        e != "0"@,
        e != "-0"@,
    ensures
        negated(negated(e)) == e,
{
    reveal_strlit("0");
    reveal_strlit("-0");
    if e.len() > 0 && e[0] == '-' {
        let rest = e.skip(1);
        if rest =~= "0"@ {
            assert(rest.len() == 1 && e[1] == rest[0]);
            assert(e =~= "-0"@);
        }
        if rest.len() > 0 {
            assert(rest[0] == e[1]);
        }
        assert(seq!['-'] + rest =~= e);
    } else {
        let m = seq!['-'] + e;
        assert(m.skip(1) =~= e);
    }
}

/// The sign key negates the value being typed: on text as typed, the new
/// entry's value is the old one's, negated (with the wrap of the fixed
/// range, where the most negative value stays as it is).
pub proof fn law_negate_flips_sign(c: CalcView)
    requires
        typed_entry(c.entry),
    ensures
        value_spec(press_spec(c, Command::Negate).entry) == wrapping_sub(0, value_spec(c.entry)),
{
    lemma_press_negate(c);
    lemma_negated_value(c.entry);
}

/// Pressing the sign key twice gives back the text that was typed, unless
/// the text is a zero that the first press leaves alone or produces. Text
/// as typed has a minus, if any, only in front.
pub proof fn law_negate_twice(c: CalcView)
    requires
        typed_entry(c.entry),
        c.entry != "0"@,
        c.entry != "-0"@,
    ensures
        press_spec(press_spec(c, Command::Negate), Command::Negate).entry == c.entry,
{
    lemma_press_negate(c);
    lemma_press_negate(press_spec(c, Command::Negate));
    lemma_negated_twice(c.entry);
}

} // verus!
