//! hsh — the HALCYON shell.
//!
//! A line beginning with `(` is handed to ORACLE as Lisp. Otherwise the first
//! word is looked up as a builtin command. Commands that need the machine
//! (its clock, memory, buses, speaker, power) come back as requests for the
//! caller to carry out; the lines they print are made here from what the
//! caller read.

use vstd::prelude::*;

verus! {

use vstd::utf8::{valid_utf8, decode_utf8, encode_utf8};
use crate::text::{chars_of, dec_str, is_space, is_space_char, push_dec, push_str, string_of, trimmed, trim, utf8};
use crate::fs::{FileSystem, FileView, norm_path, root_path, bytes_of, same_text};
use crate::gfx::palette::{Color, AMBER, CYAN, CYAN_DIM, ERROR, OK, TEXT, TEXT_BRIGHT, TEXT_DIM, TEXT_FAINT, VIOLET, WARN};
use crate::drivers::speaker::{Step, error_tone};
use crate::oracle::eval::{Interpreter, texts};
use crate::oracle::value::{Datum, Value, render, lookup, visible};
use crate::apps::editor::text_lines;

#[derive(Clone)]
pub struct Line {
    pub text: String,
    pub color: Color,
}

/// A line as plain values.
pub type LineView = (Seq<char>, Color);

pub open spec fn line_view(l: Line) -> LineView {
    (l.text@, l.color)
}

pub open spec fn lines_view(v: Seq<Line>) -> Seq<LineView> {
    v.map_values(|l: Line| line_view(l))
}

pub proof fn lemma_lines_push(v: Seq<Line>, l: Line)
    ensures
        lines_view(v.push(l)) == lines_view(v).push(line_view(l)),
{
    assert(lines_view(v.push(l)) =~= lines_view(v).push(line_view(l)));
}

impl Line {
    pub fn new(text: &str, color: Color) -> (l: Line)
        ensures
            line_view(l) == (text@, color),
    {
        Line { text: crate::text::to_string(text), color }
    }

    pub fn owned(text: Vec<char>, color: Color) -> (l: Line)
        ensures
            line_view(l) == (text@, color),
    {
        Line { text: string_of(text.as_slice()), color }
    }
}

/// What the shell wants the surrounding application to do.
pub struct ShellEffects {
    pub clear: bool,
    pub launch: Option<String>,
    pub close: bool,
    /// Tones to play on the speaker.
    pub sound: Vec<Step>,
}

impl ShellEffects {
    pub fn new() -> (e: ShellEffects)
        ensures
            !e.clear && e.launch is None && !e.close && e.sound@.len() == 0,
    {
        ShellEffects { clear: false, launch: None, close: false, sound: Vec::new() }
    }
}

/// Work only the machine can do, asked of the caller.
pub enum Request {
    /// Read the memory counters, then show `memory_lines`.
    Memory,
    /// Take the scheduler's snapshot, then show `process_lines`.
    Processes,
    /// Read the timer, then show `uptime_lines`.
    Uptime,
    /// Read the real-time clock, then show `date_lines`.
    Date,
    /// Identify the processor, then show `cpu_lines`.
    Cpu,
    /// Walk the PCI bus, then show `pci_lines`.
    Pci,
    /// Sound the speaker at `frequency` for the duration capped at two
    /// seconds, and show `beep_lines`.
    Beep { frequency: u32, duration: u64 },
    /// Play a tone through the sound card, then show `audio_lines`.
    Audio { frequency: u32, duration: u32 },
    /// Beep, then restart the machine.
    Reboot,
    /// Beep, then shut the machine down; show `poweroff_lines` if it is
    /// still running.
    PowerOff,
    /// Put the question to ORACLE's persona (`persona::respond`, with the
    /// shell's nonce), then show `ask_lines`.
    Ask(String),
}

/// What one line of input comes to.
pub enum Outcome {
    Lines(Vec<Line>),
    Machine(Request),
}

pub struct Shell {
    pub interpreter: Interpreter,
    pub cwd: String,
    pub nonce: u64,
}

// ---------------------------------------------------------------------
// Reading a command line.
// ---------------------------------------------------------------------

/// The first white-space character at or after `i`, or the length.
pub open spec fn space_from(t: Seq<char>, i: int) -> int
    decreases t.len() - i,
{
    if i < 0 || i >= t.len() || is_space(t[i]) { i } else { space_from(t, i + 1) }
}

/// The first character that is not white space at or after `i`.
pub open spec fn word_from(t: Seq<char>, i: int) -> int
    decreases t.len() - i,
{
    if i < 0 || i >= t.len() || !is_space(t[i]) { i } else { word_from(t, i + 1) }
}

/// The command word: everything before the first white space.
pub open spec fn command_word(t: Seq<char>) -> Seq<char> {
    t.take(space_from(t, 0))
}

/// Everything after the first white space, trimmed.
pub open spec fn rest_text(t: Seq<char>) -> Seq<char> {
    let k = space_from(t, 0);
    if k < t.len() { trimmed(t.skip(k + 1)) } else { Seq::empty() }
}

/// The first two white-space separated words of `s`, where present.
pub open spec fn first_word(s: Seq<char>) -> Option<Seq<char>> {
    let a = word_from(s, 0);
    if a >= s.len() { None } else { Some(s.subrange(a, space_from(s, a))) }
}

pub open spec fn second_word(s: Seq<char>) -> Option<Seq<char>> {
    let a = word_from(s, 0);
    if a >= s.len() {
        None
    } else {
        let b = word_from(s, space_from(s, a));
        if b >= s.len() { None } else { Some(s.subrange(b, space_from(s, b))) }
    }
}

pub open spec fn is_digit(c: char) -> bool {
    '0' <= c <= '9'
}

pub open spec fn digits_value(s: Seq<char>) -> int
    decreases s.len(),
{
    if s.len() == 0 { 0 } else { digits_value(s.drop_last()) * 10 + ((s.last() as u32) as int - 48) }
}

/// What an unsigned parse gives: an optional `+`, at least one digit, and
/// no more than `max`.
pub open spec fn unsigned_value(s: Seq<char>, max: int) -> Option<int> {
    let d = unsigned_digits(s);
    if d.len() > 0 && all_digits(d) && digits_value(d) <= max {
        Some(digits_value(d))
    } else {
        None
    }
}

/// The digits of an unsigned number: the text after an optional `+`.
pub open spec fn unsigned_digits(s: Seq<char>) -> Seq<char> {
    if s.len() > 0 && s[0] == '+' { s.skip(1) } else { s }
}

pub open spec fn all_digits(d: Seq<char>) -> bool {
    forall|i: int| 0 <= i < d.len() ==> is_digit(#[trigger] d[i])
}

/// A number argument, or the default.
pub open spec fn number_or(word: Option<Seq<char>>, max: int, default: int) -> int {
    match word {
        Some(w) => match unsigned_value(w, max) {
            Some(v) => v,
            None => default,
        },
        None => default,
    }
}

// ---------------------------------------------------------------------
// Fixed text.
// ---------------------------------------------------------------------

/// `name` padded with spaces to `width` characters.
pub open spec fn padded(name: Seq<char>, width: nat) -> Seq<char> {
    if name.len() >= width { name } else { name + Seq::new((width - name.len()) as nat, |i: int| ' ') }
}

pub open spec fn command_table() -> Seq<(Seq<char>, Seq<char>)> {
    seq![
        ("help"@, "this list"@),
        ("ask <question>"@, "put a question to ORACLE"@),
        ("ls [path]"@, "list files"@),
        ("cat <file>"@, "print a file"@),
        ("write <file> <text>"@, "create or overwrite a file"@),
        ("rm <file>"@, "delete a file"@),
        ("echo <text>"@, "print a line"@),
        ("mem"@, "memory statistics"@),
        ("ps"@, "running threads"@),
        ("uptime"@, "time since boot"@),
        ("date"@, "wall clock from the RTC"@),
        ("cpu"@, "processor identification"@),
        ("pci"@, "enumerate the PCI bus"@),
        ("beep [freq] [ms]"@, "the PC speaker"@),
        ("audio [freq] [ms]"@, "the sound card, and a tone through it"@),
        ("clear"@, "clear the scrollback"@),
        ("run <app>"@, "open an application window"@),
        ("reboot"@, "restart the machine"@),
        ("poweroff"@, "shut the machine down"@),
        ("env"@, "names bound in ORACLE"@),
        ("lisp"@, "the ORACLE language reference"@),
        ("exit"@, "close this terminal"@),
    ]
}

/// The lines `help` prints.
pub open spec fn help_lines() -> Seq<LineView> {
    seq![("commands"@, AMBER)]
        + command_table().map_values(|c: (Seq<char>, Seq<char>)| ("  "@ + padded(c.0, 22) + c.1, TEXT))
        + seq![(""@, TEXT), ("anything in (parentheses) is ORACLE Lisp; `lisp` lists what it knows"@, TEXT_DIM)]
}

fn command_entry(i: usize) -> (r: (&'static str, &'static str))
    requires
        i < 22,
    ensures
        (r.0@, r.1@) == command_table()[i as int],
{
    match i {
        0 => ("help", "this list"),
        1 => ("ask <question>", "put a question to ORACLE"),
        2 => ("ls [path]", "list files"),
        3 => ("cat <file>", "print a file"),
        4 => ("write <file> <text>", "create or overwrite a file"),
        5 => ("rm <file>", "delete a file"),
        6 => ("echo <text>", "print a line"),
        7 => ("mem", "memory statistics"),
        8 => ("ps", "running threads"),
        9 => ("uptime", "time since boot"),
        10 => ("date", "wall clock from the RTC"),
        11 => ("cpu", "processor identification"),
        12 => ("pci", "enumerate the PCI bus"),
        13 => ("beep [freq] [ms]", "the PC speaker"),
        14 => ("audio [freq] [ms]", "the sound card, and a tone through it"),
        15 => ("clear", "clear the scrollback"),
        16 => ("run <app>", "open an application window"),
        17 => ("reboot", "restart the machine"),
        18 => ("poweroff", "shut the machine down"),
        19 => ("env", "names bound in ORACLE"),
        20 => ("lisp", "the ORACLE language reference"),
        _ => ("exit", "close this terminal"),
    }
}

/// Append `s` padded with spaces to `width` characters.
pub fn push_padded(out: &mut Vec<char>, s: &str, width: usize)
    ensures
        final(out)@ == old(out)@ + padded(s@, width as nat),
{
    let chars = chars_of(s);
    let ghost start = out@;
    push_str(out, s);
    let mut n = chars.len();
    let ghost base = out@;
    while n < width
        invariant
            chars@ == s@,
            chars@.len() <= n <= width || (n == chars@.len() && n >= width),
            out@ == base + Seq::new((n - chars@.len()) as nat, |i: int| ' '),
        decreases width - n,
    {
        out.push(' ');
        proof {
            assert(out@ =~= base + Seq::new((n + 1 - chars@.len()) as nat, |i: int| ' '));
        }
        n += 1;
    }
    proof {
        if chars@.len() >= width {
            assert(out@ =~= start + s@);
        } else {
            assert(out@ =~= start + padded(s@, width as nat));
        }
    }
}

/// The words of a command line, as `execute` reads them.
fn split_command(t: &[char]) -> (r: (Vec<char>, Vec<char>))
    ensures
        r.0@ == command_word(t@),
        r.1@ == rest_text(t@),
{
    let mut k: usize = 0;
    while k < t.len() && !is_space_char(t[k])
        invariant
            k <= t@.len(),
            space_from(t@, k as int) == space_from(t@, 0),
        decreases t@.len() - k,
    {
        k += 1;
    }
    let mut word: Vec<char> = Vec::new();
    let mut i: usize = 0;
    while i < k
        invariant
            i <= k <= t@.len(),
            word@ == t@.take(i as int),
        decreases k - i,
    {
        word.push(t[i]);
        i += 1;
        proof {
            assert(word@ =~= t@.take(i as int));
        }
    }
    proof {
        assert(space_from(t@, k as int) == k);
    }
    let mut tail: Vec<char> = Vec::new();
    if k < t.len() {
        let mut j: usize = k + 1;
        while j < t.len()
            invariant
                k < j <= t@.len(),
                tail@ == t@.subrange(k + 1, j as int),
            decreases t@.len() - j,
        {
            tail.push(t[j]);
            j += 1;
            proof {
                assert(tail@ =~= t@.subrange(k + 1, j as int));
            }
        }
        proof {
            assert(tail@ =~= t@.skip(k + 1));
        }
        let rest = crate::text::trim_chars(tail.as_slice());
        return (word, rest);
    }
    (word, Vec::new())
}

/// The `[a, b)` range of the word starting at or after `from`.
fn word_bounds(s: &[char], from: usize) -> (r: (usize, usize))
    requires
        from <= s@.len(),
    ensures
        r.0 == word_from(s@, from as int),
        r.0 <= r.1 <= s@.len(),
        r.0 < s@.len() ==> r.1 == space_from(s@, r.0 as int),
        r.0 >= s@.len() ==> r.0 == s@.len(),
{
    let mut a = from;
    while a < s.len() && is_space_char(s[a])
        invariant
            from <= a <= s@.len(),
            word_from(s@, a as int) == word_from(s@, from as int),
        decreases s@.len() - a,
    {
        a += 1;
    }
    let mut b = a;
    while b < s.len() && !is_space_char(s[b])
        invariant
            a <= b <= s@.len(),
            space_from(s@, b as int) == space_from(s@, a as int),
        decreases s@.len() - b,
    {
        b += 1;
    }
    (a, b)
}

/// Parse an unsigned number no greater than `max`.
fn parse_unsigned(s: &[char], from: usize, to: usize, max: u64) -> (r: Option<u64>)
    requires
        from <= to <= s@.len(),
    ensures
        match unsigned_value(s@.subrange(from as int, to as int), max as int) {
            Some(v) => r == Some(v as u64),
            None => r is None,
        },
{
    let ghost w = s@.subrange(from as int, to as int);
    let start = if from < to && s[from] == '+' { from + 1 } else { from };
    let ghost d = if w.len() > 0 && w[0] == '+' { w.skip(1) } else { w };
    proof {
        assert(d =~= s@.subrange(start as int, to as int));
    }
    if start >= to {
        return None;
    }
    let mut acc: u64 = 0;
    let mut i = start;
    proof {
        assert(d.take(0) =~= Seq::<char>::empty());
    }
    while i < to
        invariant
            start <= i <= to <= s@.len(),
            d =~= s@.subrange(start as int, to as int),
            d == unsigned_digits(w),
            w == s@.subrange(from as int, to as int),
            forall|j: int| 0 <= j < i - start ==> is_digit(#[trigger] d[j]),
            acc == digits_value(d.take(i - start)),
            acc <= max,
        decreases to - i,
    {
        let c = s[i];
        let ghost k = i - start;
        if !('0' <= c && c <= '9') {
            proof {
                assert(d[k] == c);
                assert(!is_digit(d[k]));
                assert(!all_digits(d));
                assert(unsigned_value(w, max as int) is None);
            }
            return None;
        }
        let dv = (c as u32 - 48) as u64;
        proof {
            assert(d.take(k + 1).drop_last() =~= d.take(k));
            assert(d.take(k + 1).last() == c);
        }
        if dv > max || acc > (max - dv) / 10 {
            proof {
                if dv <= max {
                    assert(acc * 10 + dv > max) by (nonlinear_arith)
                        requires
                            acc > (max - dv) / 10,
                            0 <= dv <= 9,
                            dv <= max,
                    ;
                }
                assert(d.take(k + 1).drop_last() =~= d.take(k));
                assert(digits_value(d.take(k + 1)) == acc * 10 + dv);
                assert(acc * 10 + dv > max);
                lemma_prefix_bound(d, k + 1);
                assert(!all_digits(d) || digits_value(d) > max);
                assert(unsigned_value(w, max as int) is None);
            }
            return None;
        }
        proof {
            assert(acc * 10 + dv <= max) by (nonlinear_arith)
                requires
                    acc <= (max - dv) / 10,
                    0 <= dv <= 9,
                    dv <= max,
            ;
        }
        acc = acc * 10 + dv;
        i += 1;
    }
    proof {
        assert(d.take(to - start) =~= d);
    }
    Some(acc)
}

/// A digit string spells at least what any of its prefixes spells.
proof fn lemma_prefix_bound(d: Seq<char>, k: int)
    requires
        0 <= k <= d.len(),
    ensures
        all_digits(d) ==> digits_value(d.take(k)) <= digits_value(d),
    decreases d.len() - k,
{
    if k < d.len() {
        lemma_prefix_bound(d, k + 1);
        if all_digits(d) {
            assert(d.take(k + 1).drop_last() =~= d.take(k));
            assert(is_digit(d[k]));
            lemma_digits_nonneg(d.take(k));
        }
    } else {
        assert(d.take(k) =~= d);
    }
}

proof fn lemma_digits_nonneg(d: Seq<char>)
    requires
        all_digits(d),
    ensures
        digits_value(d) >= 0,
    decreases d.len(),
{
    if d.len() > 0 {
        let e = d.drop_last();
        assert forall|i: int| 0 <= i < e.len() implies is_digit(#[trigger] e[i]) by {
            assert(e[i] == d[i]);
        }
        lemma_digits_nonneg(e);
        assert(is_digit(d[d.len() - 1]));
    }
}

/// A number argument, or the default.
fn number_arg(s: &[char], word: (usize, usize), max: u64, default: u64) -> (r: u64)
    requires
        word.0 <= word.1 <= s@.len(),
        default <= max,
    ensures
        word.0 < s@.len() ==> r as int == number_or(Some(s@.subrange(word.0 as int, word.1 as int)), max as int, default as int),
        word.0 >= s@.len() ==> r == default,
{
    if word.0 >= s.len() {
        return default;
    }
    let r = parse_unsigned(s, word.0, word.1, max);
    proof {
        match unsigned_value(s@.subrange(word.0 as int, word.1 as int), max as int) {
            Some(v) => {
                let w = s@.subrange(word.0 as int, word.1 as int);
                let d = unsigned_digits(w);
                lemma_digits_nonneg(d);
                assert(v <= max);
                assert(0 <= v);
            },
            None => {},
        }
    }
    match r {
        Some(v) => v,
        None => default,
    }
}

/// The two numbers of `beep` and `audio`, each with its default.
fn two_numbers(rest: &[char], max_first: u64, first_default: u64, max_second: u64, second_default: u64) -> (r: (u64, u64))
    requires
        first_default <= max_first,
        second_default <= max_second,
    ensures
        r.0 as int == number_or(first_word(rest@), max_first as int, first_default as int),
        r.1 as int == number_or(second_word(rest@), max_second as int, second_default as int),
{
    let w1 = word_bounds(rest, 0);
    let first = number_arg(rest, w1, max_first, first_default);
    let w2 = word_bounds(rest, w1.1);
    let second = if w1.0 >= rest.len() { second_default } else { number_arg(rest, w2, max_second, second_default) };
    proof {
        if w1.0 < rest@.len() {
            assert(w1.1 == space_from(rest@, w1.0 as int));
        }
    }
    (first, second)
}

// ---------------------------------------------------------------------
// The shell.
// ---------------------------------------------------------------------

pub open spec fn is_word(w: Seq<char>, s: Seq<char>) -> bool {
    w == s
}

/// The lines shown for what an evaluation printed and returned.
pub open spec fn evaluation_lines(printed: Seq<Seq<char>>, result: Result<Datum, Seq<char>>) -> Seq<LineView> {
    let out = printed.map_values(|p: Seq<char>| (p, TEXT));
    match result {
        Ok(Datum::Nil) => out,
        Ok(v) => out.push(("=> "@ + render(v), CYAN)),
        Err(e) => out.push(("! "@ + e, ERROR)),
    }
}

pub open spec fn not_a_command(word: Seq<char>) -> Seq<LineView> {
    seq![(word + ": not a command"@, ERROR), ("try `help`, or `ask` followed by a question"@, TEXT_DIM)]
}

/// The lines `cat` prints for `path`.
pub open spec fn cat_lines(files: Map<Seq<char>, FileView>, path: Seq<char>) -> Seq<LineView> {
    if path.len() == 0 {
        seq![("cat: name a file"@, WARN)]
    } else if files.dom().contains(norm_path(path)) {
        let data = files[norm_path(path)].0;
        if valid_utf8(data) {
            text_lines(decode_utf8(data)).map_values(|l: Seq<char>| (l, TEXT))
        } else {
            seq![(path + ": "@ + dec_str(data.len()) + " bytes of binary"@, TEXT_DIM)]
        }
    } else {
        seq![(path + ": no such file"@, ERROR)]
    }
}

impl Shell {
    pub fn new() -> (s: Shell)
        ensures
            s.interpreter.global.wf(),
            s.interpreter.installed(),
            s.interpreter.scopes() == 1,
            s.interpreter.depth == 0,
            s.cwd@ == "/"@,
            s.nonce == 0,
    {
        Shell { interpreter: Interpreter::new(), cwd: crate::text::to_string("/"), nonce: 0 }
    }

    /// The greeting, followed by the message of the day when there is one.
    pub fn banner(&self, fs: &FileSystem) -> (lines: Vec<Line>)
        requires
            fs.wf(),
        ensures
            lines_view(lines@) == seq![
                ("HALCYON shell (hsh)"@, AMBER),
                ("ORACLE is listening. `help` for commands; anything in (parentheses) is evaluated."@, TEXT_DIM),
            ] + (if fs.view().dom().contains(norm_path("/motd.txt"@)) && valid_utf8(fs.view()[norm_path("/motd.txt"@)].0) {
                seq![(""@, TEXT)] + text_lines(decode_utf8(fs.view()[norm_path("/motd.txt"@)].0)).map_values(|l: Seq<char>| (l, CYAN_DIM))
            } else {
                Seq::empty()
            }),
    {
        let mut lines: Vec<Line> = Vec::new();
        lines.push(Line::new("HALCYON shell (hsh)", AMBER));
        lines.push(Line::new("ORACLE is listening. `help` for commands; anything in (parentheses) is evaluated.", TEXT_DIM));
        let ghost head = lines_view(lines@);
        proof {
            assert(head =~= seq![
                ("HALCYON shell (hsh)"@, AMBER),
                ("ORACLE is listening. `help` for commands; anything in (parentheses) is evaluated."@, TEXT_DIM),
            ]);
        }
        match fs.read("/motd.txt") {
            Some(file) => {
                match utf8(file.data.as_slice()) {
                    Some(text) => {
                        lines.push(Line::new("", TEXT));
                        let chars = chars_of(text);
                        let split = crate::apps::editor::split_text_lines(chars.as_slice());
                        let ghost before = lines_view(lines@);
                        let mut i: usize = 0;
                        while i < split.len()
                            invariant
                                i <= split@.len(),
                                lines_view(lines@) == before + split@.take(i as int).map_values(|l: Vec<char>| (l@, CYAN_DIM)),
                            decreases split@.len() - i,
                        {
                            let l = Line::owned(crate::text::copy_chars(split[i].as_slice()), CYAN_DIM);
                            let ghost prev = lines@;
                            lines.push(l);
                            proof {
                                lemma_lines_push(prev, l);
                                assert(split@.take(i + 1).map_values(|l: Vec<char>| (l@, CYAN_DIM))
                                    =~= split@.take(i as int).map_values(|l: Vec<char>| (l@, CYAN_DIM)).push((split@[i as int]@, CYAN_DIM)));
                                assert(lines_view(lines@) =~= before + split@.take(i + 1).map_values(|l: Vec<char>| (l@, CYAN_DIM)));
                            }
                            i += 1;
                        }
                        proof {
                            assert(split@.take(split@.len() as int) =~= split@);
                            assert(split@.map_values(|l: Vec<char>| (l@, CYAN_DIM))
                                =~= split@.map_values(|l: Vec<char>| l@).map_values(|l: Seq<char>| (l, CYAN_DIM)));
                            assert(lines_view(lines@) =~= head + (seq![(""@, TEXT)]
                                + text_lines(decode_utf8(fs.view()[norm_path("/motd.txt"@)].0)).map_values(|l: Seq<char>| (l, CYAN_DIM))));
                        }
                    },
                    None => {
                        proof {
                            assert(lines_view(lines@) =~= head + Seq::<LineView>::empty());
                        }
                    },
                }
            },
            None => {
                proof {
                    assert(lines_view(lines@) =~= head + Seq::<LineView>::empty());
                }
            },
        }
        lines
    }

    /// The lines for what an evaluation printed and returned.
    pub fn evaluation_lines(printed: Vec<String>, result: Result<Value, String>) -> (lines: Vec<Line>)
        ensures
            lines_view(lines@) == evaluation_lines(texts(printed@), crate::oracle::builtins::result_of(result)),
    {
        let mut lines: Vec<Line> = Vec::new();
        let mut i: usize = 0;
        while i < printed.len()
            invariant
                i <= printed@.len(),
                lines_view(lines@) == texts(printed@).take(i as int).map_values(|p: Seq<char>| (p, TEXT)),
            decreases printed@.len() - i,
        {
            let l = Line { text: printed[i].clone(), color: TEXT };
            let ghost prev = lines@;
            lines.push(l);
            proof {
                lemma_lines_push(prev, l);
                assert(lines_view(lines@) =~= texts(printed@).take(i + 1).map_values(|p: Seq<char>| (p, TEXT)));
            }
            i += 1;
        }
        proof {
            assert(texts(printed@).take(printed@.len() as int) =~= texts(printed@));
        }
        let ghost before = lines_view(lines@);
        match result {
            Ok(Value::Nil) => {},
            Ok(value) => {
                let mut text: Vec<char> = Vec::new();
                push_str(&mut text, "=> ");
                let form = value.write_form();
                push_str(&mut text, form.as_str());
                let l = Line::owned(text, CYAN);
                let ghost prev = lines@;
                lines.push(l);
                proof {
                    lemma_lines_push(prev, l);
                    assert(lines_view(lines@) =~= before.push(("=> "@ + render(value.view()), CYAN)));
                }
            },
            Err(error) => {
                let mut text: Vec<char> = Vec::new();
                push_str(&mut text, "! ");
                push_str(&mut text, error.as_str());
                let l = Line::owned(text, ERROR);
                let ghost prev = lines@;
                lines.push(l);
                proof {
                    lemma_lines_push(prev, l);
                    assert(lines_view(lines@) =~= before.push(("! "@ + error@, ERROR)));
                }
            },
        }
        lines
    }

    /// Run `source` through ORACLE: what it printed, then its value or
    /// its error. An error also sounds the error tone.
    fn evaluate(&mut self, source: &str, effects: &mut ShellEffects) -> (lines: Vec<Line>)
        requires
            old(self).interpreter.global.wf(),
            old(self).interpreter.depth == 0,
        ensures
            final(self).interpreter.global.wf(),
            final(self).interpreter.depth == 0,
            final(self).interpreter.scopes() >= old(self).interpreter.scopes(),
            final(self).interpreter.output@.len() == 0,
            final(self).nonce == old(self).nonce,
            final(effects).clear == old(effects).clear,
            final(effects).close == old(effects).close,
            final(effects).launch == old(effects).launch,
    {
        let result = self.interpreter.run(source);
        let printed = self.interpreter.take_output();
        let failed = result.is_err();
        let lines = Self::evaluation_lines(printed, result);
        if failed {
            let tone = error_tone();
            let mut k: usize = 0;
            while k < tone.len()
                invariant
                    k <= tone@.len(),
                    effects.clear == old(effects).clear,
                    effects.close == old(effects).close,
                    effects.launch == old(effects).launch,
                decreases tone@.len() - k,
            {
                effects.sound.push(tone[k]);
                k += 1;
            }
        }
        lines
    }

    /// The command list.
    pub fn help(&self) -> (lines: Vec<Line>)
        ensures
            lines_view(lines@) == help_lines(),
    {
        let mut lines: Vec<Line> = Vec::new();
        lines.push(Line::new("commands", AMBER));
        let mut i: usize = 0;
        let ghost table = command_table().map_values(|c: (Seq<char>, Seq<char>)| ("  "@ + padded(c.0, 22) + c.1, TEXT));
        proof {
            assert(lines_view(lines@) =~= seq![("commands"@, AMBER)] + table.take(0));
        }
        while i < 22
            invariant
                i <= 22,
                table == command_table().map_values(|c: (Seq<char>, Seq<char>)| ("  "@ + padded(c.0, 22) + c.1, TEXT)),
                lines_view(lines@) == seq![("commands"@, AMBER)] + table.take(i as int),
            decreases 22 - i,
        {
            let (name, description) = command_entry(i);
            let mut text: Vec<char> = Vec::new();
            push_str(&mut text, "  ");
            push_padded(&mut text, name, 22);
            push_str(&mut text, description);
            let l = Line::owned(text, TEXT);
            let ghost prev = lines@;
            lines.push(l);
            proof {
                lemma_lines_push(prev, l);
                reveal_strlit("  ");
                assert(lines_view(lines@) =~= seq![("commands"@, AMBER)] + table.take(i + 1));
            }
            i += 1;
        }
        lines.push(Line::new("", TEXT));
        lines.push(Line::new("anything in (parentheses) is ORACLE Lisp; `lisp` lists what it knows", TEXT_DIM));
        proof {
            assert(table.take(22) =~= table);
            assert(lines_view(lines@) =~= help_lines());
        }
        lines
    }

    /// The lines `cat` prints.
    pub fn cat(&self, fs: &FileSystem, path: &str) -> (lines: Vec<Line>)
        requires
            fs.wf(),
        ensures
            lines_view(lines@) == cat_lines(fs.view(), path@),
    {
        let mut lines: Vec<Line> = Vec::new();
        let chars = chars_of(path);
        if chars.len() == 0 {
            lines.push(Line::new("cat: name a file", WARN));
            proof {
                assert(lines_view(lines@) =~= cat_lines(fs.view(), path@));
            }
            return lines;
        }
        match fs.read(path) {
            Some(file) => match utf8(file.data.as_slice()) {
                Some(text) => {
                    let all = chars_of(text);
                    let split = crate::apps::editor::split_text_lines(all.as_slice());
                    let mut i: usize = 0;
                    while i < split.len()
                        invariant
                            i <= split@.len(),
                            lines_view(lines@) == split@.take(i as int).map_values(|l: Vec<char>| (l@, TEXT)),
                        decreases split@.len() - i,
                    {
                        let l = Line::owned(crate::text::copy_chars(split[i].as_slice()), TEXT);
                        let ghost prev = lines@;
                        lines.push(l);
                        proof {
                            lemma_lines_push(prev, l);
                            assert(lines_view(lines@) =~= split@.take(i + 1).map_values(|l: Vec<char>| (l@, TEXT)));
                        }
                        i += 1;
                    }
                    proof {
                        assert(split@.take(split@.len() as int) =~= split@);
                        assert(lines_view(lines@) =~= cat_lines(fs.view(), path@));
                    }
                    lines
                },
                None => {
                    let mut text: Vec<char> = Vec::new();
                    push_str(&mut text, path);
                    push_str(&mut text, ": ");
                    push_dec(&mut text, file.data.len() as u64);
                    push_str(&mut text, " bytes of binary");
                    lines.push(Line::owned(text, TEXT_DIM));
                    proof {
                        assert(lines_view(lines@) =~= cat_lines(fs.view(), path@));
                    }
                    lines
                },
            },
            None => {
                let mut text: Vec<char> = Vec::new();
                push_str(&mut text, path);
                push_str(&mut text, ": no such file");
                lines.push(Line::owned(text, ERROR));
                proof {
                    assert(lines_view(lines@) =~= cat_lines(fs.view(), path@));
                }
                lines
            },
        }
    }
}


/// Does `word` spell `lit`?
fn word_is(word: &[char], lit: &str) -> (r: bool)
    ensures
        r == (word@ == lit@),
{
    let l = chars_of(lit);
    if word.len() != l.len() {
        return false;
    }
    let mut i: usize = 0;
    while i < word.len()
        invariant
            i <= word@.len(),
            word@.len() == l@.len(),
            l@ == lit@,
            forall|j: int| 0 <= j < i ==> word@[j] == l@[j],
        decreases word@.len() - i,
    {
        if word[i] != l[i] {
            return false;
        }
        i += 1;
    }
    proof {
        assert(word@ =~= l@);
    }
    true
}

/// The path and contents `write` reads from the rest of its line: the
/// first word, and everything after the white space that ends it.
pub open spec fn write_parts(r: Seq<char>) -> (Seq<char>, Seq<char>) {
    let k = space_from(r, 0);
    (r.take(k), if k < r.len() { r.skip(k + 1) } else { Seq::empty() })
}

/// What `write` does to the files, and the line it prints.
pub open spec fn write_spec(files: Map<Seq<char>, FileView>, r: Seq<char>) -> (Map<Seq<char>, FileView>, Seq<LineView>) {
    let (path, contents) = write_parts(r);
    let data = encode_utf8(contents).push(10u8);
    if path.len() == 0 {
        (files, seq![("write: write <file> <text>"@, WARN)])
    } else if norm_path(path) == root_path() {
        (files, seq![("write: "@ + "cannot write to the root"@, ERROR)])
    } else {
        (files.insert(norm_path(path), (data, false)),
            seq![("wrote "@ + path + " ("@ + dec_str(data.len()) + " bytes)"@, OK)])
    }
}

/// What `rm` does to the files, and the line it prints.
pub open spec fn remove_spec(files: Map<Seq<char>, FileView>, path: Seq<char>) -> (Map<Seq<char>, FileView>, Seq<LineView>) {
    if path.len() == 0 {
        (files, seq![("rm: name a file"@, WARN)])
    } else if files.dom().contains(norm_path(path)) {
        (files.remove(norm_path(path)), seq![("removed "@ + path, OK)])
    } else {
        (files, seq![("rm: "@ + "no such file"@, ERROR)])
    }
}

/// The commands `execute` knows, in the order it tries them.
#[derive(PartialEq, Eq, Structural)]
pub enum CommandKind {
    Help,
    Ask,
    Ls,
    Cat,
    Write,
    Rm,
    Echo,
    Mem,
    Ps,
    Uptime,
    Date,
    Cpu,
    Pci,
    Beep,
    Audio,
    Lisp,
    Reboot,
    PowerOff,
    Env,
    Clear,
    Exit,
    Run,
    Other,
}

/// Which command a word names.
pub open spec fn command_kind(w: Seq<char>) -> CommandKind {
    if w == "help"@ {
        CommandKind::Help
    } else if w == "ask"@ {
        CommandKind::Ask
    } else if w == "ls"@ {
        CommandKind::Ls
    } else if w == "cat"@ {
        CommandKind::Cat
    } else if w == "write"@ {
        CommandKind::Write
    } else if w == "rm"@ {
        CommandKind::Rm
    } else if w == "echo"@ {
        CommandKind::Echo
    } else if w == "mem"@ {
        CommandKind::Mem
    } else if w == "ps"@ {
        CommandKind::Ps
    } else if w == "uptime"@ {
        CommandKind::Uptime
    } else if w == "date"@ {
        CommandKind::Date
    } else if w == "cpu"@ {
        CommandKind::Cpu
    } else if w == "pci"@ {
        CommandKind::Pci
    } else if w == "beep"@ {
        CommandKind::Beep
    } else if w == "audio"@ {
        CommandKind::Audio
    } else if w == "lisp"@ {
        CommandKind::Lisp
    } else if w == "reboot"@ {
        CommandKind::Reboot
    } else if w == "poweroff"@ || w == "shutdown"@ || w == "halt"@ {
        CommandKind::PowerOff
    } else if w == "env"@ {
        CommandKind::Env
    } else if w == "clear"@ {
        CommandKind::Clear
    } else if w == "exit"@ || w == "quit"@ {
        CommandKind::Exit
    } else if w == "run"@ {
        CommandKind::Run
    } else {
        CommandKind::Other
    }
}

/// Where the command word of `t` ends, and the word.
pub open spec fn routed(t: Seq<char>) -> bool {
    t.len() > 0 && !(t[0] == '(' || t[0] == '\'')
}

impl Shell {
    /// `write <file> <text>`: the text and a newline become the file.
    pub fn write(&self, fs: &mut FileSystem, rest: &[char]) -> (lines: Vec<Line>)
        requires
            old(fs).wf(),
        ensures
            final(fs).wf(),
            (final(fs).view(), lines_view(lines@)) == write_spec(old(fs).view(), rest@),
    {
        let (path, contents) = split_after_word(rest);
        let mut lines: Vec<Line> = Vec::new();
        if path.len() == 0 {
            lines.push(Line::new("write: write <file> <text>", WARN));
            proof {
                assert(lines_view(lines@) =~= seq![("write: write <file> <text>"@, WARN)]);
            }
            return lines;
        }
        let text = string_of(contents.as_slice());
        let bytes = text.as_str().as_bytes();
        let mut data: Vec<u8> = Vec::new();
        let mut i: usize = 0;
        while i < bytes.len()
            invariant
                i <= bytes@.len(),
                data@ == bytes@.take(i as int),
            decreases bytes@.len() - i,
        {
            data.push(bytes[i]);
            i += 1;
            proof {
                assert(data@ =~= bytes@.take(i as int));
            }
        }
        data.push(10u8);
        proof {
            assert(bytes@.take(bytes@.len() as int) =~= bytes@);
        }
        let length = data.len();
        let path_text = string_of(path.as_slice());
        match fs.write(path_text.as_str(), data) {
            Ok(()) => {
                let mut out: Vec<char> = Vec::new();
                push_str(&mut out, "wrote ");
                push_str(&mut out, path_text.as_str());
                push_str(&mut out, " (");
                push_dec(&mut out, length as u64);
                push_str(&mut out, " bytes)");
                lines.push(Line::owned(out, OK));
            },
            Err(error) => {
                let mut out: Vec<char> = Vec::new();
                push_str(&mut out, "write: ");
                push_str(&mut out, error);
                lines.push(Line::owned(out, ERROR));
            },
        }
        proof {
            assert(lines_view(lines@) =~= write_spec(old(fs).view(), rest@).1);
        }
        lines
    }

    /// `rm <file>`.
    pub fn remove(&self, fs: &mut FileSystem, path: &[char]) -> (lines: Vec<Line>)
        requires
            old(fs).wf(),
        ensures
            final(fs).wf(),
            (final(fs).view(), lines_view(lines@)) == remove_spec(old(fs).view(), path@),
    {
        let mut lines: Vec<Line> = Vec::new();
        if path.len() == 0 {
            lines.push(Line::new("rm: name a file", WARN));
            proof {
                assert(lines_view(lines@) =~= seq![("rm: name a file"@, WARN)]);
            }
            return lines;
        }
        let text = string_of(path);
        match fs.remove(text.as_str()) {
            Ok(()) => {
                let mut out: Vec<char> = Vec::new();
                push_str(&mut out, "removed ");
                push_str(&mut out, text.as_str());
                lines.push(Line::owned(out, OK));
            },
            Err(error) => {
                let mut out: Vec<char> = Vec::new();
                push_str(&mut out, "rm: ");
                push_str(&mut out, error);
                lines.push(Line::owned(out, ERROR));
            },
        }
        proof {
            assert(lines_view(lines@) =~= remove_spec(old(fs).view(), path@).1);
            if !old(fs).view().dom().contains(norm_path(path@)) {
                assert(old(fs).view().remove(norm_path(path@)) =~= old(fs).view());
            }
        }
        lines
    }

    /// Run one line of input: the lines it printed, or what it needs of
    /// the machine.
    pub fn execute(&mut self, input: &str, effects: &mut ShellEffects, fs: &mut FileSystem) -> (out: Outcome)
        requires
            old(self).interpreter.global.wf(),
            old(self).interpreter.depth == 0,
            old(fs).wf(),
        ensures
            final(self).interpreter.global.wf(),
            final(self).interpreter.depth == 0,
            final(self).interpreter.scopes() >= old(self).interpreter.scopes(),
            final(fs).wf(),
            ({
                let t = trimmed(input@);
                let w = command_word(t);
                let r = rest_text(t);
                &&& t.len() == 0 ==> (out matches Outcome::Lines(v) && v@.len() == 0)
                    && final(self).nonce == old(self).nonce && final(fs).view() == old(fs).view()
                &&& t.len() > 0 ==> final(self).nonce == vstd::wrapping::u64_specs::wrapping_add(old(self).nonce, 1)
                &&& t.len() > 0 && !routed(t) ==> out is Lines && final(fs).view() == old(fs).view()
                &&& routed(t) && command_kind(w) == CommandKind::Echo ==> (out matches Outcome::Lines(v) && lines_view(v@) == seq![(r, TEXT)])
                &&& routed(t) && command_kind(w) == CommandKind::Clear ==> (out matches Outcome::Lines(v) && v@.len() == 0) && final(effects).clear
                &&& routed(t) && command_kind(w) == CommandKind::Exit ==> (out matches Outcome::Lines(v) && v@.len() == 0) && final(effects).close
                &&& routed(t) && command_kind(w) == CommandKind::Run && r.len() == 0 ==> (out matches Outcome::Lines(v) && lines_view(v@) ==
                    seq![("run: name an application (try: monitor, about, editor, files, paint, snake)"@, WARN)])
                &&& routed(t) && command_kind(w) == CommandKind::Run && r.len() > 0 ==> (out matches Outcome::Lines(v) && lines_view(v@) ==
                    seq![("opening "@ + r, TEXT_DIM)]) && (final(effects).launch matches Some(n) && n@ == r)
                &&& routed(t) && command_kind(w) == CommandKind::Help ==> (out matches Outcome::Lines(v) && lines_view(v@) == help_lines())
                &&& routed(t) && command_kind(w) == CommandKind::Ls ==> (out matches Outcome::Lines(v) && lines_view(v@) == ls_lines(
                        if r.len() == 0 {
                            old(fs).entries().map_values(|e: (Seq<char>, FileView)| crate::fs::row(e))
                        } else {
                            crate::fs::listing(old(fs).entries(), crate::fs::dir_prefix(r))
                        },
                        bytes_of(old(fs).entries())))
                    && final(fs).view() == old(fs).view()
                &&& routed(t) && command_kind(w) == CommandKind::Cat ==> (out matches Outcome::Lines(v) && lines_view(v@) == cat_lines(old(fs).view(), r))
                    && final(fs).view() == old(fs).view()
                &&& routed(t) && command_kind(w) == CommandKind::Write ==> (out matches Outcome::Lines(v)
                    && (final(fs).view(), lines_view(v@)) == write_spec(old(fs).view(), r))
                &&& routed(t) && command_kind(w) == CommandKind::Rm ==> (out matches Outcome::Lines(v)
                    && (final(fs).view(), lines_view(v@)) == remove_spec(old(fs).view(), r))
                &&& routed(t) && command_kind(w) == CommandKind::Mem ==> (out matches Outcome::Machine(Request::Memory))
                &&& routed(t) && command_kind(w) == CommandKind::Ps ==> (out matches Outcome::Machine(Request::Processes))
                &&& routed(t) && command_kind(w) == CommandKind::Uptime ==> (out matches Outcome::Machine(Request::Uptime))
                &&& routed(t) && command_kind(w) == CommandKind::Date ==> (out matches Outcome::Machine(Request::Date))
                &&& routed(t) && command_kind(w) == CommandKind::Cpu ==> (out matches Outcome::Machine(Request::Cpu))
                &&& routed(t) && command_kind(w) == CommandKind::Pci ==> (out matches Outcome::Machine(Request::Pci))
                &&& routed(t) && command_kind(w) == CommandKind::Reboot ==> (out matches Outcome::Machine(Request::Reboot))
                &&& routed(t) && command_kind(w) == CommandKind::PowerOff ==> (out matches Outcome::Machine(Request::PowerOff))
                &&& routed(t) && command_kind(w) == CommandKind::Beep ==> (out matches Outcome::Machine(Request::Beep { frequency, duration })
                    && frequency == number_or(first_word(r), u32::MAX as int, 880)
                    && duration == number_or(second_word(r), u64::MAX as int, 120))
                &&& routed(t) && command_kind(w) == CommandKind::Audio ==> (out matches Outcome::Machine(Request::Audio { frequency, duration })
                    && frequency == number_or(first_word(r), u32::MAX as int, 440)
                    && duration == number_or(second_word(r), u32::MAX as int, 700))
                &&& routed(t) && command_kind(w) == CommandKind::Ask && r.len() == 0 ==> (out matches Outcome::Lines(v) && lines_view(v@) ==
                    seq![("ask what? try: ask what is halcyon"@, WARN)])
                &&& routed(t) && command_kind(w) == CommandKind::Ask && r.len() > 0 ==> (out matches Outcome::Machine(Request::Ask(q)) && q@ == r)
                &&& routed(t) && !known_command(w) && lookup(old(self).interpreter.global.view(), 0, w) is None ==>
                    (out matches Outcome::Lines(v) && lines_view(v@) == not_a_command(w))
                    && final(effects).sound@ == old(effects).sound@ + seq![Step::Tone(220, 90)]
            }),
    {
        let t = trim(input);
        let tc = chars_of(t);
        if tc.len() == 0 {
            return Outcome::Lines(Vec::new());
        }
        self.nonce = self.nonce.wrapping_add(1);
        if tc[0] == '(' || tc[0] == '\'' {
            return Outcome::Lines(self.evaluate(t, effects));
        }
        let (word, rest) = split_command(tc.as_slice());
        proof {
            reveal_strlit("echo");
        }
        if word_is(word.as_slice(), "help") {
            return Outcome::Lines(self.help());
        }
        if word_is(word.as_slice(), "ask") {
            if rest.len() == 0 {
                let mut v: Vec<Line> = Vec::new();
                v.push(Line::new("ask what? try: ask what is halcyon", WARN));
                proof {
                    assert(lines_view(v@) =~= seq![("ask what? try: ask what is halcyon"@, WARN)]);
                }
                return Outcome::Lines(v);
            }
            return Outcome::Machine(Request::Ask(string_of(rest.as_slice())));
        }
        if word_is(word.as_slice(), "ls") {
            return Outcome::Lines(self.list(fs, rest.as_slice()));
        }
        if word_is(word.as_slice(), "cat") {
            let path = string_of(rest.as_slice());
            return Outcome::Lines(self.cat(fs, path.as_str()));
        }
        if word_is(word.as_slice(), "write") {
            return Outcome::Lines(self.write(fs, rest.as_slice()));
        }
        if word_is(word.as_slice(), "rm") {
            return Outcome::Lines(self.remove(fs, rest.as_slice()));
        }
        if word_is(word.as_slice(), "echo") {
            let mut v: Vec<Line> = Vec::new();
            let l = Line::owned(rest, TEXT);
            let ghost e = v@;
            v.push(l);
            proof {
                lemma_lines_push(e, l);
                assert(lines_view(e) =~= Seq::<LineView>::empty());
                assert(lines_view(v@) =~= seq![line_view(l)]);
            }
            return Outcome::Lines(v);
        }
        if word_is(word.as_slice(), "mem") {
            return Outcome::Machine(Request::Memory);
        }
        if word_is(word.as_slice(), "ps") {
            return Outcome::Machine(Request::Processes);
        }
        if word_is(word.as_slice(), "uptime") {
            return Outcome::Machine(Request::Uptime);
        }
        if word_is(word.as_slice(), "date") {
            return Outcome::Machine(Request::Date);
        }
        if word_is(word.as_slice(), "cpu") {
            return Outcome::Machine(Request::Cpu);
        }
        if word_is(word.as_slice(), "pci") {
            return Outcome::Machine(Request::Pci);
        }
        if word_is(word.as_slice(), "beep") {
            let (frequency, duration) = two_numbers(rest.as_slice(), 0xFFFF_FFFF, 880, 0xFFFF_FFFF_FFFF_FFFF, 120);
            return Outcome::Machine(Request::Beep { frequency: frequency as u32, duration });
        }
        if word_is(word.as_slice(), "audio") {
            let (frequency, duration) = two_numbers(rest.as_slice(), 0xFFFF_FFFF, 440, 0xFFFF_FFFF, 700);
            return Outcome::Machine(Request::Audio { frequency: frequency as u32, duration: duration as u32 });
        }
        if word_is(word.as_slice(), "lisp") {
            return Outcome::Lines(self.lisp_reference());
        }
        if word_is(word.as_slice(), "reboot") {
            return Outcome::Machine(Request::Reboot);
        }
        if word_is(word.as_slice(), "poweroff") || word_is(word.as_slice(), "shutdown") || word_is(word.as_slice(), "halt") {
            return Outcome::Machine(Request::PowerOff);
        }
        if word_is(word.as_slice(), "env") {
            return Outcome::Lines(self.environment());
        }
        if word_is(word.as_slice(), "clear") {
            effects.clear = true;
            return Outcome::Lines(Vec::new());
        }
        if word_is(word.as_slice(), "exit") || word_is(word.as_slice(), "quit") {
            effects.close = true;
            return Outcome::Lines(Vec::new());
        }
        if word_is(word.as_slice(), "run") {
            let mut v: Vec<Line> = Vec::new();
            if rest.len() == 0 {
                v.push(Line::new("run: name an application (try: monitor, about, editor, files, paint, snake)", WARN));
                proof {
                    assert(lines_view(v@) =~= seq![("run: name an application (try: monitor, about, editor, files, paint, snake)"@, WARN)]);
                }
                return Outcome::Lines(v);
            }
            effects.launch = Some(string_of(rest.as_slice()));
            let mut text: Vec<char> = Vec::new();
            push_str(&mut text, "opening ");
            let ghost before = text@;
            let mut i: usize = 0;
            while i < rest.len()
                invariant
                    i <= rest@.len(),
                    text@ == before + rest@.take(i as int),
                decreases rest@.len() - i,
            {
                text.push(rest[i]);
                i += 1;
                proof {
                    assert(text@ =~= before + rest@.take(i as int));
                }
            }
            proof {
                assert(rest@.take(rest@.len() as int) =~= rest@);
            }
            let l = Line::owned(text, TEXT_DIM);
            let ghost e = v@;
            v.push(l);
            proof {
                lemma_lines_push(e, l);
                assert(lines_view(v@) =~= seq![line_view(l)]);
            }
            return Outcome::Lines(v);
        }
        // Bare symbols that happen to be ORACLE names are convenient to
        // evaluate directly.
        let name = string_of(word.as_slice());
        proof {
            self.interpreter.global.lemma_wf();
        }
        if self.interpreter.global.get(0, name.as_str()).is_some() {
            let mut source: Vec<char> = Vec::new();
            source.push('(');
            let mut i: usize = 0;
            while i < tc.len()
                invariant
                    i <= tc@.len(),
                decreases tc@.len() - i,
            {
                source.push(tc[i]);
                i += 1;
            }
            source.push(')');
            let text = string_of(source.as_slice());
            return Outcome::Lines(self.evaluate(text.as_str(), effects));
        }
        let tone = error_tone();
        let mut k: usize = 0;
        let ghost start = effects.sound@;
        while k < tone.len()
            invariant
                k <= tone@.len(),
                effects.sound@ == start + tone@.take(k as int),
                effects.clear == old(effects).clear,
                effects.close == old(effects).close,
                effects.launch == old(effects).launch,
            decreases tone@.len() - k,
        {
            effects.sound.push(tone[k]);
            k += 1;
            proof {
                assert(effects.sound@ =~= start + tone@.take(k as int));
            }
        }
        proof {
            assert(tone@.take(tone@.len() as int) =~= tone@);
        }
        let mut v: Vec<Line> = Vec::new();
        let mut first: Vec<char> = Vec::new();
        let mut i: usize = 0;
        while i < word.len()
            invariant
                i <= word@.len(),
                first@ == word@.take(i as int),
            decreases word@.len() - i,
        {
            first.push(word[i]);
            i += 1;
            proof {
                assert(first@ =~= word@.take(i as int));
            }
        }
        push_str(&mut first, ": not a command");
        v.push(Line::owned(first, ERROR));
        v.push(Line::new("try `help`, or `ask` followed by a question", TEXT_DIM));
        proof {
            assert(word@.take(word@.len() as int) =~= word@);
            assert(lines_view(v@) =~= not_a_command(word@));
        }
        Outcome::Lines(v)
    }
}


/// The commands `execute` knows by name.
pub open spec fn known_command(w: Seq<char>) -> bool {
    command_kind(w) != CommandKind::Other
}

/// The first word of `r`, and everything after the white space that ends it.
fn split_after_word(r: &[char]) -> (parts: (Vec<char>, Vec<char>))
    ensures
        (parts.0@, parts.1@) == write_parts(r@),
{
    let mut k: usize = 0;
    while k < r.len() && !is_space_char(r[k])
        invariant
            k <= r@.len(),
            space_from(r@, k as int) == space_from(r@, 0),
        decreases r@.len() - k,
    {
        k += 1;
    }
    proof {
        assert(space_from(r@, k as int) == k);
    }
    let mut first: Vec<char> = Vec::new();
    let mut i: usize = 0;
    while i < k
        invariant
            i <= k <= r@.len(),
            first@ == r@.take(i as int),
        decreases k - i,
    {
        first.push(r[i]);
        i += 1;
        proof {
            assert(first@ =~= r@.take(i as int));
        }
    }
    let mut tail: Vec<char> = Vec::new();
    if k < r.len() {
        let mut j: usize = k + 1;
        while j < r.len()
            invariant
                k < j <= r@.len(),
                tail@ == r@.subrange(k + 1, j as int),
            decreases r@.len() - j,
        {
            tail.push(r[j]);
            j += 1;
            proof {
                assert(tail@ =~= r@.subrange(k + 1, j as int));
            }
        }
        proof {
            assert(tail@ =~= r@.skip(k + 1));
        }
    }
    (first, tail)
}


// ---------------------------------------------------------------------
// Listings.
// ---------------------------------------------------------------------

/// `text` right-aligned in `width` characters.
pub open spec fn right_aligned(text: Seq<char>, width: nat) -> Seq<char> {
    if text.len() >= width { text } else { Seq::new((width - text.len()) as nat, |i: int| ' ') + text }
}

pub open spec fn file_line(r: (Seq<char>, nat, bool)) -> LineView {
    ("  "@ + right_aligned(dec_str(r.1), 7) + "  "@ + r.0 + (if r.2 { "  (initrd)"@ } else { ""@ }),
        if r.2 { TEXT_DIM } else { TEXT })
}

/// What `ls` prints for these rows, with the store holding `total` bytes.
pub open spec fn ls_lines(rows: Seq<(Seq<char>, nat, bool)>, total: int) -> Seq<LineView> {
    if rows.len() == 0 {
        seq![("(no files)"@, TEXT_DIM)]
    } else {
        rows.map_values(|r: (Seq<char>, nat, bool)| file_line(r))
            .push(("  "@ + dec_str(rows.len()) + " file(s), "@ + dec_str(total as nat) + " bytes"@, TEXT_FAINT))
    }
}

pub open spec fn rows_total(rows: Seq<(Seq<char>, nat, bool)>) -> int
    decreases rows.len(),
{
    if rows.len() == 0 { 0 } else { rows_total(rows.drop_last()) + rows.last().1 }
}

proof fn lemma_rows_total(e: Seq<(Seq<char>, FileView)>)
    ensures
        rows_total(e.map_values(|x: (Seq<char>, FileView)| crate::fs::row(x))) == bytes_of(e),
    decreases e.len(),
{
    if e.len() > 0 {
        lemma_rows_total(e.drop_last());
        assert(e.map_values(|x: (Seq<char>, FileView)| crate::fs::row(x)).drop_last()
            =~= e.drop_last().map_values(|x: (Seq<char>, FileView)| crate::fs::row(x)));
    }
}

/// Append the decimal digits of `v`.
pub fn push_dec_wide(out: &mut Vec<char>, v: u128)
    ensures
        final(out)@ == old(out)@ + dec_str(v as nat),
    decreases v,
{
    if v >= 10 {
        push_dec_wide(out, v / 10);
    }
    out.push(((v % 10) as u8 + 0x30) as char);
    proof {
        assert(final(out)@ =~= old(out)@ + dec_str(v as nat));
    }
}

/// Append `text` right-aligned in `width` characters.
pub fn push_right(out: &mut Vec<char>, text: &[char], width: usize)
    ensures
        final(out)@ == old(out)@ + right_aligned(text@, width as nat),
{
    let ghost start = out@;
    let mut n = text.len();
    while n < width
        invariant
            text@.len() <= n,
            n <= width || n == text@.len(),
            out@ == start + Seq::new((n - text@.len()) as nat, |i: int| ' '),
        decreases width - n,
    {
        out.push(' ');
        n += 1;
        proof {
            assert(out@ =~= start + Seq::new((n - text@.len()) as nat, |i: int| ' '));
        }
    }
    let ghost mid = out@;
    let mut i: usize = 0;
    while i < text.len()
        invariant
            i <= text@.len(),
            out@ == mid + text@.take(i as int),
        decreases text@.len() - i,
    {
        out.push(text[i]);
        i += 1;
        proof {
            assert(out@ =~= mid + text@.take(i as int));
        }
    }
    proof {
        assert(text@.take(text@.len() as int) =~= text@);
        if text@.len() >= width {
            assert(Seq::new((n - text@.len()) as nat, |i: int| ' ') =~= Seq::<char>::empty());
            assert(out@ =~= start + text@);
        } else {
            assert(out@ =~= start + right_aligned(text@, width as nat));
        }
    }
}

impl Shell {
    /// `ls [path]`: every file, or those under `path`, and a total.
    pub fn list(&self, fs: &FileSystem, path: &[char]) -> (lines: Vec<Line>)
        requires
            fs.wf(),
        ensures
            lines_view(lines@) == ls_lines(
                if path@.len() == 0 {
                    fs.entries().map_values(|e: (Seq<char>, FileView)| crate::fs::row(e))
                } else {
                    crate::fs::listing(fs.entries(), crate::fs::dir_prefix(path@))
                },
                bytes_of(fs.entries())),
    {
        let all = fs.list();
        let ghost all_rows = all@.map_values(|x: (String, usize, bool)| crate::fs::row_view(x));
        let mut total: u128 = 0;
        let mut i: usize = 0;
        proof {
            assert(all_rows.take(0) =~= Seq::<(Seq<char>, nat, bool)>::empty());
        }
        while i < all.len()
            invariant
                i <= all@.len(),
                all_rows == all@.map_values(|x: (String, usize, bool)| crate::fs::row_view(x)),
                total == rows_total(all_rows.take(i as int)),
                total <= i * 0xFFFF_FFFF_FFFF_FFFF,
            decreases all@.len() - i,
        {
            proof {
                assert(all_rows.take(i + 1).drop_last() =~= all_rows.take(i as int));
                assert(all@[i as int].1 <= 0xFFFF_FFFF_FFFF_FFFF);
                assert(i * 0xFFFF_FFFF_FFFF_FFFF + 0xFFFF_FFFF_FFFF_FFFF == (i + 1) * 0xFFFF_FFFF_FFFF_FFFF) by (nonlinear_arith);
                assert((i + 1) * 0xFFFF_FFFF_FFFF_FFFF <= 0xFFFF_FFFF_FFFF_FFFF * 0xFFFF_FFFF_FFFF_FFFF) by (nonlinear_arith)
                    requires
                        i + 1 <= 0xFFFF_FFFF_FFFF_FFFF,
                ;
            }
            total = total + all[i].1 as u128;
            i += 1;
        }
        proof {
            assert(all_rows.take(all@.len() as int) =~= all_rows);
            lemma_rows_total(fs.entries());
        }
        let rows = if path.len() == 0 {
            all
        } else {
            let p = string_of(path);
            fs.list_dir(p.as_str())
        };
        let ghost shown = rows@.map_values(|x: (String, usize, bool)| crate::fs::row_view(x));
        let mut lines: Vec<Line> = Vec::new();
        if rows.len() == 0 {
            lines.push(Line::new("(no files)", TEXT_DIM));
            proof {
                assert(lines_view(lines@) =~= seq![("(no files)"@, TEXT_DIM)]);
            }
            return lines;
        }
        let mut k: usize = 0;
        while k < rows.len()
            invariant
                k <= rows@.len(),
                shown == rows@.map_values(|x: (String, usize, bool)| crate::fs::row_view(x)),
                lines_view(lines@) == shown.take(k as int).map_values(|r: (Seq<char>, nat, bool)| file_line(r)),
            decreases rows@.len() - k,
        {
            let (name, size, initrd) = (&rows[k].0, rows[k].1, rows[k].2);
            let mut text: Vec<char> = Vec::new();
            push_str(&mut text, "  ");
            let mut digits: Vec<char> = Vec::new();
            push_dec(&mut digits, size as u64);
            push_right(&mut text, digits.as_slice(), 7);
            push_str(&mut text, "  ");
            push_str(&mut text, name.as_str());
            if initrd {
                push_str(&mut text, "  (initrd)");
            }
            let l = Line::owned(text, if initrd { TEXT_DIM } else { TEXT });
            let ghost prev = lines@;
            lines.push(l);
            proof {
                reveal_strlit("");
                lemma_lines_push(prev, l);
                assert(shown.take(k + 1).map_values(|r: (Seq<char>, nat, bool)| file_line(r))
                    =~= shown.take(k as int).map_values(|r: (Seq<char>, nat, bool)| file_line(r)).push(file_line(shown[k as int])));
                assert(text@ =~= file_line(shown[k as int]).0) by {
                    if !initrd {
                        assert(text@ =~= "  "@ + right_aligned(dec_str(size as nat), 7) + "  "@ + name@ + ""@);
                    }
                }
            }
            k += 1;
        }
        let mut summary: Vec<char> = Vec::new();
        push_str(&mut summary, "  ");
        push_dec(&mut summary, rows.len() as u64);
        push_str(&mut summary, " file(s), ");
        push_dec_wide(&mut summary, total);
        push_str(&mut summary, " bytes");
        let l = Line::owned(summary, TEXT_FAINT);
        let ghost prev = lines@;
        lines.push(l);
        proof {
            lemma_lines_push(prev, l);
            assert(shown.take(rows@.len() as int) =~= shown);
            if path@.len() == 0 {
                assert(shown == fs.entries().map_values(|e: (Seq<char>, FileView)| crate::fs::row(e)));
            }
        }
        lines
    }
}


// ---------------------------------------------------------------------
// The language reference and the environment.
// ---------------------------------------------------------------------

pub open spec fn examples() -> Seq<Seq<char>> {
    seq![
        "(+ 1 2 3)"@,
        "(define (square x) (* x x))"@,
        "(map square (range 1 8))"@,
        "(fold + 0 (range 101))"@,
        "(filter (lambda (n) (= 0 (mod n 3))) (range 20))"@,
        "(print (str \"this machine has been up \" (uptime) \" ms\"))"@,
    ]
}

fn example(i: usize) -> (r: &'static str)
    requires
        i < 6,
    ensures
        r@ == examples()[i as int],
{
    match i {
        0 => "(+ 1 2 3)",
        1 => "(define (square x) (* x x))",
        2 => "(map square (range 1 8))",
        3 => "(fold + 0 (range 101))",
        4 => "(filter (lambda (n) (= 0 (mod n 3))) (range 20))",
        _ => "(print (str \"this machine has been up \" (uptime) \" ms\"))",
    }
}

/// The lines `lisp` prints.
pub open spec fn lisp_lines() -> Seq<LineView> {
    seq![
        ("ORACLE — a small Lisp"@, AMBER),
        (""@, TEXT),
        ("special forms"@, CYAN),
        ("  quote if define set! lambda let begin while cond and or"@, TEXT),
        (""@, TEXT),
        ("builtins"@, CYAN),
    ]
        + crate::oracle::builtins::catalogue().map_values(|c: (Seq<char>, Seq<char>)| ("  "@ + padded(c.0, 22) + c.1, TEXT))
        + seq![(""@, TEXT), ("examples"@, CYAN)]
        + examples().map_values(|e: Seq<char>| ("  "@ + e, TEXT_DIM))
}

pub open spec fn byte_len(s: Seq<char>) -> int {
    encode_utf8(s).len() as int
}

/// The names run into rows of at most seventy bytes: the finished rows,
/// and the row being filled.
pub open spec fn name_rows(names: Seq<Seq<char>>) -> (Seq<Seq<char>>, Seq<char>)
    decreases names.len(),
{
    if names.len() == 0 {
        (Seq::empty(), Seq::empty())
    } else {
        let (rows, row) = name_rows(names.drop_last());
        let name = names.last();
        let (rows2, row2) = if byte_len(row) + byte_len(name) + 2 > 70 { (rows.push(row), Seq::<char>::empty()) } else { (rows, row) };
        let row3 = if row2.len() > 0 { row2 + "  "@ } else { row2 };
        (rows2, row3 + name)
    }
}

/// The lines `env` prints for these names.
pub open spec fn env_lines(names: Seq<Seq<char>>) -> Seq<LineView> {
    let (rows, row) = name_rows(names);
    let all = if row.len() > 0 { rows.push(row) } else { rows };
    seq![(dec_str(names.len()) + " names bound"@, AMBER)] + all.map_values(|r: Seq<char>| (r, TEXT))
}

pub fn push_chars(out: &mut Vec<char>, tail: &[char])
    ensures
        final(out)@ == old(out)@ + tail@,
{
    let ghost start = out@;
    let mut i: usize = 0;
    while i < tail.len()
        invariant
            i <= tail@.len(),
            out@ == start + tail@.take(i as int),
        decreases tail@.len() - i,
    {
        out.push(tail[i]);
        i += 1;
        proof {
            assert(out@ =~= start + tail@.take(i as int));
        }
    }
    proof {
        assert(tail@.take(tail@.len() as int) =~= tail@);
    }
}

impl Shell {
    /// The language reference.
    pub fn lisp_reference(&self) -> (lines: Vec<Line>)
        ensures
            lines_view(lines@) == lisp_lines(),
    {
        let mut lines: Vec<Line> = Vec::new();
        lines.push(Line::new("ORACLE — a small Lisp", AMBER));
        lines.push(Line::new("", TEXT));
        lines.push(Line::new("special forms", CYAN));
        lines.push(Line::new("  quote if define set! lambda let begin while cond and or", TEXT));
        lines.push(Line::new("", TEXT));
        lines.push(Line::new("builtins", CYAN));
        let ghost head = lines_view(lines@);
        proof {
            assert(head =~= seq![
                ("ORACLE — a small Lisp"@, AMBER),
                (""@, TEXT),
                ("special forms"@, CYAN),
                ("  quote if define set! lambda let begin while cond and or"@, TEXT),
                (""@, TEXT),
                ("builtins"@, CYAN),
            ]);
        }
        let ghost table = crate::oracle::builtins::catalogue().map_values(|c: (Seq<char>, Seq<char>)| ("  "@ + padded(c.0, 22) + c.1, TEXT));
        proof {
            assert(lines_view(lines@) =~= head + table.take(0));
        }
        let mut i: usize = 0;
        while i < 33
            invariant
                i <= 33,
                table.len() == 33,
                table == crate::oracle::builtins::catalogue().map_values(|c: (Seq<char>, Seq<char>)| ("  "@ + padded(c.0, 22) + c.1, TEXT)),
                lines_view(lines@) == head + table.take(i as int),
            decreases 33 - i,
        {
            let (names, description) = crate::oracle::builtins::catalogue_entry(i);
            let mut text: Vec<char> = Vec::new();
            push_str(&mut text, "  ");
            push_padded(&mut text, names, 22);
            push_str(&mut text, description);
            let l = Line::owned(text, TEXT);
            let ghost prev = lines@;
            lines.push(l);
            proof {
                lemma_lines_push(prev, l);
                assert(lines_view(lines@) =~= head + table.take(i + 1));
            }
            i += 1;
        }
        let l1 = Line::new("", TEXT);
        let ghost p1 = lines@;
        lines.push(l1);
        let l2 = Line::new("examples", CYAN);
        let ghost p2 = lines@;
        lines.push(l2);
        let ghost mid = lines_view(lines@);
        proof {
            lemma_lines_push(p1, l1);
            lemma_lines_push(p2, l2);
            assert(table.take(33) =~= table);
            assert(mid =~= head + table + seq![(""@, TEXT), ("examples"@, CYAN)]);
        }
        let ghost shown = examples().map_values(|e: Seq<char>| ("  "@ + e, TEXT_DIM));
        proof {
            assert(lines_view(lines@) =~= mid + shown.take(0));
        }
        let mut k: usize = 0;
        while k < 6
            invariant
                k <= 6,
                shown.len() == 6,
                shown == examples().map_values(|e: Seq<char>| ("  "@ + e, TEXT_DIM)),
                lines_view(lines@) == mid + shown.take(k as int),
            decreases 6 - k,
        {
            let mut text: Vec<char> = Vec::new();
            push_str(&mut text, "  ");
            push_str(&mut text, example(k));
            let l = Line::owned(text, TEXT_DIM);
            let ghost prev = lines@;
            lines.push(l);
            proof {
                lemma_lines_push(prev, l);
                assert(lines_view(lines@) =~= mid + shown.take(k + 1));
            }
            k += 1;
        }
        proof {
            assert(table.take(33) =~= table);
            assert(shown.take(6) =~= shown);
            assert(lines_view(lines@) =~= lisp_lines());
        }
        lines
    }

    /// Every name bound in ORACLE's global scope, run into rows.
    pub fn environment(&self) -> (lines: Vec<Line>)
        requires
            self.interpreter.global.wf(),
        ensures
            exists|names: Seq<Seq<char>>|
                names.to_set() == visible(self.interpreter.global.view(), 0)
                && crate::oracle::value::sorted_names(names)
                && lines_view(lines@) == env_lines(names),
    {
        proof {
            self.interpreter.global.lemma_wf();
        }
        let names = self.interpreter.global.names(0);
        let ghost ns = names@.map_values(|n: String| n@);
        let mut lines: Vec<Line> = Vec::new();
        let mut header: Vec<char> = Vec::new();
        push_dec(&mut header, names.len() as u64);
        push_str(&mut header, " names bound");
        lines.push(Line::owned(header, AMBER));
        let ghost head = lines_view(lines@);
        let mut rows: Vec<Vec<char>> = Vec::new();
        let mut row: Vec<char> = Vec::new();
        let mut i: usize = 0;
        proof {
            assert(ns.take(0) =~= Seq::<Seq<char>>::empty());
            assert(rows@.map_values(|r: Vec<char>| r@) =~= Seq::<Seq<char>>::empty());
        }
        while i < names.len()
            invariant
                i <= names@.len(),
                ns == names@.map_values(|n: String| n@),
                name_rows(ns.take(i as int)) == (rows@.map_values(|r: Vec<char>| r@), row@),
                lines_view(lines@) == head,
            decreases names@.len() - i,
        {
            let name = names[i].as_str();
            let row_text = string_of(row.as_slice());
            let row_bytes = row_text.as_str().as_bytes().len();
            let name_bytes = name.as_bytes().len();
            proof {
                assert(ns.take(i + 1).drop_last() =~= ns.take(i as int));
                assert(ns.take(i + 1).last() == name@);
            }
            let ghost rows_before = rows@;
            if (row_bytes as u128) + (name_bytes as u128) + 2 > 70 {
                let finished = row;
                rows.push(finished);
                row = Vec::new();
                proof {
                    assert(rows@.map_values(|r: Vec<char>| r@) =~= rows_before.map_values(|r: Vec<char>| r@).push(finished@));
                }
            }
            if row.len() > 0 {
                push_str(&mut row, "  ");
            }
            push_str(&mut row, name);
            proof {
                assert(rows@.map_values(|r: Vec<char>| r@) =~= name_rows(ns.take(i + 1)).0);
                assert(row@ =~= name_rows(ns.take(i + 1)).1);
            }
            i += 1;
        }
        proof {
            assert(ns.take(names@.len() as int) =~= ns);
        }
        let ghost all = if row@.len() > 0 { rows@.map_values(|r: Vec<char>| r@).push(row@) } else { rows@.map_values(|r: Vec<char>| r@) };
        if row.len() > 0 {
            rows.push(row);
            proof {
                assert(rows@.map_values(|r: Vec<char>| r@) =~= all);
            }
        }
        let mut k: usize = 0;
        while k < rows.len()
            invariant
                k <= rows@.len(),
                rows@.map_values(|r: Vec<char>| r@) == all,
                lines_view(lines@) == head + all.take(k as int).map_values(|r: Seq<char>| (r, TEXT)),
            decreases rows@.len() - k,
        {
            let l = Line::owned(crate::text::copy_chars(rows[k].as_slice()), TEXT);
            let ghost prev = lines@;
            lines.push(l);
            proof {
                lemma_lines_push(prev, l);
                assert(all.take(k + 1).map_values(|r: Seq<char>| (r, TEXT))
                    =~= all.take(k as int).map_values(|r: Seq<char>| (r, TEXT)).push((all[k as int], TEXT)));
                assert(lines_view(lines@) =~= head + all.take(k + 1).map_values(|r: Seq<char>| (r, TEXT)));
            }
            k += 1;
        }
        proof {
            assert(all.take(all.len() as int) =~= all);
            assert(lines_view(lines@) =~= env_lines(ns));
        }
        lines
    }
}


// ---------------------------------------------------------------------
// What the machine reported.
// ---------------------------------------------------------------------

/// `v` in decimal, zero-padded to `width` digits.
pub open spec fn zero_padded(v: nat, width: nat) -> Seq<char> {
    let d = dec_str(v);
    if d.len() >= width { d } else { Seq::new((width - d.len()) as nat, |i: int| '0') + d }
}

pub fn push_zero_padded(out: &mut Vec<char>, v: u64, width: usize)
    ensures
        final(out)@ == old(out)@ + zero_padded(v as nat, width as nat),
{
    let mut digits: Vec<char> = Vec::new();
    push_dec(&mut digits, v);
    proof {
        assert(digits@ =~= dec_str(v as nat));
    }
    let ghost start = out@;
    let mut n = digits.len();
    while n < width
        invariant
            digits@.len() <= n,
            n <= width || n == digits@.len(),
            out@ == start + Seq::new((n - digits@.len()) as nat, |i: int| '0'),
        decreases width - n,
    {
        out.push('0');
        n += 1;
        proof {
            assert(out@ =~= start + Seq::new((n - digits@.len()) as nat, |i: int| '0'));
        }
    }
    let ghost mid = out@;
    push_chars(out, digits.as_slice());
    proof {
        if digits@.len() >= width {
            assert(Seq::new((n - digits@.len()) as nat, |i: int| '0') =~= Seq::<char>::empty());
            assert(final(out)@ =~= start + digits@);
        } else {
            assert(final(out)@ =~= start + zero_padded(v as nat, width as nat));
        }
    }
}

/// The line `uptime` prints for `ms` milliseconds and `ticks` timer ticks.
pub open spec fn uptime_text(ms: u64, ticks: u64) -> Seq<char> {
    let seconds = ms / 1000;
    "up "@ + dec_str((seconds / 3600) as nat) + "h "@ + zero_padded(((seconds / 60) % 60) as nat, 2) + "m "@
        + zero_padded((seconds % 60) as nat, 2) + "."@ + zero_padded((ms % 1000) as nat, 3) + "s  ("@
        + dec_str(ticks as nat) + " timer ticks at 1000 Hz)"@
}

/// The line `date` prints.
pub open spec fn date_lines(now: crate::drivers::rtc::DateTime) -> Seq<LineView> {
    if !(1 <= now.month <= 12 && 1 <= now.day <= 31 && now.hour < 24) {
        seq![("the CMOS clock did not answer sensibly"@, WARN)]
    } else {
        seq![(zero_padded(now.year as nat, 4) + "-"@ + zero_padded(now.month as nat, 2) + "-"@ + zero_padded(now.day as nat, 2)
            + " "@ + zero_padded(now.hour as nat, 2) + ":"@ + zero_padded(now.minute as nat, 2) + ":"@
            + zero_padded(now.second as nat, 2) + "  (CMOS RTC, UTC as the firmware set it)"@, TEXT)]
    }
}

/// The lines `pci` prints for these devices.
pub open spec fn pci_lines(devices: Seq<crate::drivers::pci::Device>) -> Seq<LineView> {
    seq![(dec_str(devices.len()) + " PCI device(s)"@, AMBER)]
        + devices.map_values(|d: crate::drivers::pci::Device| ("  "@ + crate::drivers::pci::description(d), TEXT))
}

impl Shell {
    /// What `uptime` prints, from the timer's reading.
    pub fn uptime_lines(ms: u64, ticks: u64) -> (lines: Vec<Line>)
        ensures
            lines_view(lines@) == seq![(uptime_text(ms, ticks), TEXT)],
    {
        let seconds = ms / 1000;
        let mut text: Vec<char> = Vec::new();
        push_str(&mut text, "up ");
        push_dec(&mut text, seconds / 3600);
        push_str(&mut text, "h ");
        push_zero_padded(&mut text, (seconds / 60) % 60, 2);
        push_str(&mut text, "m ");
        push_zero_padded(&mut text, seconds % 60, 2);
        push_str(&mut text, ".");
        push_zero_padded(&mut text, ms % 1000, 3);
        push_str(&mut text, "s  (");
        push_dec(&mut text, ticks);
        push_str(&mut text, " timer ticks at 1000 Hz)");
        let mut lines: Vec<Line> = Vec::new();
        lines.push(Line::owned(text, TEXT));
        proof {
            assert(lines_view(lines@) =~= seq![(uptime_text(ms, ticks), TEXT)]);
        }
        lines
    }

    /// What `date` prints, from the clock's reading.
    pub fn date_lines(now: crate::drivers::rtc::DateTime) -> (lines: Vec<Line>)
        ensures
            lines_view(lines@) == date_lines(now),
    {
        let mut lines: Vec<Line> = Vec::new();
        if !now.is_valid() {
            lines.push(Line::new("the CMOS clock did not answer sensibly", WARN));
            proof {
                assert(lines_view(lines@) =~= date_lines(now));
            }
            return lines;
        }
        let mut text: Vec<char> = Vec::new();
        push_zero_padded(&mut text, now.year as u64, 4);
        push_str(&mut text, "-");
        push_zero_padded(&mut text, now.month as u64, 2);
        push_str(&mut text, "-");
        push_zero_padded(&mut text, now.day as u64, 2);
        push_str(&mut text, " ");
        push_zero_padded(&mut text, now.hour as u64, 2);
        push_str(&mut text, ":");
        push_zero_padded(&mut text, now.minute as u64, 2);
        push_str(&mut text, ":");
        push_zero_padded(&mut text, now.second as u64, 2);
        push_str(&mut text, "  (CMOS RTC, UTC as the firmware set it)");
        lines.push(Line::owned(text, TEXT));
        proof {
            assert(lines_view(lines@) =~= date_lines(now));
        }
        lines
    }

    /// What `beep` prints.
    pub fn beep_lines(frequency: u32, duration: u64) -> (lines: Vec<Line>)
        ensures
            lines_view(lines@) == seq![(dec_str(frequency as nat) + " Hz for "@ + dec_str(duration as nat)
                + " ms (silent if this machine has no speaker)"@, TEXT_DIM)],
    {
        let mut text: Vec<char> = Vec::new();
        push_dec(&mut text, frequency as u64);
        push_str(&mut text, " Hz for ");
        push_dec(&mut text, duration);
        push_str(&mut text, " ms (silent if this machine has no speaker)");
        let mut lines: Vec<Line> = Vec::new();
        lines.push(Line::owned(text, TEXT_DIM));
        proof {
            assert(lines_view(lines@) =~= seq![(dec_str(frequency as nat) + " Hz for "@ + dec_str(duration as nat)
                + " ms (silent if this machine has no speaker)"@, TEXT_DIM)]);
        }
        lines
    }

    /// What `poweroff` prints when the machine is still running after it.
    pub fn poweroff_lines() -> (lines: Vec<Line>)
        ensures
            lines_view(lines@) == seq![
                ("this machine did not respond to any shutdown route we know"@, WARN),
                ("it is safe to switch it off at the mains"@, TEXT_DIM),
            ],
    {
        let mut lines: Vec<Line> = Vec::new();
        lines.push(Line::new("this machine did not respond to any shutdown route we know", WARN));
        lines.push(Line::new("it is safe to switch it off at the mains", TEXT_DIM));
        proof {
            assert(lines_view(lines@) =~= seq![
                ("this machine did not respond to any shutdown route we know"@, WARN),
                ("it is safe to switch it off at the mains"@, TEXT_DIM),
            ]);
        }
        lines
    }

    /// What `pci` prints for the devices found.
    pub fn pci_lines(devices: &[crate::drivers::pci::Device]) -> (lines: Vec<Line>)
        ensures
            lines_view(lines@) == pci_lines(devices@),
    {
        let mut lines: Vec<Line> = Vec::new();
        let mut header: Vec<char> = Vec::new();
        push_dec(&mut header, devices.len() as u64);
        push_str(&mut header, " PCI device(s)");
        lines.push(Line::owned(header, AMBER));
        let ghost head = lines_view(lines@);
        let ghost each = devices@.map_values(|d: crate::drivers::pci::Device| ("  "@ + crate::drivers::pci::description(d), TEXT));
        let mut i: usize = 0;
        while i < devices.len()
            invariant
                i <= devices@.len(),
                each == devices@.map_values(|d: crate::drivers::pci::Device| ("  "@ + crate::drivers::pci::description(d), TEXT)),
                lines_view(lines@) == head + each.take(i as int),
            decreases devices@.len() - i,
        {
            let mut text: Vec<char> = Vec::new();
            push_str(&mut text, "  ");
            let d = devices[i].describe();
            push_str(&mut text, d.as_str());
            let l = Line::owned(text, TEXT);
            let ghost prev = lines@;
            lines.push(l);
            proof {
                lemma_lines_push(prev, l);
                assert(lines_view(lines@) =~= head + each.take(i + 1));
            }
            i += 1;
        }
        proof {
            assert(each.take(devices@.len() as int) =~= each);
            assert(lines_view(lines@) =~= pci_lines(devices@));
        }
        lines
    }
}

/// A byte count as `mem` shows it: the label, the value in its unit, and
/// the exact count.
pub open spec fn mem_show(label: Seq<char>, bytes: u64) -> LineView {
    ("  "@ + padded(label, 16) + right_aligned(dec_str(crate::mm::unit_value(bytes as nat, 0)), 6) + " "@
        + padded(crate::mm::unit_name(crate::mm::unit_steps(bytes as nat, 0)), 4) + "("@ + dec_str(bytes as nat)
        + " bytes)"@, TEXT)
}

/// What `mem` prints for these counters.
pub open spec fn memory_lines(total: u64, used: u64, free: u64, heap: crate::mm::heap::HeapStats) -> Seq<LineView> {
    seq![
        ("physical memory"@, AMBER),
        mem_show("total"@, total),
        mem_show("in use"@, used),
        mem_show("free"@, free),
        ("kernel heap"@, AMBER),
        mem_show("mapped"@, heap.mapped),
        mem_show("allocated"@, heap.allocated as u64),
        ("  "@ + padded("allocations"@, 16) + dec_str(heap.live_allocations as nat) + " live, "@
            + dec_str(heap.total_allocations as nat) + " served since boot, "@ + dec_str(heap.free_blocks as nat)
            + " free blocks"@, TEXT),
    ]
}

pub open spec fn state_name(s: crate::task::State) -> Seq<char> {
    match s {
        crate::task::State::Running => "running"@,
        crate::task::State::Ready => "ready"@,
        crate::task::State::Sleeping(_) => "sleeping"@,
        crate::task::State::Finished => "finished"@,
    }
}

pub open spec fn thread_line(t: crate::task::ThreadInfo) -> LineView {
    ("  "@ + padded(dec_str(t.id as nat), 5) + padded(t.name@, 17) + padded(state_name(t.state), 11)
        + padded(dec_str(t.ticks_used as nat), 8) + dec_str(t.switches as nat), if t.current { AMBER } else { TEXT })
}

/// What `ps` prints for these threads and switch count.
pub open spec fn process_lines(threads: Seq<crate::task::ThreadInfo>, switches: u64) -> Seq<LineView> {
    seq![("  id   name             state      ticks   switches"@, AMBER)]
        + threads.map_values(|t: crate::task::ThreadInfo| thread_line(t))
        + seq![("  "@ + dec_str(switches as nat) + " context switches total"@, TEXT_FAINT)]
}

pub open spec fn flag(b: bool) -> Seq<char> {
    if b { "true"@ } else { "false"@ }
}

/// What `cpu` prints for this processor.
pub open spec fn cpu_lines(info: crate::arch::cpu::CpuInfo) -> Seq<LineView> {
    let brand = crate::apps::devices::brand_text(&info);
    let vendor = crate::apps::devices::vendor_text(&info);
    seq![
        (if brand.len() == 0 { vendor } else { brand }, AMBER),
        ("  vendor "@ + vendor + "  family 0x"@ + crate::text::hex_str(info.family as nat) + "  model 0x"@
            + crate::text::hex_str(info.model as nat) + "  stepping "@ + dec_str(info.stepping as nat), TEXT),
        ("  nx:"@ + flag(info.has_nx) + "  pat:"@ + flag(info.has_pat) + "  sse2:"@ + flag(info.has_sse2)
            + "  apic:"@ + flag(info.has_apic) + "  invariant-tsc:"@ + flag(info.has_invariant_tsc), TEXT_DIM),
    ]
}

/// What `audio` prints: the codec, the audio status, and the tone if one
/// is playing.
pub open spec fn audio_lines(codec: Option<Seq<char>>, status: Seq<char>, playing: bool, frequency: u32, duration: u32) -> Seq<LineView> {
    seq![
        (match codec {
            Some(c) => c,
            None => "no AC'97 codec on this machine"@,
        }, AMBER),
        (status, TEXT_DIM),
    ] + if playing {
        seq![("playing "@ + dec_str(frequency as nat) + " Hz for "@ + dec_str(duration as nat) + " ms"@, TEXT)]
    } else {
        Seq::empty()
    }
}

/// What `ask` prints around ORACLE's answer.
pub open spec fn ask_lines(answer: Seq<Seq<char>>) -> Seq<LineView> {
    seq![("ORACLE:"@, VIOLET)] + answer.map_values(|l: Seq<char>| ("  "@ + l, TEXT_BRIGHT))
}

pub fn push_padded_chars(out: &mut Vec<char>, s: &[char], width: usize)
    ensures
        final(out)@ == old(out)@ + padded(s@, width as nat),
{
    let ghost start = out@;
    push_chars(out, s);
    let mut n = s.len();
    let ghost base = out@;
    while n < width
        invariant
            s@.len() <= n <= width || (n == s@.len() && n >= width),
            out@ == base + Seq::new((n - s@.len()) as nat, |i: int| ' '),
        decreases width - n,
    {
        out.push(' ');
        proof {
            assert(out@ =~= base + Seq::new((n + 1 - s@.len()) as nat, |i: int| ' '));
        }
        n += 1;
    }
    proof {
        if s@.len() >= width {
            assert(out@ =~= start + s@);
        } else {
            assert(out@ =~= start + padded(s@, width as nat));
        }
    }
}

fn push_mem_show(lines: &mut Vec<Line>, label: &str, bytes: u64)
    ensures
        lines_view(final(lines)@) == lines_view(old(lines)@).push(mem_show(label@, bytes)),
{
    let (value, unit) = crate::mm::format_bytes(bytes);
    let mut t: Vec<char> = Vec::new();
    push_str(&mut t, "  ");
    push_padded(&mut t, label, 16);
    let mut digits: Vec<char> = Vec::new();
    push_dec(&mut digits, value);
    push_right(&mut t, digits.as_slice(), 6);
    push_str(&mut t, " ");
    push_padded(&mut t, unit, 4);
    push_str(&mut t, "(");
    push_dec(&mut t, bytes);
    push_str(&mut t, " bytes)");
    let l = Line::owned(t, TEXT);
    proof {
        assert(line_view(l) == mem_show(label@, bytes));
        lemma_lines_push(lines@, l);
    }
    lines.push(l);
}

fn push_flag(t: &mut Vec<char>, label: &str, b: bool)
    ensures
        final(t)@ == old(t)@ + label@ + flag(b),
{
    push_str(t, label);
    push_str(t, if b { "true" } else { "false" });
    proof {
        assert(final(t)@ =~= old(t)@ + label@ + flag(b));
    }
}

impl Shell {
    /// What `mem` prints, from the allocators' counters.
    pub fn memory_lines(total: u64, used: u64, free: u64, heap: crate::mm::heap::HeapStats) -> (lines: Vec<Line>)
        ensures
            lines_view(lines@) == memory_lines(total, used, free, heap),
    {
        let mut lines: Vec<Line> = Vec::new();
        let l = Line::new("physical memory", AMBER);
        proof { lemma_lines_push(lines@, l); }
        lines.push(l);
        push_mem_show(&mut lines, "total", total);
        push_mem_show(&mut lines, "in use", used);
        push_mem_show(&mut lines, "free", free);
        let l = Line::new("kernel heap", AMBER);
        proof { lemma_lines_push(lines@, l); }
        lines.push(l);
        push_mem_show(&mut lines, "mapped", heap.mapped);
        push_mem_show(&mut lines, "allocated", heap.allocated as u64);
        let mut t: Vec<char> = Vec::new();
        push_str(&mut t, "  ");
        push_padded(&mut t, "allocations", 16);
        push_dec(&mut t, heap.live_allocations as u64);
        push_str(&mut t, " live, ");
        push_dec(&mut t, heap.total_allocations);
        push_str(&mut t, " served since boot, ");
        push_dec(&mut t, heap.free_blocks as u64);
        push_str(&mut t, " free blocks");
        let l = Line::owned(t, TEXT);
        proof { lemma_lines_push(lines@, l); }
        lines.push(l);
        proof {
            assert(lines_view(lines@) =~= memory_lines(total, used, free, heap));
        }
        lines
    }

    /// What `ps` prints, from the scheduler's snapshot.
    pub fn process_lines(threads: &[crate::task::ThreadInfo], switches: u64) -> (lines: Vec<Line>)
        ensures
            lines_view(lines@) == process_lines(threads@, switches),
    {
        let mut lines: Vec<Line> = Vec::new();
        let l = Line::new("  id   name             state      ticks   switches", AMBER);
        proof { lemma_lines_push(lines@, l); }
        lines.push(l);
        let ghost head = lines_view(lines@);
        let ghost each = threads@.map_values(|t: crate::task::ThreadInfo| thread_line(t));
        let mut i: usize = 0;
        while i < threads.len()
            invariant
                i <= threads@.len(),
                each == threads@.map_values(|t: crate::task::ThreadInfo| thread_line(t)),
                lines_view(lines@) == head + each.take(i as int),
            decreases threads@.len() - i,
        {
            let t = &threads[i];
            let mut text: Vec<char> = Vec::new();
            push_str(&mut text, "  ");
            let mut id: Vec<char> = Vec::new();
            push_dec(&mut id, t.id);
            push_padded_chars(&mut text, id.as_slice(), 5);
            let name = chars_of(t.name.as_str());
            push_padded_chars(&mut text, name.as_slice(), 17);
            let state = match t.state {
                crate::task::State::Running => "running",
                crate::task::State::Ready => "ready",
                crate::task::State::Sleeping(_) => "sleeping",
                crate::task::State::Finished => "finished",
            };
            push_padded(&mut text, state, 11);
            let mut ticks: Vec<char> = Vec::new();
            push_dec(&mut ticks, t.ticks_used);
            push_padded_chars(&mut text, ticks.as_slice(), 8);
            push_dec(&mut text, t.switches);
            let l = Line::owned(text, if t.current { AMBER } else { TEXT });
            proof {
                assert(line_view(l) == thread_line(threads@[i as int]));
                lemma_lines_push(lines@, l);
            }
            lines.push(l);
            i += 1;
            proof {
                assert(each.take(i as int) =~= each.take(i - 1).push(each[i - 1]));
            }
        }
        let mut t: Vec<char> = Vec::new();
        push_str(&mut t, "  ");
        push_dec(&mut t, switches);
        push_str(&mut t, " context switches total");
        let l = Line::owned(t, TEXT_FAINT);
        proof { lemma_lines_push(lines@, l); }
        lines.push(l);
        proof {
            assert(each.take(threads@.len() as int) =~= each);
            assert(lines_view(lines@) =~= process_lines(threads@, switches));
        }
        lines
    }

    /// What `cpu` prints for the processor identified.
    pub fn cpu_lines(info: &crate::arch::cpu::CpuInfo) -> (lines: Vec<Line>)
        requires
            info.brand_len <= 48,
        ensures
            lines_view(lines@) == cpu_lines(*info),
    {
        let brand = info.brand_str();
        let vendor = info.vendor_str();
        let mut lines: Vec<Line> = Vec::new();
        let l = Line::new(if brand.is_empty() { vendor } else { brand }, AMBER);
        proof { lemma_lines_push(lines@, l); }
        lines.push(l);
        let mut t: Vec<char> = Vec::new();
        push_str(&mut t, "  vendor ");
        push_str(&mut t, vendor);
        push_str(&mut t, "  family 0x");
        crate::text::push_hex_min(&mut t, info.family as u64);
        push_str(&mut t, "  model 0x");
        crate::text::push_hex_min(&mut t, info.model as u64);
        push_str(&mut t, "  stepping ");
        push_dec(&mut t, info.stepping as u64);
        let l = Line::owned(t, TEXT);
        proof { lemma_lines_push(lines@, l); }
        lines.push(l);
        let mut t: Vec<char> = Vec::new();
        push_flag(&mut t, "  nx:", info.has_nx);
        push_flag(&mut t, "  pat:", info.has_pat);
        push_flag(&mut t, "  sse2:", info.has_sse2);
        push_flag(&mut t, "  apic:", info.has_apic);
        push_flag(&mut t, "  invariant-tsc:", info.has_invariant_tsc);
        let l = Line::owned(t, TEXT_DIM);
        proof { lemma_lines_push(lines@, l); }
        lines.push(l);
        proof {
            assert(lines_view(lines@) =~= cpu_lines(*info));
        }
        lines
    }

    /// What `audio` prints: the codec's description if there is one, the
    /// audio status, and the tone if it is playing.
    pub fn audio_lines(codec: Option<&str>, status: &str, playing: bool, frequency: u32, duration: u32) -> (lines: Vec<Line>)
        ensures
            lines_view(lines@) == audio_lines(match codec { Some(c) => Some(c@), None => None }, status@, playing,
                frequency, duration),
    {
        let mut lines: Vec<Line> = Vec::new();
        let l = Line::new(match codec { Some(c) => c, None => "no AC'97 codec on this machine" }, AMBER);
        proof { lemma_lines_push(lines@, l); }
        lines.push(l);
        let l = Line::new(status, TEXT_DIM);
        proof { lemma_lines_push(lines@, l); }
        lines.push(l);
        if playing {
            let mut t: Vec<char> = Vec::new();
            push_str(&mut t, "playing ");
            push_dec(&mut t, frequency as u64);
            push_str(&mut t, " Hz for ");
            push_dec(&mut t, duration as u64);
            push_str(&mut t, " ms");
            let l = Line::owned(t, TEXT);
            proof { lemma_lines_push(lines@, l); }
            lines.push(l);
        }
        proof {
            assert(lines_view(lines@) =~= audio_lines(match codec { Some(c) => Some(c@), None => None }, status@,
                playing, frequency, duration));
        }
        lines
    }

    /// What `ask` prints around ORACLE's answer.
    pub fn ask_lines(answer: &[String]) -> (lines: Vec<Line>)
        ensures
            lines_view(lines@) == ask_lines(answer@.map_values(|s: String| s@)),
    {
        let ghost a = answer@.map_values(|s: String| s@);
        let mut lines: Vec<Line> = Vec::new();
        let l = Line::new("ORACLE:", VIOLET);
        proof { lemma_lines_push(lines@, l); }
        lines.push(l);
        let ghost head = lines_view(lines@);
        let mut i: usize = 0;
        while i < answer.len()
            invariant
                i <= answer@.len(),
                a == answer@.map_values(|s: String| s@),
                lines_view(lines@) == head + a.take(i as int).map_values(|l: Seq<char>| ("  "@ + l, TEXT_BRIGHT)),
            decreases answer@.len() - i,
        {
            let mut t: Vec<char> = Vec::new();
            push_str(&mut t, "  ");
            push_str(&mut t, answer[i].as_str());
            let l = Line::owned(t, TEXT_BRIGHT);
            proof { lemma_lines_push(lines@, l); }
            lines.push(l);
            i += 1;
            proof {
                assert(a.take(i as int).map_values(|l: Seq<char>| ("  "@ + l, TEXT_BRIGHT))
                    =~= a.take(i - 1).map_values(|l: Seq<char>| ("  "@ + l, TEXT_BRIGHT)).push(("  "@ + a[i - 1], TEXT_BRIGHT)));
            }
        }
        proof {
            assert(a.take(answer@.len() as int) =~= a);
            assert(lines_view(lines@) =~= ask_lines(a));
        }
        lines
    }
}

} // verus!
