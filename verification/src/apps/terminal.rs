//! The terminal window: scrollback, line editing, and hsh underneath.

use vstd::prelude::*;

verus! {

use crate::text::{is_space, is_space_char, push_str, string_of};
use crate::fs::{FileSystem, lex_lt};
use crate::gfx::palette::{AMBER, TEXT_DIM};
use crate::input::{Key, KeyEvent};
use crate::oracle::value::{sorted_names, visible};
use crate::apps::AppResponse;
use super::shell::{Line, LineView, Outcome, Request, Shell, ShellEffects, line_view, lines_view, lemma_lines_push};

/// Lines of scrollback kept.
pub const MAX_SCROLLBACK: usize = 600;

pub struct TermView {
    pub lines: Seq<LineView>,
    pub input: Seq<char>,
    pub caret: nat,
    pub history: Seq<Seq<char>>,
    pub history_index: Option<nat>,
    pub scroll: nat,
    pub dirty: bool,
    pub blink_on: bool,
    pub last_blink: u64,
}

impl TermView {
    /// The caret sits within the input, and a recalled entry exists.
    pub open spec fn wf(self) -> bool {
        &&& self.caret <= self.input.len()
        &&& (self.history_index matches Some(i) ==> i < self.history.len())
    }
}

pub struct Terminal {
    pub shell: Shell,
    lines: Vec<Line>,
    input: Vec<char>,
    /// Caret position within `input`, counted in characters.
    caret: usize,
    history: Vec<Vec<char>>,
    history_index: Option<usize>,
    scroll: usize,
    dirty: bool,
    blink_on: bool,
    last_blink: u64,
}

/// The last `MAX_SCROLLBACK` lines.
pub open spec fn kept(lines: Seq<LineView>) -> Seq<LineView> {
    if lines.len() > MAX_SCROLLBACK { lines.skip(lines.len() - MAX_SCROLLBACK) } else { lines }
}

/// The scrollback after adding each of `added` in turn.
pub open spec fn pushed_all(s: Seq<LineView>, added: Seq<LineView>) -> Seq<LineView>
    decreases added.len(),
{
    if added.len() == 0 { s } else { kept(pushed_all(s, added.drop_last()).push(added.last())) }
}

pub open spec fn min_nat(a: nat, b: nat) -> nat {
    if a < b { a } else { b }
}

/// Up (`backwards`) or down through the history.
pub open spec fn recall_spec(v: TermView, backwards: bool) -> TermView {
    if v.history.len() == 0 {
        v
    } else {
        let next: Option<nat> = match v.history_index {
            None => if backwards { Some((v.history.len() - 1) as nat) } else { None },
            Some(c) => if backwards {
                Some(if c >= 1 { (c - 1) as nat } else { 0 })
            } else if c + 1 >= v.history.len() {
                None
            } else {
                Some(c + 1)
            },
        };
        match next {
            Some(i) => TermView { history_index: Some(i), input: v.history[i as int], caret: v.history[i as int].len(), ..v },
            None => if v.history_index is None {
                v
            } else {
                TermView { history_index: None, input: Seq::empty(), caret: 0, ..v }
            },
        }
    }
}

/// Where the word being completed starts: just after the last space or
/// opening parenthesis before the caret.
pub open spec fn word_start(p: Seq<char>) -> int
    decreases p.len(),
{
    if p.len() == 0 {
        0
    } else if is_space(p.last()) || p.last() == '(' {
        p.len() as int
    } else {
        word_start(p.drop_last())
    }
}

pub open spec fn starts_with(s: Seq<char>, p: Seq<char>) -> bool {
    p.len() <= s.len() && s.take(p.len() as int) == p
}

/// The names that start with `w`, in order.
pub open spec fn completions(names: Seq<Seq<char>>, w: Seq<char>) -> Seq<Seq<char>> {
    names.filter(prefix_pred(w))
}

pub open spec fn prefix_pred(w: Seq<char>) -> spec_fn(Seq<char>) -> bool {
    |n: Seq<char>| starts_with(n, w)
}

/// Names joined by two spaces.
pub open spec fn joined(names: Seq<Seq<char>>) -> Seq<char>
    decreases names.len(),
{
    if names.len() == 0 {
        Seq::empty()
    } else if names.len() == 1 {
        names[0]
    } else {
        joined(names.drop_last()) + "  "@ + names.last()
    }
}

/// Tab completes the word before the caret against the names ORACLE
/// knows: one match is filled in; several are listed.
pub open spec fn tab_spec(v: TermView, names: Seq<Seq<char>>) -> TermView {
    let prefix = v.input.take(v.caret as int);
    let w = prefix.skip(word_start(prefix));
    let found = completions(names, w);
    if w.len() == 0 {
        v
    } else if found.len() == 1 {
        let tail = found[0].skip(w.len() as int);
        TermView {
            input: v.input.take(v.caret as int) + tail + v.input.skip(v.caret as int),
            caret: v.caret + tail.len(),
            ..v
        }
    } else if found.len() > 1 {
        TermView {
            lines: kept(v.lines.push((joined(found.take(if found.len() < 24 { found.len() as int } else { 24 })), TEXT_DIM))),
            ..v
        }
    } else {
        v
    }
}

/// What a key other than Enter does, once the caret has been woken.
pub open spec fn edit_spec(v: TermView, e: KeyEvent, names: Seq<Seq<char>>) -> TermView {
    match e.key {
        Key::Backspace => if v.caret > 0 {
            TermView { caret: (v.caret - 1) as nat, input: v.input.remove(v.caret - 1), ..v }
        } else {
            v
        },
        Key::Delete => if v.caret < v.input.len() {
            TermView { input: v.input.remove(v.caret as int), ..v }
        } else {
            v
        },
        Key::Left => TermView { caret: if v.caret >= 1 { (v.caret - 1) as nat } else { 0 }, ..v },
        Key::Right => TermView { caret: min_nat(v.caret + 1, v.input.len()), ..v },
        Key::Home => TermView { caret: 0, ..v },
        Key::End => TermView { caret: v.input.len(), ..v },
        Key::Up => recall_spec(v, true),
        Key::Down => recall_spec(v, false),
        Key::PageUp => TermView { scroll: min_nat(v.scroll + 8, v.lines.len()), ..v },
        Key::PageDown => TermView { scroll: if v.scroll >= 8 { (v.scroll - 8) as nat } else { 0 }, ..v },
        Key::Escape => TermView { input: Seq::empty(), caret: 0, ..v },
        Key::Tab => tab_spec(v, names),
        Key::Char => match e.character {
            None => v,
            Some(ch) => if e.modifiers.ctrl {
                if ch == 'l' {
                    TermView { lines: Seq::empty(), ..v }
                } else if ch == 'c' {
                    TermView { input: Seq::empty(), caret: 0, lines: kept(v.lines.push(("^C"@, TEXT_DIM))), ..v }
                } else if ch == 'a' {
                    TermView { caret: 0, ..v }
                } else if ch == 'e' {
                    TermView { caret: v.input.len(), ..v }
                } else if ch == 'u' {
                    TermView { input: Seq::empty(), caret: 0, ..v }
                } else {
                    v
                }
            } else {
                TermView { input: v.input.insert(v.caret as int, ch), caret: v.caret + 1, ..v }
            },
        },
        _ => v,
    }
}

/// The prompt the input line starts with.
pub open spec fn prompt() -> Seq<char> {
    "halcyon> "@
}

impl Terminal {
    pub closed spec fn view(&self) -> TermView {
        TermView {
            lines: lines_view(self.lines@),
            input: self.input@,
            caret: self.caret as nat,
            history: self.history@.map_values(|h: Vec<char>| h@),
            history_index: match self.history_index { Some(i) => Some(i as nat), None => None },
            scroll: self.scroll as nat,
            dirty: self.dirty,
            blink_on: self.blink_on,
            last_blink: self.last_blink,
        }
    }

    pub closed spec fn shell_spec(&self) -> Shell {
        self.shell
    }

    /// The shell underneath is ready to run.
    pub closed spec fn ready(&self) -> bool {
        &&& self.shell.interpreter.global.wf()
        &&& self.shell.interpreter.depth == 0
        &&& self.view().wf()
    }

    /// A terminal with the shell's banner in its scrollback.
    pub fn new(fs: &FileSystem) -> (t: Terminal)
        requires
            fs.wf(),
        ensures
            t.ready(),
            t.view().input.len() == 0,
            t.view().history.len() == 0,
            t.view().history_index is None,
            t.view().scroll == 0,
            t.view().dirty && t.view().blink_on,
    {
        let shell = Shell::new();
        let lines = shell.banner(fs);
        let t = Terminal {
            shell,
            lines,
            input: Vec::new(),
            caret: 0,
            history: Vec::new(),
            history_index: None,
            scroll: 0,
            dirty: true,
            blink_on: true,
            last_blink: 0,
        };
        proof {
            assert(t.view().history =~= Seq::<Seq<char>>::empty());
        }
        t
    }

    /// Add a line to the scrollback, dropping the oldest past the limit.
    pub fn push(&mut self, line: Line)
        ensures
            final(self).view() == (TermView { lines: kept(old(self).view().lines.push(line_view(line))), ..old(self).view() }),
            final(self).shell_spec() == old(self).shell_spec(),
    {
        let ghost before = self.lines@;
        self.lines.push(line);
        let ghost all = lines_view(before).push(line_view(line));
        proof {
            lemma_lines_push(before, line);
        }
        let ghost mut dropped: int = 0;
        while self.lines.len() > MAX_SCROLLBACK
            invariant
                0 <= dropped <= all.len(),
                lines_view(self.lines@) == all.skip(dropped),
                self.lines@.len() == all.len() - dropped,
                all.len() > MAX_SCROLLBACK ==> dropped <= all.len() - MAX_SCROLLBACK,
                all.len() <= MAX_SCROLLBACK ==> dropped == 0,
                self.input == old(self).input,
                self.caret == old(self).caret,
                self.history == old(self).history,
                self.history_index == old(self).history_index,
                self.scroll == old(self).scroll,
                self.dirty == old(self).dirty,
                self.blink_on == old(self).blink_on,
                self.last_blink == old(self).last_blink,
                self.shell == old(self).shell_spec(),
            decreases self.lines@.len(),
        {
            let ghost b = self.lines@;
            self.lines.remove(0);
            proof {
                assert(self.lines@ =~= b.subrange(1, b.len() as int));
                assert(lines_view(self.lines@) =~= lines_view(b).subrange(1, b.len() as int));
                assert(all.skip(dropped + 1) =~= all.skip(dropped).subrange(1, all.skip(dropped).len() as int));
                dropped = dropped + 1;
            }
        }
        proof {
            assert(lines_view(self.lines@) =~= kept(all));
        }
    }

    /// Add lines the shell produced, in order.
    pub fn push_lines(&mut self, lines: Vec<Line>)
        ensures
            final(self).shell_spec() == old(self).shell_spec(),
            final(self).view() == (TermView {
                lines: pushed_all(old(self).view().lines, lines_view(lines@)),
                ..old(self).view()
            }),
    {
        let ghost start = old(self).view().lines;
        let ghost added = lines_view(lines@);
        let mut lines = lines;
        let n = lines.len();
        let mut i: usize = 0;
        proof {
            assert(added.take(0) =~= Seq::<LineView>::empty());
        }
        while i < n
            invariant
                i <= n == added.len(),
                lines@.len() == n - i,
                lines_view(lines@) == added.skip(i as int),
                self.shell == old(self).shell_spec(),
                self.view() == (TermView { lines: pushed_all(start, added.take(i as int)), ..old(self).view() }),
            decreases n - i,
        {
            let ghost b = lines@;
            let l = lines.remove(0);
            proof {
                assert(lines_view(b)[0] == line_view(b[0]));
                assert(added.skip(i as int)[0] == added[i as int]);
                assert(line_view(l) == added[i as int]);
                assert(lines@ =~= b.subrange(1, b.len() as int));
                assert forall|j: int| 0 <= j < lines@.len() implies #[trigger] lines_view(lines@)[j] == added.skip(i as int + 1)[j] by {
                    assert(lines@[j] == b[j + 1]);
                    assert(lines_view(b)[j + 1] == added.skip(i as int)[j + 1]);
                }
                assert(lines_view(lines@) =~= added.skip(i as int + 1));
                assert(added.take(i as int + 1).drop_last() =~= added.take(i as int));
            }
            self.push(l);
            i += 1;
        }
        proof {
            assert(added.take(n as int) =~= added);
        }
    }

    fn clear_input(&mut self)
        ensures
            final(self).view() == (TermView { input: Seq::empty(), caret: 0, ..old(self).view() }),
            final(self).shell_spec() == old(self).shell_spec(),
    {
        self.input = Vec::new();
        self.caret = 0;
    }

    /// Up or down through the history.
    fn recall(&mut self, backwards: bool)
        requires
            old(self).view().wf(),
        ensures
            final(self).view() == recall_spec(old(self).view(), backwards),
            final(self).shell_spec() == old(self).shell_spec(),
    {
        let n = self.history.len();
        if n == 0 {
            return;
        }
        let index: usize = match self.history_index {
            None => {
                if backwards {
                    n - 1
                } else {
                    return;
                }
            },
            Some(current) => {
                if backwards {
                    if current >= 1 { current - 1 } else { 0 }
                } else {
                    if current + 1 >= n {
                        self.history_index = None;
                        self.clear_input();
                        return;
                    }
                    current + 1
                }
            },
        };
        self.history_index = Some(index);
        self.input = crate::text::copy_chars(self.history[index].as_slice());
        self.caret = self.input.len();
    }

    /// Complete the word before the caret.
    fn complete(&mut self)
        requires
            old(self).view().wf(),
            old(self).shell.interpreter.global.wf(),
        ensures
            final(self).shell_spec() == old(self).shell_spec(),
            exists|names: Seq<Seq<char>>|
                names.to_set() == visible(old(self).shell_spec().interpreter.global.view(), 0)
                && sorted_names(names)
                && final(self).view() == tab_spec(old(self).view(), names),
    {
        proof {
            self.shell.interpreter.global.lemma_wf();
        }
        let names = self.shell.interpreter.global.names(0);
        let ghost ns = names@.map_values(|n: String| n@);
        let ghost v = self.view();
        // The word before the caret.
        let mut start: usize = self.caret;
        let ghost prefix = self.input@.take(self.caret as int);
        proof {
            assert(word_start(prefix) == word_start(prefix.take(start as int))) by {
                assert(prefix.take(start as int) =~= prefix);
            }
        }
        while start > 0 && !(is_space_char(self.input[start - 1]) || self.input[start - 1] == '(')
            invariant
                start <= self.caret <= self.input@.len(),
                prefix == self.input@.take(self.caret as int),
                word_start(prefix) == word_start(prefix.take(start as int)),
            decreases start,
        {
            proof {
                assert(prefix.take(start as int).drop_last() =~= prefix.take(start - 1));
            }
            start -= 1;
        }
        proof {
            if start > 0 {
                assert(prefix.take(start as int).last() == self.input@[start - 1]);
            }
            assert(word_start(prefix.take(start as int)) == start);
        }
        let mut word: Vec<char> = Vec::new();
        let mut i = start;
        while i < self.caret
            invariant
                start <= i <= self.caret <= self.input@.len(),
                word@ == self.input@.subrange(start as int, i as int),
            decreases self.caret - i,
        {
            word.push(self.input[i]);
            i += 1;
            proof {
                assert(word@ =~= self.input@.subrange(start as int, i as int));
            }
        }
        proof {
            assert(word@ =~= prefix.skip(word_start(prefix)));
        }
        if word.len() == 0 {
            proof {
                assert(self.view() == tab_spec(v, ns));
            }
            return;
        }
        // The names that start with it.
        let mut found: Vec<usize> = Vec::new();
        let ghost w = word@;
        let mut k: usize = 0;
        proof {
            assert(ns.take(0).filter(prefix_pred(w)) =~= Seq::<Seq<char>>::empty());
        }
        while k < names.len()
            invariant
                k <= names@.len(),
                ns == names@.map_values(|n: String| n@),
                w == word@,
                found@.len() == ns.take(k as int).filter(prefix_pred(w)).len(),
                forall|j: int| #![trigger found@[j]] 0 <= j < found@.len() ==> found@[j] < names@.len()
                    && ns[found@[j] as int] == ns.take(k as int).filter(prefix_pred(w))[j],
            decreases names@.len() - k,
        {
            let candidate = crate::text::chars_of(names[k].as_str());
            let mut matches = candidate.len() >= word.len();
            let mut j: usize = 0;
            while matches && j < word.len()
                invariant
                    j <= word@.len(),
                    matches ==> candidate@.len() >= word@.len(),
                    matches ==> forall|m: int| 0 <= m < j ==> candidate@[m] == word@[m],
                    !matches ==> !starts_with(candidate@, word@),
                decreases word@.len() - j,
            {
                if candidate[j] != word[j] {
                    matches = false;
                    proof {
                        if starts_with(candidate@, word@) {
                            assert(candidate@.take(word@.len() as int)[j as int] == word@[j as int]);
                        }
                    }
                }
                j += 1;
            }
            proof {
                if matches {
                    assert(candidate@.take(word@.len() as int) =~= word@);
                }
                ns.take(k as int).lemma_filter_push(ns[k as int], prefix_pred(w));
                assert(ns.take(k as int).push(ns[k as int]) =~= ns.take(k + 1));
                assert(candidate@ == ns[k as int]);
            }
            let ghost before = found@;
            if matches {
                found.push(k);
            }
            proof {
                let old_f = ns.take(k as int).filter(prefix_pred(w));
                let new_f = ns.take(k + 1).filter(prefix_pred(w));
                assert(prefix_pred(w)(ns[k as int]) == matches);
                assert forall|j: int| #![trigger found@[j]] 0 <= j < found@.len() implies found@[j] < names@.len()
                    && ns[found@[j] as int] == new_f[j] by {
                    if j < before.len() {
                        assert(found@[j] == before[j]);
                        assert(ns[before[j] as int] == old_f[j]);
                    } else {
                        assert(found@[j] == k);
                    }
                }
            }
            k += 1;
        }
        proof {
            assert(ns.take(names@.len() as int) =~= ns);
        }
        if found.len() == 1 {
            proof {
                assert(ns[found@[0] as int] == ns.filter(prefix_pred(w))[0]);
                ns.lemma_filter_pred(prefix_pred(w), 0);
            }
            let only = crate::text::chars_of(names[found[0]].as_str());
            proof {
                assert(only@ == ns[found@[0] as int]);
                assert(starts_with(only@, word@));
            }
            let mut out: Vec<char> = Vec::new();
            let mut a: usize = 0;
            while a < self.caret
                invariant
                    a <= self.caret <= self.input@.len(),
                    out@ == self.input@.take(a as int),
                decreases self.caret - a,
            {
                out.push(self.input[a]);
                a += 1;
                proof {
                    assert(out@ =~= self.input@.take(a as int));
                }
            }
            let ghost mid = out@;
            let mut b: usize = word.len();
            proof {
                assert(out@ =~= mid + only@.subrange(word@.len() as int, b as int));
            }
            while b < only.len()
                invariant
                    word@.len() <= b <= only@.len(),
                    out@ == mid + only@.subrange(word@.len() as int, b as int),
                decreases only@.len() - b,
            {
                out.push(only[b]);
                b += 1;
                proof {
                    assert(out@ =~= mid + only@.subrange(word@.len() as int, b as int));
                }
            }
            let added = if only.len() > word.len() { only.len() - word.len() } else { 0 };
            let ghost mid2 = out@;
            let mut c: usize = self.caret;
            while c < self.input.len()
                invariant
                    self.caret <= c <= self.input@.len(),
                    out@ == mid2 + self.input@.subrange(self.caret as int, c as int),
                decreases self.input@.len() - c,
            {
                out.push(self.input[c]);
                c += 1;
                proof {
                    assert(out@ =~= mid2 + self.input@.subrange(self.caret as int, c as int));
                }
            }
            proof {
                let tail = only@.skip(word@.len() as int);
                assert(mid2 =~= self.input@.take(self.caret as int) + tail);
                assert(out@ =~= self.input@.take(self.caret as int) + tail + self.input@.skip(self.caret as int));
                assert(tail.len() == added);
            }
            let total = out.len();
            proof {
                assert(self.caret + added <= total);
            }
            self.input = out;
            self.caret = self.caret + added;
            proof {
                assert(self.view() == tab_spec(v, ns));
            }
        } else if found.len() > 1 {
            let shown_count: usize = if found.len() < 24 { found.len() } else { 24 };
            let mut text: Vec<char> = Vec::new();
            let mut m: usize = 0;
            let ghost listed = ns.filter(prefix_pred(w));
            proof {
                assert(listed.take(0) =~= Seq::<Seq<char>>::empty());
            }
            while m < shown_count
                invariant
                    m <= shown_count <= found@.len(),
                    listed == ns.filter(prefix_pred(w)),
                    found@.len() == listed.len(),
                    forall|j: int| #![trigger found@[j]] 0 <= j < found@.len() ==> found@[j] < names@.len()
                        && ns[found@[j] as int] == listed[j],
                    ns == names@.map_values(|n: String| n@),
                    text@ == joined(listed.take(m as int)),
                decreases shown_count - m,
            {
                if m > 0 {
                    push_str(&mut text, "  ");
                }
                push_str(&mut text, names[found[m]].as_str());
                proof {
                    assert(listed.take(m + 1).drop_last() =~= listed.take(m as int));
                    assert(ns[found@[m as int] as int] == listed[m as int]);
                    if m == 0 {
                        assert(text@ =~= joined(listed.take(1)));
                    } else {
                        assert(text@ =~= joined(listed.take(m + 1)));
                    }
                }
                m += 1;
            }
            let l = Line { text: string_of(text.as_slice()), color: TEXT_DIM };
            self.push(l);
            proof {
                assert(self.view() == tab_spec(v, ns));
            }
        } else {
            proof {
                assert(self.view() == tab_spec(v, ns));
            }
        }
    }

    /// Run the input line: echo it, record it, and hand it to the shell.
    /// A request for the machine comes back for the caller to carry out.
    fn submit(&mut self, fs: &mut FileSystem, response: &mut AppResponse) -> (request: Option<Request>)
        requires
            old(self).ready(),
            old(fs).wf(),
        ensures
            final(self).ready(),
            final(fs).wf(),
            final(self).view().input.len() == 0,
            final(self).view().caret == 0,
            final(self).view().history_index is None,
            final(self).view().scroll == 0,
    {
        let mut input: Vec<char> = Vec::new();
        std::mem::swap(&mut input, &mut self.input);
        self.caret = 0;
        self.history_index = None;
        self.scroll = 0;
        let mut echo: Vec<char> = Vec::new();
        push_str(&mut echo, "halcyon> ");
        let mut i: usize = 0;
        while i < input.len()
            invariant
                i <= input@.len(),
            decreases input@.len() - i,
        {
            echo.push(input[i]);
            i += 1;
        }
        self.push(Line { text: string_of(echo.as_slice()), color: AMBER });
        let text = string_of(input.as_slice());
        let t = crate::text::trim(text.as_str());
        let tc = crate::text::chars_of(t);
        if tc.len() > 0 {
            // Avoid stacking identical consecutive entries in the history.
            let repeat = match self.history.last() {
                Some(last) => same_chars(last.as_slice(), input.as_slice()),
                None => false,
            };
            if !repeat {
                self.history.push(input);
            }
        }
        let mut effects = ShellEffects::new();
        let outcome = self.shell.execute(text.as_str(), &mut effects, fs);
        let request = match outcome {
            Outcome::Lines(produced) => {
                self.push_lines(produced);
                None
            },
            Outcome::Machine(r) => Some(r),
        };
        if effects.clear {
            self.lines = Vec::new();
        }
        if let Some(name) = effects.launch {
            response.launch = Some(name);
        }
        if effects.close {
            response.close = true;
        }
        let mut k: usize = 0;
        while k < effects.sound.len()
            invariant
                k <= effects.sound@.len(),
            decreases effects.sound@.len() - k,
        {
            response.sound.push(effects.sound[k]);
            k += 1;
        }
        request
    }

    /// React to a key. `now` is the timer count the caret blink restarts
    /// from; `fs` is the store the shell's file commands work on.
    pub fn on_key(&mut self, event: &KeyEvent, now: u64, fs: &mut FileSystem, response: &mut AppResponse) -> (request: Option<Request>)
        requires
            old(self).ready(),
            old(fs).wf(),
        ensures
            final(self).ready(),
            final(fs).wf(),
            !event.pressed ==> final(self).view() == old(self).view() && request is None,
            event.pressed && event.key != Key::Enter ==> request is None && final(fs).view() == old(fs).view(),
            event.pressed && event.key != Key::Enter && event.key != Key::Tab ==> final(self).view() == edit_spec(
                TermView { dirty: true, blink_on: true, last_blink: now, ..old(self).view() }, *event, Seq::empty()),
            event.pressed && event.key == Key::Tab ==> exists|names: Seq<Seq<char>>|
                names.to_set() == visible(old(self).shell_spec().interpreter.global.view(), 0)
                && sorted_names(names)
                && final(self).view() == tab_spec(
                    TermView { dirty: true, blink_on: true, last_blink: now, ..old(self).view() }, names),
            event.pressed && event.key == Key::Enter ==> final(self).view().input.len() == 0
                && final(self).view().caret == 0 && final(self).view().history_index is None,
    {
        if !event.pressed {
            return None;
        }
        self.dirty = true;
        self.blink_on = true;
        self.last_blink = now;
        match event.key {
            Key::Enter => {
                return self.submit(fs, response);
            },
            Key::Backspace => {
                if self.caret > 0 {
                    self.caret = self.caret - 1;
                    self.input.remove(self.caret);
                }
            },
            Key::Delete => {
                if self.caret < self.input.len() {
                    self.input.remove(self.caret);
                }
            },
            Key::Left => {
                self.caret = if self.caret >= 1 { self.caret - 1 } else { 0 };
            },
            Key::Right => {
                self.caret = if self.caret < self.input.len() { self.caret + 1 } else { self.input.len() };
            },
            Key::Home => {
                self.caret = 0;
            },
            Key::End => {
                self.caret = self.input.len();
            },
            Key::Up => self.recall(true),
            Key::Down => self.recall(false),
            Key::PageUp => {
                let n = self.lines.len();
                self.scroll = if self.scroll < n && n - self.scroll > 8 { self.scroll + 8 } else { n };
            },
            Key::PageDown => {
                self.scroll = if self.scroll >= 8 { self.scroll - 8 } else { 0 };
            },
            Key::Escape => self.clear_input(),
            Key::Tab => {
                self.complete();
                return None;
            },
            Key::Char => {
                if let Some(ch) = event.character {
                    if event.modifiers.ctrl {
                        if ch == 'l' {
                            self.lines = Vec::new();
                            proof {
                                assert(lines_view(self.lines@) =~= Seq::<LineView>::empty());
                            }
                        } else if ch == 'c' {
                            self.clear_input();
                            self.push(Line::new("^C", TEXT_DIM));
                        } else if ch == 'a' {
                            self.caret = 0;
                        } else if ch == 'e' {
                            self.caret = self.input.len();
                        } else if ch == 'u' {
                            self.clear_input();
                        }
                        return None;
                    }
                    self.input.insert(self.caret, ch);
                    let n = self.input.len();
                    proof {
                        assert(self.caret < n);
                    }
                    self.caret = self.caret + 1;
                }
            },
            _ => {},
        }
        None
    }

    /// The caret blinks every half second of timer counts.
    pub fn tick(&mut self, ticks: u64)
        ensures
            final(self).shell_spec() == old(self).shell_spec(),
            ({
                let v = old(self).view();
                let elapsed = if ticks >= v.last_blink { ticks - v.last_blink } else { 0 };
                final(self).view() == if elapsed > 500 {
                    TermView { last_blink: ticks, blink_on: !v.blink_on, dirty: true, ..v }
                } else {
                    v
                }
            }),
    {
        if ticks.saturating_sub(self.last_blink) > 500 {
            self.last_blink = ticks;
            self.blink_on = !self.blink_on;
            self.dirty = true;
        }
    }

    pub fn dirty(&self) -> (d: bool)
        ensures
            d == self.view().dirty,
    {
        self.dirty
    }

    pub fn clear_dirty(&mut self)
        ensures
            final(self).view() == (TermView { dirty: false, ..old(self).view() }),
            final(self).shell_spec() == old(self).shell_spec(),
    {
        self.dirty = false;
    }

    pub fn min_size(&self) -> (r: (i32, i32))
        ensures
            r == (420i32, 220i32),
    {
        (420, 220)
    }

    /// The scrollback, oldest first.
    pub fn lines(&self) -> (r: &Vec<Line>)
        ensures
            lines_view(r@) == self.view().lines,
    {
        &self.lines
    }

    /// The line being typed.
    pub fn input(&self) -> (r: String)
        ensures
            r@ == self.view().input,
    {
        string_of(self.input.as_slice())
    }
}

/// Are the two character sequences the same?
fn same_chars(a: &[char], b: &[char]) -> (r: bool)
    ensures
        r == (a@ == b@),
{
    if a.len() != b.len() {
        return false;
    }
    let mut i: usize = 0;
    while i < a.len()
        invariant
            i <= a@.len() == b@.len(),
            forall|j: int| 0 <= j < i ==> a@[j] == b@[j],
        decreases a@.len() - i,
    {
        if a[i] != b[i] {
            return false;
        }
        i += 1;
    }
    proof {
        assert(a@ =~= b@);
    }
    true
}

} // verus!
