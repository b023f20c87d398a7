//! A small text editor over the RAM filesystem.
//!
//! The buffer is a list of lines of characters with a cursor that always
//! sits on a line, at or before its end. The filesystem it loads from and
//! saves to, and the timer count the caret blinks by, are handed in.

use vstd::prelude::*;

verus! {

use vstd::utf8::{valid_utf8, decode_utf8, encode_utf8};
use crate::text::{chars_of, dec_str, push_dec, push_str, string_of, utf8};
use crate::fs::{FileSystem, FileView, norm_path};
use crate::input::{Key, KeyEvent};
use crate::apps::{WindowMouse, CELL_H, CELL_W};
use crate::apps::shell::{right_aligned, push_right, push_dec_wide};
use crate::gfx::draw::{Rect, Surface};
use crate::gfx::font::{Font, Weight};
use crate::gfx::palette::{AMBER, AMBER_DIM, BORDER, CYAN_DIM, TEXT_BRIGHT, TEXT_FAINT};
use crate::gfx::scene::{Op, Paint, op_view, ops_view, lemma_ops_push, paint, run};

/// Columns reserved for line numbers.
pub const GUTTER: i32 = 5;

/// How many rows the cursor is kept within after a key.
pub const SCROLL_ROWS: usize = 20;

// ---------------------------------------------------------------------
// Text to lines and back.
// ---------------------------------------------------------------------

/// The first newline at or after `i`, or the length.
pub open spec fn line_end(s: Seq<char>, i: int) -> int
    decreases s.len() - i,
{
    if i < 0 || i >= s.len() || s[i] == '\n' { i } else { line_end(s, i + 1) }
}

/// The lines of `s` from index `i` on, as `str::lines` splits them: at
/// each newline, dropping a carriage return just before it; a last line
/// with no newline after it is kept as it is, and a final newline starts
/// no empty line.
pub open spec fn lines_from(s: Seq<char>, i: int) -> Seq<Seq<char>>
    decreases s.len() - i,
{
    if i < 0 || i >= s.len() {
        Seq::empty()
    } else {
        proof {
            lemma_line_end_bounds(s, i);
        }
        let j = line_end(s, i);
        let piece = s.subrange(i, j);
        let line = if j < s.len() && piece.len() > 0 && piece.last() == '\r' { piece.drop_last() } else { piece };
        if j < s.len() { seq![line] + lines_from(s, j + 1) } else { seq![line] }
    }
}

pub open spec fn text_lines(s: Seq<char>) -> Seq<Seq<char>> {
    lines_from(s, 0)
}

/// The bytes a buffer is saved as: each line in UTF-8 and a newline.
pub open spec fn saved_bytes(lines: Seq<Seq<char>>) -> Seq<u8>
    decreases lines.len(),
{
    if lines.len() == 0 {
        Seq::empty()
    } else {
        saved_bytes(lines.drop_last()) + encode_utf8(lines.last()) + seq![10u8]
    }
}

pub proof fn lemma_line_end_bounds(s: Seq<char>, i: int)
    requires
        0 <= i <= s.len(),
    ensures
        i <= line_end(s, i) <= s.len(),
    decreases s.len() - i,
{
    if i < s.len() && s[i] != '\n' {
        lemma_line_end_bounds(s, i + 1);
    }
}

/// Split text into lines.
pub fn split_text_lines(s: &[char]) -> (lines: Vec<Vec<char>>)
    ensures
        lines@.map_values(|l: Vec<char>| l@) == text_lines(s@),
{
    let mut lines: Vec<Vec<char>> = Vec::new();
    let mut current: Vec<char> = Vec::new();
    let mut start: usize = 0;
    let mut i: usize = 0;
    proof {
        lemma_line_end_bounds(s@, 0);
    }
    while i < s.len()
        invariant
            start <= i <= s@.len(),
            current@ == s@.subrange(start as int, i as int),
            line_end(s@, start as int) == line_end(s@, i as int),
            lines@.map_values(|l: Vec<char>| l@) + lines_from(s@, start as int) == text_lines(s@),
        decreases s@.len() - i,
    {
        let c = s[i];
        if c == '\n' {
            let ghost piece = current@;
            let n = current.len();
            if n > 0 && current[n - 1] == '\r' {
                current.pop();
            }
            let ghost before = lines@.map_values(|l: Vec<char>| l@);
            proof {
                assert(line_end(s@, i as int) == i);
                let line = if piece.len() > 0 && piece.last() == '\r' { piece.drop_last() } else { piece };
                assert(current@ =~= line);
                assert(lines_from(s@, start as int) == seq![line] + lines_from(s@, i + 1));
            }
            lines.push(current);
            current = Vec::new();
            start = i + 1;
            proof {
                assert(lines@.map_values(|l: Vec<char>| l@) =~= before.push(lines@.last()@));
                assert(before.push(lines@.last()@) + lines_from(s@, start as int)
                    =~= before + (seq![lines@.last()@] + lines_from(s@, start as int)));
                assert(current@ =~= s@.subrange(start as int, start as int));
            }
        } else {
            current.push(c);
            proof {
                assert(current@ =~= s@.subrange(start as int, i + 1));
            }
        }
        i += 1;
    }
    if start < s.len() {
        let ghost before = lines@.map_values(|l: Vec<char>| l@);
        proof {
            assert(line_end(s@, start as int) == s@.len());
            assert(lines_from(s@, start as int) == seq![current@]);
        }
        lines.push(current);
        proof {
            assert(lines@.map_values(|l: Vec<char>| l@) =~= before.push(current@));
            assert(before + seq![current@] =~= before.push(current@));
        }
    } else {
        proof {
            assert(lines@.map_values(|l: Vec<char>| l@) + lines_from(s@, start as int)
                =~= lines@.map_values(|l: Vec<char>| l@));
        }
    }
    lines
}

// ---------------------------------------------------------------------
// The editor.
// ---------------------------------------------------------------------

pub struct EditorView {
    pub path: Seq<char>,
    pub lines: Seq<Seq<char>>,
    pub row: nat,
    pub column: nat,
    pub scroll: nat,
    pub modified: bool,
    pub message: Seq<char>,
    pub dirty: bool,
    pub blink: bool,
    pub last_blink: u64,
}

impl EditorView {
    /// The cursor is on a line, at or before its end, and the first row
    /// shown is not below it.
    pub open spec fn wf(self) -> bool {
        &&& self.cursor_ok()
        &&& self.scroll <= self.row
    }

    /// The cursor is on a line, at or before its end.
    pub open spec fn cursor_ok(self) -> bool {
        &&& self.lines.len() >= 1
        &&& self.row < self.lines.len()
        &&& self.column <= self.lines[self.row as int].len()
    }

    /// The counts stay clear of the top of `usize`.
    pub open spec fn room(self) -> bool {
        &&& self.lines.len() + 20 <= usize::MAX
        &&& self.lines[self.row as int].len() + 4 <= usize::MAX
    }

    pub open spec fn line(self) -> Seq<char> {
        self.lines[self.row as int]
    }
}

/// A fresh editor before anything is loaded.
pub open spec fn blank() -> EditorView {
    EditorView {
        path: "/home/notes.txt"@,
        lines: seq![Seq::<char>::empty()],
        row: 0,
        column: 0,
        scroll: 0,
        modified: false,
        message: Seq::empty(),
        dirty: true,
        blink: true,
        last_blink: 0,
    }
}

pub struct Editor {
    path: String,
    lines: Vec<Vec<char>>,
    row: usize,
    column: usize,
    scroll: usize,
    modified: bool,
    message: Vec<char>,
    dirty: bool,
    blink: bool,
    last_blink: u64,
}

/// Open `path`: its lines, or one empty line for a file that is not there
/// yet; the cursor goes to the top.
pub open spec fn load_spec(v: EditorView, files: Map<Seq<char>, FileView>, path: Seq<char>) -> EditorView {
    let key = norm_path(path);
    let (lines, message) = if files.dom().contains(key) {
        let data = files[key].0;
        let text = if valid_utf8(data) { decode_utf8(data) } else { "<binary file>"@ };
        let found = text_lines(text);
        let lines = if found.len() == 0 { seq![Seq::<char>::empty()] } else { found };
        (lines, "opened "@ + path + " ("@ + dec_str(lines.len()) + " lines)"@)
    } else {
        (seq![Seq::<char>::empty()], path + " is new"@)
    };
    EditorView { path, lines, message, row: 0, column: 0, scroll: 0, modified: false, dirty: true, ..v }
}

/// Write the buffer to its path; the message says how it went.
pub open spec fn save_spec(v: EditorView, files: Map<Seq<char>, FileView>) -> (EditorView, Map<Seq<char>, FileView>) {
    let data = saved_bytes(v.lines);
    if norm_path(v.path) == crate::fs::root_path() {
        (EditorView { message: "save failed: "@ + "cannot write to the root"@, ..v }, files)
    } else {
        (EditorView {
            modified: false,
            message: "saved "@ + v.path + " ("@ + dec_str(data.len()) + " bytes)"@,
            ..v
        }, files.insert(norm_path(v.path), (data, false)))
    }
}

pub open spec fn min_nat(a: nat, b: nat) -> nat {
    if a < b { a } else { b }
}

/// Keep the cursor's row within `rows` rows of the first one shown.
pub open spec fn scrolled(v: EditorView, rows: nat) -> EditorView {
    if v.row < v.scroll {
        EditorView { scroll: v.row, ..v }
    } else if v.row >= v.scroll + rows {
        EditorView { scroll: (v.row - rows + 1) as nat, ..v }
    } else {
        v
    }
}

pub open spec fn set_line(v: EditorView, line: Seq<char>) -> Seq<Seq<char>> {
    v.lines.update(v.row as int, line)
}

/// What a key does to the buffer and cursor, before scrolling.
pub open spec fn edit_spec(v: EditorView, e: KeyEvent) -> EditorView {
    let line = v.line();
    let c = v.column;
    match e.key {
        Key::Char => {
            let ch = e.character->Some_0;
            EditorView {
                lines: set_line(v, line.insert(c as int, ch)),
                column: c + 1,
                modified: true,
                ..v
            }
        },
        Key::Enter => EditorView {
            lines: set_line(v, line.take(c as int)).insert(v.row as int + 1, line.skip(c as int)),
            row: v.row + 1,
            column: 0,
            modified: true,
            ..v
        },
        Key::Backspace => if c > 0 {
            EditorView { lines: set_line(v, line.remove(c - 1)), column: (c - 1) as nat, modified: true, ..v }
        } else if v.row > 0 {
            let prev = v.lines[v.row - 1];
            EditorView {
                lines: v.lines.remove(v.row as int).update(v.row - 1, prev + line),
                row: (v.row - 1) as nat,
                column: prev.len(),
                modified: true,
                ..v
            }
        } else {
            v
        },
        Key::Delete => if c < line.len() {
            EditorView { lines: set_line(v, line.remove(c as int)), modified: true, ..v }
        } else if v.row + 1 < v.lines.len() {
            EditorView {
                lines: set_line(v, line + v.lines[v.row as int + 1]).remove(v.row as int + 1),
                modified: true,
                ..v
            }
        } else {
            v
        },
        Key::Left => if c > 0 {
            EditorView { column: (c - 1) as nat, ..v }
        } else if v.row > 0 {
            EditorView { row: (v.row - 1) as nat, column: v.lines[v.row - 1].len(), ..v }
        } else {
            v
        },
        Key::Right => if c < line.len() {
            EditorView { column: c + 1, ..v }
        } else if v.row + 1 < v.lines.len() {
            EditorView { row: v.row + 1, column: 0, ..v }
        } else {
            v
        },
        Key::Up => if v.row > 0 {
            EditorView { row: (v.row - 1) as nat, column: min_nat(c, v.lines[v.row - 1].len()), ..v }
        } else {
            v
        },
        Key::Down => if v.row + 1 < v.lines.len() {
            EditorView { row: v.row + 1, column: min_nat(c, v.lines[v.row as int + 1].len()), ..v }
        } else {
            v
        },
        Key::Home => EditorView { column: 0, ..v },
        Key::End => EditorView { column: line.len(), ..v },
        Key::Tab => EditorView {
            lines: set_line(v, line.take(c as int) + "    "@ + line.skip(c as int)),
            column: c + 4,
            modified: true,
            ..v
        },
        Key::PageUp => {
            let r: nat = if v.row >= 10 { (v.row - 10) as nat } else { 0 };
            EditorView { row: r, column: min_nat(c, v.lines[r as int].len()), ..v }
        },
        Key::PageDown => {
            let r = min_nat(v.row + 10, (v.lines.len() - 1) as nat);
            EditorView { row: r, column: min_nat(c, v.lines[r as int].len()), ..v }
        },
        _ => v,
    }
}

/// A key, start to finish: the buffer and the files afterwards.
pub open spec fn key_spec(v: EditorView, e: KeyEvent, now: u64, files: Map<Seq<char>, FileView>) -> (EditorView, Map<Seq<char>, FileView>) {
    if !e.pressed {
        (v, files)
    } else {
        let w = EditorView { dirty: true, blink: true, last_blink: now, ..v };
        if e.key == Key::Char && e.character is None {
            (w, files)
        } else if e.key == Key::Char && e.modifiers.ctrl {
            let ch = e.character->Some_0;
            if ch == 's' {
                save_spec(w, files)
            } else if ch == 'o' {
                (load_spec(w, files, w.path), files)
            } else {
                (w, files)
            }
        } else {
            (scrolled(edit_spec(w, e), SCROLL_ROWS as nat), files)
        }
    }
}

/// The row and column under a point in the window.
pub open spec fn mouse_row(y: int) -> nat {
    if y - 4 < 0 { 0 } else { ((y - 4) / CELL_H as int) as nat }
}

pub open spec fn mouse_column(x: int) -> nat {
    let off = x - GUTTER * CELL_W - 6;
    if off < 0 { 0 } else { (off / CELL_W as int) as nat }
}

pub open spec fn mouse_spec(v: EditorView, e: WindowMouse) -> EditorView {
    if !e.pressed {
        v
    } else {
        let row = mouse_row(e.y as int) + v.scroll;
        if row < v.lines.len() {
            EditorView {
                row: row as nat,
                column: min_nat(mouse_column(e.x as int), v.lines[row as int].len()),
                dirty: true,
                ..v
            }
        } else {
            v
        }
    }
}

pub open spec fn tick_spec(v: EditorView, ticks: u64) -> EditorView {
    let elapsed = if ticks >= v.last_blink { ticks - v.last_blink } else { 0 };
    if elapsed > 500 {
        EditorView { last_blink: ticks, blink: !v.blink, dirty: true, ..v }
    } else {
        v
    }
}

/// A key event; `edit_spec` reads only its key.
pub open spec fn arbitrary_event() -> KeyEvent {
    KeyEvent { key: Key::Escape, character: None, pressed: true, modifiers: crate::input::Modifiers { shift: false, ctrl: false, alt: false, caps: false } }
}

fn append(out: &mut Vec<char>, tail: &[char])
    ensures
        final(out)@ == old(out)@ + tail@,
{
    let ghost start = out@;
    let mut i: usize = 0;
    while i < tail.len()
        invariant
            i <= tail@.len(),
            out@ == start + tail@.take(i as int),
        decreases tail@.len() - i,
    {
        out.push(tail[i]);
        i += 1;
        proof {
            assert(out@ =~= start + tail@.take(i as int));
        }
    }
    proof {
        assert(tail@.take(tail@.len() as int) =~= tail@);
    }
}

impl Editor {
    pub closed spec fn view(&self) -> EditorView {
        EditorView {
            path: self.path@,
            lines: self.lines@.map_values(|l: Vec<char>| l@),
            row: self.row as nat,
            column: self.column as nat,
            scroll: self.scroll as nat,
            modified: self.modified,
            message: self.message@,
            dirty: self.dirty,
            blink: self.blink,
            last_blink: self.last_blink,
        }
    }

    /// An editor on the notes file.
    pub fn new(fs: &FileSystem) -> (e: Editor)
        requires
            fs.wf(),
        ensures
            e.view().wf(),
            e.view() == load_spec(blank(), fs.view(), "/home/notes.txt"@),
    {
        let mut lines: Vec<Vec<char>> = Vec::new();
        lines.push(Vec::new());
        let mut editor = Editor {
            path: "/home/notes.txt".to_owned(),
            lines,
            row: 0,
            column: 0,
            scroll: 0,
            modified: false,
            message: Vec::new(),
            dirty: true,
            blink: true,
            last_blink: 0,
        };
        proof {
            reveal_strlit("/home/notes.txt");
            assert(editor.view().lines =~= seq![Seq::<char>::empty()]);
            assert(editor.view() == blank());
        }
        editor.load(fs, "/home/notes.txt");
        editor
    }

    /// An editor on `path`.
    pub fn open(fs: &FileSystem, path: &str) -> (e: Editor)
        requires
            fs.wf(),
        ensures
            e.view().wf(),
            e.view() == load_spec(blank(), fs.view(), path@),
    {
        let mut editor = Self::new(fs);
        editor.load(fs, path);
        editor
    }

    fn load(&mut self, fs: &FileSystem, path: &str)
        requires
            fs.wf(),
        ensures
            final(self).view() == load_spec(old(self).view(), fs.view(), path@),
            final(self).view().wf(),
    {
        proof {
            reveal_strlit("<binary file>");
        }
        match fs.read(path) {
            Some(file) => {
                let text: &str = match utf8(file.data.as_slice()) {
                    Some(t) => t,
                    None => "<binary file>",
                };
                let chars = chars_of(text);
                let mut lines = split_text_lines(chars.as_slice());
                if lines.len() == 0 {
                    lines.push(Vec::new());
                    proof {
                        assert(lines@.map_values(|l: Vec<char>| l@) =~= seq![Seq::<char>::empty()]);
                    }
                }
                let mut message: Vec<char> = Vec::new();
                push_str(&mut message, "opened ");
                push_str(&mut message, path);
                push_str(&mut message, " (");
                push_dec(&mut message, lines.len() as u64);
                push_str(&mut message, " lines)");
                self.lines = lines;
                self.message = message;
            },
            None => {
                let mut lines: Vec<Vec<char>> = Vec::new();
                lines.push(Vec::new());
                let mut message: Vec<char> = Vec::new();
                push_str(&mut message, path);
                push_str(&mut message, " is new");
                proof {
                    assert(lines@.map_values(|l: Vec<char>| l@) =~= seq![Seq::<char>::empty()]);
                }
                self.lines = lines;
                self.message = message;
            },
        }
        self.path = path.to_owned();
        self.row = 0;
        self.column = 0;
        self.scroll = 0;
        self.modified = false;
        self.dirty = true;
    }

    fn save(&mut self, fs: &mut FileSystem)
        requires
            old(fs).wf(),
        ensures
            final(fs).wf(),
            (final(self).view(), final(fs).view()) == save_spec(old(self).view(), old(fs).view()),
    {
        let mut data: Vec<u8> = Vec::new();
        let mut i: usize = 0;
        while i < self.lines.len()
            invariant
                i <= self.lines@.len(),
                data@ == saved_bytes(self.view().lines.take(i as int)),
            decreases self.lines@.len() - i,
        {
            let text = string_of(self.lines[i].as_slice());
            let bytes = text.as_str().as_bytes();
            let ghost before = data@;
            let mut k: usize = 0;
            while k < bytes.len()
                invariant
                    k <= bytes@.len(),
                    data@ == before + bytes@.take(k as int),
                decreases bytes@.len() - k,
            {
                data.push(bytes[k]);
                k += 1;
                proof {
                    assert(data@ =~= before + bytes@.take(k as int));
                }
            }
            data.push(10u8);
            proof {
                let ls = self.view().lines;
                assert(ls.take(i + 1).drop_last() =~= ls.take(i as int));
                assert(ls.take(i + 1).last() == self.lines@[i as int]@);
                assert(bytes@.take(bytes@.len() as int) =~= bytes@);
                assert(data@ =~= saved_bytes(ls.take(i + 1)));
            }
            i += 1;
        }
        proof {
            assert(self.view().lines.take(self.lines@.len() as int) =~= self.view().lines);
        }
        let length = data.len();
        match fs.write(self.path.as_str(), data) {
            Ok(()) => {
                self.modified = false;
                let mut message: Vec<char> = Vec::new();
                push_str(&mut message, "saved ");
                push_str(&mut message, self.path.as_str());
                push_str(&mut message, " (");
                push_dec(&mut message, length as u64);
                push_str(&mut message, " bytes)");
                self.message = message;
            },
            Err(error) => {
                let mut message: Vec<char> = Vec::new();
                push_str(&mut message, "save failed: ");
                push_str(&mut message, error);
                self.message = message;
            },
        }
    }

    fn current_len(&self) -> (n: usize)
        requires
            self.row < self.lines@.len(),
        ensures
            n == self.view().lines[self.row as int].len(),
    {
        self.lines[self.row].len()
    }

    fn line_len(&self, row: usize) -> (n: usize)
        requires
            row < self.lines@.len(),
        ensures
            n == self.view().lines[row as int].len(),
    {
        self.lines[row].len()
    }

    fn scroll_to_cursor(&mut self, rows: usize)
        requires
            old(self).row + rows <= usize::MAX,
            rows >= 1,
        ensures
            final(self).view() == scrolled(old(self).view(), rows as nat),
    {
        if self.row < self.scroll {
            self.scroll = self.row;
        } else if self.row >= self.scroll + rows {
            self.scroll = self.row - rows + 1;
        }
    }

    /// Replace the current line.
    fn put_line(&mut self, line: Vec<char>)
        requires
            old(self).row < old(self).lines@.len(),
        ensures
            final(self).view() == (EditorView { lines: old(self).view().lines.update(old(self).row as int, line@), ..old(self).view() }),
    {
        let row = self.row;
        self.lines.remove(row);
        self.lines.insert(row, line);
        proof {
            assert(self.lines@.map_values(|l: Vec<char>| l@)
                =~= old(self).view().lines.update(row as int, line@));
        }
    }

    /// Take a copy of the current line.
    fn line_copy(&self, row: usize) -> (l: Vec<char>)
        requires
            row < self.lines@.len(),
        ensures
            l@ == self.view().lines[row as int],
    {
        let mut l: Vec<char> = Vec::new();
        append(&mut l, self.lines[row].as_slice());
        proof {
            assert(l@ =~= self.lines@[row as int]@);
        }
        l
    }

    fn insert_char(&mut self, ch: char)
        requires
            old(self).view().wf(),
            old(self).view().room(),
        ensures
            final(self).view() == ({
                let v = old(self).view();
                EditorView { lines: set_line(v, v.line().insert(v.column as int, ch)), column: v.column + 1, modified: true, ..v }
            }),
            final(self).view().cursor_ok(),
    {
        let mut line = self.line_copy(self.row);
        line.insert(self.column, ch);
        let ghost n = line@.len();
        self.put_line(line);
        proof {
            assert(self.view().lines[self.row as int].len() == n);
        }
        self.column = self.column + 1;
        self.modified = true;
    }

    fn split_line(&mut self)
        requires
            old(self).view().wf(),
            old(self).view().room(),
        ensures
            final(self).view() == ({
                let v = old(self).view();
                let line = v.line();
                EditorView {
                    lines: set_line(v, line.take(v.column as int)).insert(v.row as int + 1, line.skip(v.column as int)),
                    row: v.row + 1,
                    column: 0,
                    modified: true,
                    ..v
                }
            }),
            final(self).view().cursor_ok(),
    {
        let ghost v = self.view();
        let mut line = self.line_copy(self.row);
        let tail = line.split_off(self.column);
        self.put_line(line);
        let row = self.row;
        self.lines.insert(row + 1, tail);
        proof {
            assert(self.lines@.map_values(|l: Vec<char>| l@)
                =~= set_line(v, v.line().take(v.column as int)).insert(v.row as int + 1, v.line().skip(v.column as int)));
        }
        self.row = self.row + 1;
        self.column = 0;
        self.modified = true;
    }

    fn backspace(&mut self)
        requires
            old(self).view().wf(),
            old(self).view().room(),
        ensures
            final(self).view() == edit_spec(old(self).view(), KeyEvent { key: Key::Backspace, ..arbitrary_event() }),
            final(self).view().cursor_ok(),
    {
        let ghost v = self.view();
        if self.column > 0 {
            self.column = self.column - 1;
            let mut line = self.line_copy(self.row);
            line.remove(self.column);
            self.put_line(line);
            self.modified = true;
        } else if self.row > 0 {
            let row = self.row;
            let current = self.lines.remove(row);
            self.row = row - 1;
            self.column = self.current_len();
            let mut prev = self.line_copy(self.row);
            append(&mut prev, current.as_slice());
            self.put_line(prev);
            proof {
                assert(self.lines@.map_values(|l: Vec<char>| l@)
                    =~= v.lines.remove(v.row as int).update(v.row - 1, v.lines[v.row - 1] + v.line()));
            }
            self.modified = true;
        }
    }

    fn delete(&mut self)
        requires
            old(self).view().wf(),
            old(self).view().room(),
        ensures
            final(self).view() == edit_spec(old(self).view(), KeyEvent { key: Key::Delete, ..arbitrary_event() }),
            final(self).view().cursor_ok(),
    {
        let ghost v = self.view();
        let n = self.current_len();
        if self.column < n {
            let mut line = self.line_copy(self.row);
            line.remove(self.column);
            self.put_line(line);
            self.modified = true;
        } else if self.row + 1 < self.lines.len() {
            let next = self.lines.remove(self.row + 1);
            let mut line = self.line_copy(self.row);
            append(&mut line, next.as_slice());
            self.put_line(line);
            proof {
                assert(self.lines@.map_values(|l: Vec<char>| l@)
                    =~= set_line(v, v.line() + v.lines[v.row as int + 1]).remove(v.row as int + 1));
            }
            self.modified = true;
        }
    }

    fn indent(&mut self)
        requires
            old(self).view().wf(),
            old(self).view().room(),
        ensures
            final(self).view() == edit_spec(old(self).view(), KeyEvent { key: Key::Tab, ..arbitrary_event() }),
            final(self).view().cursor_ok(),
    {
        proof {
            reveal_strlit("    ");
        }
        let line = self.line_copy(self.row);
        let mut out: Vec<char> = Vec::new();
        let mut i: usize = 0;
        while i < self.column
            invariant
                i <= self.column <= line@.len(),
                out@ == line@.take(i as int),
            decreases self.column - i,
        {
            out.push(line[i]);
            i += 1;
            proof {
                assert(out@ =~= line@.take(i as int));
            }
        }
        push_str(&mut out, "    ");
        let mut j: usize = self.column;
        let ghost before = out@;
        while j < line.len()
            invariant
                self.column <= j <= line@.len(),
                out@ == before + line@.subrange(self.column as int, j as int),
            decreases line@.len() - j,
        {
            out.push(line[j]);
            j += 1;
            proof {
                assert(out@ =~= before + line@.subrange(self.column as int, j as int));
            }
        }
        proof {
            assert(out@ =~= line@.take(self.column as int) + "    "@ + line@.skip(self.column as int));
        }
        self.put_line(out);
        self.column = self.column + 4;
        self.modified = true;
    }

    fn move_cursor(&mut self, key: Key)
        requires
            old(self).view().wf(),
            old(self).view().room(),
            key != Key::Char && key != Key::Enter && key != Key::Backspace && key != Key::Delete && key != Key::Tab,
        ensures
            final(self).view() == edit_spec(old(self).view(), KeyEvent { key, ..arbitrary_event() }),
            final(self).view().cursor_ok(),
    {
        match key {
            Key::Left => {
                if self.column > 0 {
                    self.column = self.column - 1;
                } else if self.row > 0 {
                    self.row = self.row - 1;
                    self.column = self.current_len();
                }
            },
            Key::Right => {
                if self.column < self.current_len() {
                    self.column = self.column + 1;
                } else if self.row + 1 < self.lines.len() {
                    self.row = self.row + 1;
                    self.column = 0;
                }
            },
            Key::Up => {
                if self.row > 0 {
                    self.row = self.row - 1;
                    let n = self.current_len();
                    self.column = if self.column < n { self.column } else { n };
                }
            },
            Key::Down => {
                if self.row + 1 < self.lines.len() {
                    self.row = self.row + 1;
                    let n = self.current_len();
                    self.column = if self.column < n { self.column } else { n };
                }
            },
            Key::Home => {
                self.column = 0;
            },
            Key::End => {
                self.column = self.current_len();
            },
            Key::PageUp => {
                self.row = if self.row >= 10 { self.row - 10 } else { 0 };
                let n = self.current_len();
                self.column = if self.column < n { self.column } else { n };
            },
            Key::PageDown => {
                let last = self.lines.len() - 1;
                self.row = if self.row + 10 < last { self.row + 10 } else { last };
                let n = self.current_len();
                self.column = if self.column < n { self.column } else { n };
            },
            _ => {},
        }
    }

    fn edit(&mut self, event: &KeyEvent)
        requires
            old(self).view().wf(),
            old(self).view().room(),
            event.key == Key::Char ==> event.character is Some,
        ensures
            final(self).view() == edit_spec(old(self).view(), *event),
            final(self).view().cursor_ok(),
    {
        match event.key {
            Key::Char => {
                let ch = match event.character {
                    Some(c) => c,
                    None => ' ',
                };
                self.insert_char(ch);
            },
            Key::Enter => self.split_line(),
            Key::Backspace => self.backspace(),
            Key::Delete => self.delete(),
            Key::Tab => self.indent(),
            _ => self.move_cursor(event.key),
        }
    }

    /// React to a key. `now` is the timer count the caret blink restarts
    /// from; `fs` is where ctrl+s saves and ctrl+o reloads.
    pub fn on_key(&mut self, event: &KeyEvent, now: u64, fs: &mut FileSystem)
        requires
            old(self).view().wf(),
            old(self).view().room(),
            old(fs).wf(),
        ensures
            final(self).view().wf(),
            final(fs).wf(),
            (final(self).view(), final(fs).view()) == key_spec(old(self).view(), *event, now, old(fs).view()),
    {
        if !event.pressed {
            return;
        }
        self.dirty = true;
        self.blink = true;
        self.last_blink = now;
        if event.key == Key::Char {
            match event.character {
                None => {
                    return;
                },
                Some(ch) => {
                    if event.modifiers.ctrl {
                        if ch == 's' {
                            self.save(fs);
                        } else if ch == 'o' {
                            let path = self.path.clone();
                            proof {
                                assert(path@ == self.path@);
                            }
                            self.load(fs, path.as_str());
                        }
                        return;
                    }
                },
            }
        }
        self.edit(event);
        self.scroll_to_cursor(SCROLL_ROWS);
    }

    /// A press puts the cursor at the character under the pointer.
    pub fn on_mouse(&mut self, event: &WindowMouse)
        requires
            old(self).view().wf(),
            old(self).view().room(),
            event.y >= i32::MIN + 4,
            event.x >= i32::MIN + GUTTER * CELL_W + 6,
        ensures
            final(self).view() == mouse_spec(old(self).view(), *event),
            final(self).view().wf(),
    {
        if !event.pressed {
            return;
        }
        let dy = event.y - 4;
        let down: usize = if dy < 0 { 0 } else { (dy / CELL_H) as usize };
        let sum = self.scroll.checked_add(down);
        let row: usize = match sum {
            Some(r) => r,
            None => usize::MAX,
        };
        if sum.is_some() && row < self.lines.len() {
            self.row = row;
            let dx = event.x - GUTTER * CELL_W - 6;
            let across: usize = if dx < 0 { 0 } else { (dx / CELL_W) as usize };
            let n = self.current_len();
            self.column = if across < n { across } else { n };
            self.dirty = true;
        }
    }

    /// The caret blinks every half second of timer counts.
    pub fn tick(&mut self, ticks: u64)
        ensures
            final(self).view() == tick_spec(old(self).view(), ticks),
    {
        if ticks.saturating_sub(self.last_blink) > 500 {
            self.last_blink = ticks;
            self.blink = !self.blink;
            self.dirty = true;
        }
    }

    pub fn dirty(&self) -> (d: bool)
        ensures
            d == self.view().dirty,
    {
        self.dirty
    }

    pub fn clear_dirty(&mut self)
        ensures
            final(self).view() == (EditorView { dirty: false, ..old(self).view() }),
    {
        self.dirty = false;
    }

    pub fn min_size(&self) -> (r: (i32, i32))
        ensures
            r == (420i32, 240i32),
    {
        (420, 240)
    }

    /// The buffer, line by line.
    pub fn lines(&self) -> (r: Vec<String>)
        ensures
            r@.len() == self.view().lines.len(),
            forall|i: int| 0 <= i < r@.len() ==> (#[trigger] r@[i])@ == self.view().lines[i],
    {
        let mut r: Vec<String> = Vec::new();
        let mut i: usize = 0;
        while i < self.lines.len()
            invariant
                i <= self.lines@.len(),
                r@.len() == i,
                forall|k: int| 0 <= k < i ==> (#[trigger] r@[k])@ == self.view().lines[k],
            decreases self.lines@.len() - i,
        {
            r.push(string_of(self.lines[i].as_slice()));
            i += 1;
        }
        r
    }

    /// The cursor: row and column.
    pub fn cursor(&self) -> (r: (usize, usize))
        ensures
            r.0 == self.view().row && r.1 == self.view().column,
    {
        (self.row, self.column)
    }

    /// The last message shown in the status bar.
    pub fn message(&self) -> (r: String)
        ensures
            r@ == self.view().message,
    {
        string_of(self.message.as_slice())
    }
}

// ---------------------------------------------------------------------
// What the window shows.
// ---------------------------------------------------------------------

/// Rows of text that fit a window `h` tall.
pub open spec fn editor_rows(h: int) -> int {
    let r = crate::num::quot(h - 24, CELL_H as int);
    if r > 1 { r } else { 1 }
}

/// Line `index` of the buffer, at height `y`.
pub open spec fn line_ops(v: EditorView, index: int, y: int, w: int) -> Seq<Op> {
    seq![Op::Text(right_aligned(dec_str((index + 1) as nat), 4).push(' '), 2, y as i32,
        if index == v.row { AMBER_DIM } else { TEXT_FAINT }, Weight::Regular, 1)]
        + (if index == v.row { seq![Op::Blend(Rect { x: 44, y: (y - 1) as i32, w: w as i32, h: CELL_H }, AMBER, 14)] } else { Seq::empty() })
        + seq![Op::Text(v.lines[index], 46, y as i32, TEXT_BRIGHT, Weight::Regular, 1)]
}

/// The first `k` lines shown, from the scroll position.
pub open spec fn shown_lines(v: EditorView, k: int, w: int) -> Seq<Op>
    decreases k,
{
    if k <= 0 { Seq::empty() } else { shown_lines(v, k - 1, w) + line_ops(v, v.scroll + k - 1, 4 + CELL_H * (k - 1), w) }
}

/// The caret, when the window has the focus, the caret is lit and its row
/// is on show.
pub open spec fn caret_ops(v: EditorView, focused: bool, rows: int) -> Seq<Op> {
    if focused && v.blink && v.row >= v.scroll && v.row < v.scroll + rows {
        let x = 46 + v.column * CELL_W;
        let y = 4 + (v.row - v.scroll) * CELL_H;
        seq![Op::Fill(Rect { x: x as i32, y: y as i32, w: CELL_W, h: 15 }, AMBER)]
            + if v.column < v.lines[v.row as int].len() {
                seq![Op::Text(seq![v.lines[v.row as int][v.column as int]], x as i32, y as i32, 0x0007_0A14, Weight::Regular, 1)]
            } else {
                Seq::empty()
            }
    } else {
        Seq::empty()
    }
}

/// Everything the window draws, in order, for a `w` x `h` window.
pub open spec fn editor_scene(v: EditorView, focused: bool, w: int, h: int) -> Seq<Op> {
    let rows = editor_rows(h);
    let end = if v.scroll + rows < v.lines.len() { v.scroll + rows } else { v.lines.len() as int };
    let count = if end > v.scroll { end - v.scroll } else { 0 };
    let bar_y = h - 20;
    seq![Op::Clear(0x0007_0A14), Op::Fill(Rect { x: 0, y: 0, w: 44, h: h as i32 }, 0x000B_101C)]
        + shown_lines(v, count, w)
        + caret_ops(v, focused, rows)
        + seq![
            Op::Fill(Rect { x: 0, y: bar_y as i32, w: w as i32, h: 20 }, 0x0012_1828),
            Op::HLine(0, bar_y as i32, w as i32, BORDER),
            Op::Text(v.path + (if v.modified { " *"@ } else { ""@ }) + "  "@ + dec_str(v.row + 1) + ":"@ + dec_str(v.column + 1),
                6, (bar_y + 3) as i32, AMBER, Weight::Bold, 1),
            Op::Text("ctrl+s save   ctrl+o reload"@, (w - 28 * CELL_W) as i32, (bar_y + 3) as i32, TEXT_FAINT, Weight::Regular, 1),
        ]
        + if v.message.len() > 0 {
            seq![Op::Text(v.message, 6, (bar_y - CELL_H - 2) as i32, CYAN_DIM, Weight::Regular, 1)]
        } else {
            Seq::empty()
        }
}

fn push_op(ops: &mut Vec<Paint>, p: Paint)
    ensures
        ops_view(final(ops)@) == ops_view(old(ops)@).push(op_view(p)),
{
    proof {
        lemma_ops_push(ops@, p);
    }
    ops.push(p);
}

impl Editor {
    /// Everything the window draws, for a `width` x `height` window.
    pub fn scene(&self, focused: bool, width: i32, height: i32) -> (ops: Vec<Paint>)
        requires
            self.view().wf(),
            width >= 0,
            height >= 0,
        ensures
            ops_view(ops@) == editor_scene(self.view(), focused, width as int, height as int),
    {
        let ghost v = self.view();
        let h = height as i64;
        let q = crate::num::divide(h - 24, CELL_H as i64);
        let rows: i64 = if q > 1 { q } else { 1 };
        let mut ops: Vec<Paint> = Vec::new();
        push_op(&mut ops, Paint::Clear(0x0007_0A14));
        push_op(&mut ops, Paint::Fill(Rect::new(0, 0, 44, height), 0x000B_101C));
        let ghost s1 = ops_view(ops@);
        self.push_lines(&mut ops, rows, width);
        let ghost s2 = ops_view(ops@);
        self.push_caret(&mut ops, focused, rows);
        let ghost s3 = ops_view(ops@);
        self.push_bar(&mut ops, width, height);
        proof {
            assert(ops_view(ops@) =~= editor_scene(v, focused, width as int, height as int));
        }
        ops
    }

    fn push_lines(&self, ops: &mut Vec<Paint>, rows: i64, width: i32)
        requires
            self.view().wf(),
            1 <= rows <= 0x1_0000_0000,
        ensures
            ({
                let v = self.view();
                let end = if v.scroll + rows < v.lines.len() { v.scroll + rows } else { v.lines.len() as int };
                let count = if end > v.scroll { end - v.scroll } else { 0 };
                ops_view(final(ops)@) == ops_view(old(ops)@) + shown_lines(v, count, width as int)
            }),
    {
        let ghost v = self.view();
        let ghost s1 = ops_view(ops@);
        let n = self.lines.len();
        let end: usize = if (self.scroll as i128) + (rows as i128) < n as i128 { self.scroll + rows as usize } else { n };
        let count = if end > self.scroll { end - self.scroll } else { 0 };
        let mut k: usize = 0;
        while k < count
            invariant
                v == self.view(),
                v.wf(),
                n == v.lines.len(),
                self.scroll + count <= n,
                k <= count,
                ops_view(ops@) == s1 + shown_lines(v, k as int, width as int),
            decreases count - k,
        {
            let index = self.scroll + k;
            let y_wide: i128 = 4 + 16 * (k as i128);
            let y = y_wide as i32;
            let ghost before = ops_view(ops@);
            let mut digits: Vec<char> = Vec::new();
            push_dec_wide(&mut digits, (index as u128) + 1);
            let mut number: Vec<char> = Vec::new();
            push_right(&mut number, digits.as_slice(), 4);
            number.push(' ');
            push_op(ops, Paint::Text(string_of(number.as_slice()), 2, y, if index == self.row { AMBER_DIM } else { TEXT_FAINT },
                Weight::Regular, 1));
            if index == self.row {
                push_op(ops, Paint::Blend(Rect::new(44, (y_wide - 1) as i32, width, CELL_H), AMBER, 14));
            }
            push_op(ops, Paint::Text(string_of(self.lines[index].as_slice()), 46, y, TEXT_BRIGHT, Weight::Regular, 1));
            proof {
                assert(number@ =~= right_aligned(dec_str((index + 1) as nat), 4).push(' '));
                assert(v.lines[index as int] == self.lines@[index as int]@);
                assert(ops_view(ops@) =~= before + line_ops(v, index as int, 4 + CELL_H * k, width as int));
            }
            k += 1;
        }
    }

    fn push_caret(&self, ops: &mut Vec<Paint>, focused: bool, rows: i64)
        requires
            self.view().wf(),
            1 <= rows <= 0x1_0000_0000,
        ensures
            ops_view(final(ops)@) == ops_view(old(ops)@) + caret_ops(self.view(), focused, rows as int),
    {
        let ghost v = self.view();
        if focused && self.blink && self.row >= self.scroll && (self.row as i128) < (self.scroll as i128) + (rows as i128) {
            let x = (46 + self.column as i128 * 8) as i32;
            let y = (4 + (self.row - self.scroll) as i128 * 16) as i32;
            push_op(ops, Paint::Fill(Rect::new(x, y, CELL_W, 15), AMBER));
            let line = &self.lines[self.row];
            if self.column < line.len() {
                let mut one: Vec<char> = Vec::new();
                one.push(line[self.column]);
                proof {
                    assert(v.lines[v.row as int] == line@);
                }
                push_op(ops, Paint::Text(string_of(one.as_slice()), x, y, 0x0007_0A14, Weight::Regular, 1));
            }
        }
        proof {
            assert(ops_view(ops@) =~= ops_view(old(ops)@) + caret_ops(v, focused, rows as int));
        }
    }

    fn push_bar(&self, ops: &mut Vec<Paint>, width: i32, height: i32)
        requires
            self.view().wf(),
        ensures
            ({
                let v = self.view();
                let w = width as int;
                let bar_y = height - 20;
                ops_view(final(ops)@) == ops_view(old(ops)@) + seq![
                    Op::Fill(Rect { x: 0, y: bar_y as i32, w: w as i32, h: 20 }, 0x0012_1828),
                    Op::HLine(0, bar_y as i32, w as i32, BORDER),
                    Op::Text(v.path + (if v.modified { " *"@ } else { ""@ }) + "  "@ + dec_str(v.row + 1) + ":"@ + dec_str(v.column + 1),
                        6, (bar_y + 3) as i32, AMBER, Weight::Bold, 1),
                    Op::Text("ctrl+s save   ctrl+o reload"@, (w - 28 * CELL_W) as i32, (bar_y + 3) as i32, TEXT_FAINT, Weight::Regular, 1),
                ] + if v.message.len() > 0 {
                    seq![Op::Text(v.message, 6, (bar_y - CELL_H - 2) as i32, CYAN_DIM, Weight::Regular, 1)]
                } else {
                    Seq::empty()
                }
            }),
    {
        let ghost v = self.view();
        let h = height as i64;
        let bar_y = (h - 20) as i32;
        push_op(ops, Paint::Fill(Rect::new(0, bar_y, width, 20), 0x0012_1828));
        push_op(ops, Paint::HLine(0, bar_y, width, BORDER));
        let mut status: Vec<char> = Vec::new();
        push_str(&mut status, self.path.as_str());
        push_str(&mut status, if self.modified { " *" } else { "" });
        push_str(&mut status, "  ");
        push_dec_wide(&mut status, (self.row as u128) + 1);
        push_str(&mut status, ":");
        push_dec_wide(&mut status, (self.column as u128) + 1);
        push_op(ops, Paint::Text(string_of(status.as_slice()), 6, (h - 17) as i32, AMBER, Weight::Bold, 1));
        push_op(ops, Paint::Text(crate::text::to_string("ctrl+s save   ctrl+o reload"), (width as i64 - 224) as i32,
            (h - 17) as i32, TEXT_FAINT, Weight::Regular, 1));
        if self.message.len() > 0 {
            push_op(ops, Paint::Text(string_of(self.message.as_slice()), 6, (h - 38) as i32, CYAN_DIM, Weight::Regular, 1));
        }
        proof {
            assert(status@ =~= v.path + (if v.modified { " *"@ } else { ""@ }) + "  "@ + dec_str(v.row + 1) + ":"@ + dec_str(v.column + 1));
        }
    }

    /// Draw the window: the scene, painted onto `surface`.
    pub fn draw(&mut self, surface: &mut Surface, font: &Font, focused: bool)
        requires
            old(self).view().wf(),
            old(surface).wf(),
            font.wf(),
        ensures
            final(self).view() == (EditorView { dirty: false, ..old(self).view() }),
            final(surface).wf(),
            final(surface).width == old(surface).width,
            final(surface).height == old(surface).height,
            (final(surface).pixels@, final(surface).clip) == run((old(surface).pixels@, old(surface).clip),
                editor_scene(old(self).view(), focused, old(surface).width as int, old(surface).height as int),
                old(surface).width as int, old(surface).height as int, font.rows@, old(surface).clip),
    {
        let ops = self.scene(focused, surface.width as i32, surface.height as i32);
        paint(surface, font, &ops);
        self.dirty = false;
    }
}

} // verus!
