//! File browser with a preview pane.

use vstd::prelude::*;
use vstd::utf8::{valid_utf8, decode_utf8};

verus! {

use crate::text::{chars_of, hex_fixed, push_hex, push_str, string_of, to_string, utf8};
use crate::fs::{FileSystem, FileView, norm_path, row, row_view};
use crate::input::{Key, KeyEvent};
use crate::apps::{AppResponse, EditorTarget, WindowMouse, CELL_H, set_editor_target};
use crate::apps::editor::{split_text_lines, text_lines};
use crate::apps::shell::{right_aligned, push_right};
use crate::gfx::draw::{Rect, Surface};
use crate::gfx::font::{Font, Weight, BULLET, CHIP};
use crate::gfx::palette::{AMBER, BORDER, CYAN, PANEL, TEXT, TEXT_DIM, TEXT_FAINT};
use crate::gfx::scene::{Op, Paint, op_view, ops_view, lemma_ops_push, paint, run};
use crate::text::{dec_str, push_dec};

/// A listed file: path, size, from the initrd.
pub type EntryRow = (Seq<char>, nat, bool);

pub open spec fn rows_of(v: Seq<(String, usize, bool)>) -> Seq<EntryRow> {
    v.map_values(|r: (String, usize, bool)| row_view(r))
}

pub open spec fn strings_of(v: Seq<String>) -> Seq<Seq<char>> {
    v.map_values(|s: String| s@)
}

/// Bytes as `{:02x} ` prints each of them.
pub open spec fn hex_row(b: Seq<u8>) -> Seq<char>
    decreases b.len(),
{
    if b.len() == 0 { Seq::empty() } else { hex_row(b.drop_last()) + hex_fixed(b.last() as nat, 2) + " "@ }
}

/// Row `r` of a hex dump, 16 bytes to a row.
pub open spec fn dump_row(d: Seq<u8>, r: int) -> Seq<char> {
    hex_row(d.subrange(16 * r, if 16 * r + 16 < d.len() { 16 * r + 16 } else { d.len() as int }))
}

/// What the preview pane shows of a file: its first 200 lines when it is
/// UTF-8 text, else a hex dump of its first 24 rows.
pub open spec fn preview_of(data: Seq<u8>) -> Seq<Seq<char>> {
    if valid_utf8(data) {
        let lines = text_lines(decode_utf8(data));
        if lines.len() > 200 { lines.take(200) } else { lines }
    } else {
        let rows = (data.len() + 15) / 16;
        Seq::new(if rows < 24 { rows as nat } else { 24 }, |r: int| dump_row(data, r))
    }
}

/// The preview of entry `sel`, if it names a file that is there.
pub open spec fn preview_spec(files: Map<Seq<char>, FileView>, entries: Seq<EntryRow>, sel: int) -> Seq<Seq<char>> {
    if 0 <= sel < entries.len() && files.dom().contains(norm_path(entries[sel].0)) {
        preview_of(files[norm_path(entries[sel].0)].0)
    } else {
        Seq::empty()
    }
}

pub struct Files {
    pub entries: Vec<(String, usize, bool)>,
    pub selected: usize,
    pub preview: Vec<String>,
    pub dirty: bool,
    pub last_refresh: u64,
}

fn hex_line(b: &[u8]) -> (r: String)
    ensures
        r@ == hex_row(b@),
{
    let mut t: Vec<char> = Vec::new();
    let mut i: usize = 0;
    while i < b.len()
        invariant
            i <= b@.len(),
            t@ == hex_row(b@.take(i as int)),
        decreases b@.len() - i,
    {
        push_hex(&mut t, b[i] as u64, 2);
        push_str(&mut t, " ");
        i += 1;
        proof {
            assert(b@.take(i as int).drop_last() =~= b@.take(i - 1));
        }
    }
    proof {
        assert(b@.take(b@.len() as int) =~= b@);
    }
    string_of(t.as_slice())
}

/// The preview lines of a file's bytes.
pub fn preview_lines(data: &[u8]) -> (lines: Vec<String>)
    ensures
        strings_of(lines@) == preview_of(data@),
{
    let mut lines: Vec<String> = Vec::new();
    match utf8(data) {
        Some(text) => {
            let chars = chars_of(text);
            let all = split_text_lines(chars.as_slice());
            let ghost l = all@.map_values(|x: Vec<char>| x@);
            let n = if all.len() > 200 { 200 } else { all.len() };
            let mut i: usize = 0;
            while i < n
                invariant
                    n <= all@.len(),
                    l == all@.map_values(|x: Vec<char>| x@),
                    i <= n,
                    strings_of(lines@) == l.take(i as int),
                decreases n - i,
            {
                let ghost before = strings_of(lines@);
                let s = string_of(all[i].as_slice());
                lines.push(s);
                i += 1;
                proof {
                    assert(strings_of(lines@) =~= before.push(s@));
                    assert(l.take(i as int) =~= l.take(i - 1).push(l[i - 1]));
                }
            }
            proof {
                if l.len() <= 200 {
                    assert(l.take(n as int) =~= l);
                }
            }
        },
        None => {
            let len = data.len();
            let rows = len / 16 + if len % 16 == 0 { 0 } else { 1 };
            let count = if rows < 24 { rows } else { 24 };
            proof {
                assert(rows == (len + 15) / 16);
            }
            let mut r: usize = 0;
            while r < count
                invariant
                    len == data@.len(),
                    count <= 24,
                    count <= rows,
                    rows == (len + 15) / 16,
                    r <= count,
                    strings_of(lines@) == Seq::new(r as nat, |k: int| dump_row(data@, k)),
                decreases count - r,
            {
                let start = 16 * r;
                let end = if start + 16 < len { start + 16 } else { len };
                let chunk = vstd::slice::slice_subrange(data, start, end);
                let s = hex_line(chunk);
                let ghost before = strings_of(lines@);
                lines.push(s);
                r += 1;
                proof {
                    assert(strings_of(lines@) =~= before.push(s@));
                    assert(Seq::new(r as nat, |k: int| dump_row(data@, k))
                        =~= Seq::new((r - 1) as nat, |k: int| dump_row(data@, k)).push(dump_row(data@, r - 1)));
                }
            }
        },
    }
    lines
}

fn same_rows(a: &Vec<(String, usize, bool)>, b: &Vec<(String, usize, bool)>) -> (r: bool)
    ensures
        r == (rows_of(a@) == rows_of(b@)),
{
    if a.len() != b.len() {
        proof {
            assert(rows_of(a@).len() != rows_of(b@).len());
        }
        return false;
    }
    let mut i: usize = 0;
    while i < a.len()
        invariant
            a@.len() == b@.len(),
            i <= a@.len(),
            forall|k: int| 0 <= k < i ==> row_view(#[trigger] a@[k]) == row_view(b@[k]),
        decreases a@.len() - i,
    {
        let (x, y) = (&a[i], &b[i]);
        if !(x.0 == y.0 && x.1 == y.1 && x.2 == y.2) {
            proof {
                assert(rows_of(a@)[i as int] != rows_of(b@)[i as int]);
            }
            return false;
        }
        i += 1;
    }
    proof {
        assert(rows_of(a@) =~= rows_of(b@));
    }
    true
}

impl Files {
    /// Listing, selection, preview lines, dirty, and when it last looked.
    pub open spec fn view(&self) -> (Seq<EntryRow>, int, Seq<Seq<char>>, bool, u64) {
        (rows_of(self.entries@), self.selected as int, strings_of(self.preview@), self.dirty, self.last_refresh)
    }

    pub fn new(fs: &FileSystem) -> (f: Files)
        requires
            fs.wf(),
        ensures
            f.view() == refreshed((Seq::empty(), 0, Seq::empty(), true, 0), fs),
    {
        let mut f = Files { entries: Vec::new(), selected: 0, preview: Vec::new(), dirty: true, last_refresh: 0 };
        proof {
            assert(f.view() == (Seq::<EntryRow>::empty(), 0int, Seq::<Seq<char>>::empty(), true, 0u64));
        }
        f.refresh(fs);
        f
    }

    /// Show the preview of the selected entry.
    fn load_preview(&mut self, fs: &FileSystem)
        requires
            fs.wf(),
        ensures
            strings_of(final(self).preview@) == preview_spec(fs.view(), rows_of(old(self).entries@), old(self).selected as int),
            rows_of(final(self).entries@) == rows_of(old(self).entries@),
            final(self).selected == old(self).selected,
            final(self).dirty == old(self).dirty,
            final(self).last_refresh == old(self).last_refresh,
    {
        self.preview = Vec::new();
        if self.selected >= self.entries.len() {
            return;
        }
        let ghost e = rows_of(self.entries@);
        proof {
            assert(e[self.selected as int] == row_view(self.entries@[self.selected as int]));
        }
        match fs.read(self.entries[self.selected].0.as_str()) {
            Some(file) => {
                self.preview = preview_lines(file.data.as_slice());
            },
            None => {},
        }
    }

    /// Pick up the current listing; the selection and preview are only
    /// disturbed when it changed.
    pub fn refresh(&mut self, fs: &FileSystem)
        requires
            fs.wf(),
        ensures
            final(self).view() == refreshed(old(self).view(), fs),
    {
        let entries = fs.list();
        if !same_rows(&entries, &self.entries) {
            self.entries = entries;
            let n = self.entries.len();
            let last = if n >= 1 { n - 1 } else { 0 };
            if self.selected > last {
                self.selected = last;
            }
            self.load_preview(fs);
            self.dirty = true;
        }
    }

    /// Select entry `index`, if there is one.
    pub fn select(&mut self, index: usize, fs: &FileSystem)
        requires
            fs.wf(),
        ensures
            final(self).view() == selected_at(old(self).view(), index as int, fs),
    {
        if index < self.entries.len() {
            self.selected = index;
            self.load_preview(fs);
            self.dirty = true;
        }
    }

    /// Up and down move the selection; Home and End jump; Enter opens the
    /// selected file in the editor.
    pub fn on_key(&mut self, event: &KeyEvent, fs: &FileSystem, target: &mut EditorTarget, response: &mut AppResponse)
        requires
            fs.wf(),
        ensures
            final(self).view() == key_spec(old(self).view(), *event, fs),
            (event.pressed && event.key == Key::Enter && old(self).selected < old(self).entries@.len()) ==> {
                &&& final(target).path matches Some(p) && p@ == rows_of(old(self).entries@)[old(self).selected as int].0
                &&& final(response).launch matches Some(l) && l@ == "editor"@
            },
            !(event.pressed && event.key == Key::Enter && old(self).selected < old(self).entries@.len()) ==> {
                &&& final(target).path == old(target).path
                &&& final(response).launch == old(response).launch
            },
            final(response).close == old(response).close,
            final(response).grab_pointer == old(response).grab_pointer,
            final(response).retitle == old(response).retitle,
            final(response).sound == old(response).sound,
    {
        if !event.pressed {
            return;
        }
        match event.key {
            Key::Up => {
                if self.selected > 0 {
                    self.select(self.selected - 1, fs);
                }
            },
            Key::Down => {
                if self.selected < usize::MAX {
                    self.select(self.selected + 1, fs);
                }
            },
            Key::Home => self.select(0, fs),
            Key::End => {
                let n = self.entries.len();
                self.select(if n >= 1 { n - 1 } else { 0 }, fs);
            },
            Key::Enter => {
                if self.selected < self.entries.len() {
                    proof {
                        assert(rows_of(self.entries@)[self.selected as int] == row_view(self.entries@[self.selected as int]));
                    }
                    set_editor_target(target, self.entries[self.selected].0.as_str());
                    response.launch = Some(to_string("editor"));
                }
            },
            _ => {},
        }
    }

    /// A click selects the entry under it.
    pub fn on_mouse(&mut self, event: &WindowMouse, fs: &FileSystem)
        requires
            fs.wf(),
        ensures
            final(self).view() == if event.pressed && event.y >= 30 {
                selected_at(old(self).view(), (event.y - 30) / (CELL_H as int), fs)
            } else {
                old(self).view()
            },
    {
        if !event.pressed {
            return;
        }
        if event.y >= 30 {
            let index = ((event.y - 30) / CELL_H) as usize;
            self.select(index, fs);
        }
    }

    /// Pick up files made elsewhere, but not on every frame.
    pub fn tick(&mut self, now_ms: u64, fs: &FileSystem)
        requires
            fs.wf(),
        ensures
            final(self).view() == if now_ms > old(self).last_refresh && now_ms - old(self).last_refresh > 700 {
                refreshed((old(self).view().0, old(self).view().1, old(self).view().2, old(self).view().3, now_ms), fs)
            } else {
                old(self).view()
            },
    {
        let since = if now_ms > self.last_refresh { now_ms - self.last_refresh } else { 0 };
        if since > 700 {
            self.last_refresh = now_ms;
            self.refresh(fs);
        }
    }

    pub fn dirty(&self) -> (d: bool)
        ensures
            d == self.dirty,
    {
        self.dirty
    }

    pub fn clear_dirty(&mut self)
        ensures
            final(self).view() == (old(self).view().0, old(self).view().1, old(self).view().2, false, old(self).view().4),
    {
        self.dirty = false;
    }

    pub fn min_size(&self) -> (r: (i32, i32))
        ensures
            r == (460i32, 260i32),
    {
        (460, 260)
    }
}

/// After a refresh: unchanged if the listing is the same; else the new
/// listing, the selection held within it, and its preview.
pub open spec fn refreshed(v: (Seq<EntryRow>, int, Seq<Seq<char>>, bool, u64), fs: &FileSystem)
    -> (Seq<EntryRow>, int, Seq<Seq<char>>, bool, u64) {
    let e = fs.entries().map_values(|x: (Seq<char>, FileView)| row(x));
    if e == v.0 {
        v
    } else {
        let last = if e.len() >= 1 { e.len() - 1 } else { 0 };
        let sel = if v.1 > last { last } else { v.1 };
        (e, sel, preview_spec(fs.view(), e, sel), true, v.4)
    }
}

/// After selecting `index`: when there is such an entry, it is selected
/// and previewed.
pub open spec fn selected_at(v: (Seq<EntryRow>, int, Seq<Seq<char>>, bool, u64), index: int, fs: &FileSystem)
    -> (Seq<EntryRow>, int, Seq<Seq<char>>, bool, u64) {
    if 0 <= index < v.0.len() {
        (v.0, index, preview_spec(fs.view(), v.0, index), true, v.4)
    } else {
        v
    }
}

pub open spec fn key_spec(v: (Seq<EntryRow>, int, Seq<Seq<char>>, bool, u64), e: KeyEvent, fs: &FileSystem)
    -> (Seq<EntryRow>, int, Seq<Seq<char>>, bool, u64) {
    if !e.pressed {
        v
    } else {
        match e.key {
            Key::Up => if v.1 > 0 { selected_at(v, v.1 - 1, fs) } else { v },
            Key::Down => if v.1 < usize::MAX { selected_at(v, v.1 + 1, fs) } else { v },
            Key::Home => selected_at(v, 0, fs),
            Key::End => selected_at(v, if v.0.len() >= 1 { v.0.len() - 1 } else { 0 }, fs),
            _ => v,
        }
    }
}

// ---------------------------------------------------------------------
// What the window shows.
// ---------------------------------------------------------------------

/// Where the listing ends and the preview begins in a window `w` wide.
pub open spec fn split_at(w: int) -> int {
    let s = (w * 2) / 5;
    if s < 140 { 140 } else if s > 320 { 320 } else { s }
}

/// The tail of a path that fits `available` characters.
pub open spec fn tail_of(p: Seq<char>, available: int) -> Seq<char> {
    if p.len() > available { p.skip(p.len() - available) } else { p }
}

/// Entry `i` of the listing, drawn at height `y`.
pub open spec fn entry_ops(e: EntryRow, i: int, sel: int, y: int, split: int) -> Seq<Op> {
    let colour = if i == sel { AMBER } else if e.2 { TEXT_DIM } else { TEXT };
    let available = {
        let a = (split - 24 - 48) / 8;
        if a > 4 { a } else { 4 }
    };
    (if i == sel {
        seq![
            Op::Fill(Rect { x: 0, y: (y - 2) as i32, w: split as i32, h: 18i32 }, 0x001E_263E),
            Op::Fill(Rect { x: 0, y: (y - 2) as i32, w: 2, h: 18i32 }, AMBER),
        ]
    } else {
        Seq::empty()
    }) + seq![
        Op::Glyph(if e.2 { CHIP } else { BULLET }, 6, y as i32, colour, Weight::Regular, 1),
        Op::Text(tail_of(e.0, available), 22, y as i32, colour, Weight::Regular, 1),
        Op::Text(right_aligned(dec_str(e.1), 5), (split - 48) as i32, y as i32, TEXT_FAINT, Weight::Regular, 1),
    ]
}

/// The entries from `i` on that fit above the bottom of a window `h` tall.
pub open spec fn entry_rows(es: Seq<EntryRow>, i: int, sel: int, h: int, split: int) -> Seq<Op>
    decreases es.len() - i,
{
    let y = 30 + CELL_H * i;
    if i < 0 || i >= es.len() || y > h - CELL_H { Seq::empty() } else { entry_ops(es[i], i, sel, y, split) + entry_rows(es, i + 1, sel, h, split) }
}

/// The preview lines from `i` on that fit.
pub open spec fn preview_rows(lines: Seq<Seq<char>>, i: int, h: int, split: int) -> Seq<Op>
    decreases lines.len() - i,
{
    let y = 30 + CELL_H * i;
    if i < 0 || i >= lines.len() || y > h - CELL_H {
        Seq::empty()
    } else {
        seq![Op::Text(lines[i], (split + 8) as i32, y as i32, TEXT, Weight::Regular, 1)] + preview_rows(lines, i + 1, h, split)
    }
}

pub open spec fn header_text(es: Seq<EntryRow>, sel: int) -> Seq<char> {
    if 0 <= sel < es.len() {
        es[sel].0 + "  ("@ + dec_str(es[sel].1) + " bytes"@ + (if es[sel].2 { ", from initrd"@ } else { ""@ }) + ")"@
    } else {
        "no files"@
    }
}

/// Everything the window draws, in order, for a `w` x `h` window.
pub open spec fn files_scene(v: (Seq<EntryRow>, int, Seq<Seq<char>>, bool, u64), w: int, h: int) -> Seq<Op> {
    let split = split_at(w);
    seq![
        Op::Clear(PANEL),
        Op::Fill(Rect { x: 0, y: 0, w: split as i32, h: h as i32 }, 0x000A_0E1A),
        Op::VLine(split as i32, 0, h as i32, BORDER),
        Op::Text("FILES"@, 8, 6, CYAN, Weight::Bold, 1),
        Op::HLine(0, 24, split as i32, BORDER),
    ] + entry_rows(v.0, 0, v.1, h, split) + seq![
        Op::Text(header_text(v.0, v.1), (split + 8) as i32, 6, AMBER, Weight::Bold, 1),
        Op::HLine(split as i32, 24, (w - split) as i32, BORDER),
        Op::Clip(Rect { x: (split + 1) as i32, y: 26, w: (w - split - 1) as i32, h: (h - 26) as i32 }),
    ] + preview_rows(v.2, 0, h, split) + seq![
        Op::Unclip,
        Op::Text("enter: open in editor   up/down: select"@, (split + 8) as i32, (h - CELL_H - 4) as i32, TEXT_FAINT, Weight::Regular, 1),
    ]
}

fn push_op(ops: &mut Vec<Paint>, p: Paint)
    ensures
        ops_view(final(ops)@) == ops_view(old(ops)@).push(op_view(p)),
{
    proof {
        lemma_ops_push(ops@, p);
    }
    ops.push(p);
}

fn tail_chars(p: &[char], available: usize) -> (r: Vec<char>)
    ensures
        r@ == tail_of(p@, available as int),
{
    let start = if p.len() > available { p.len() - available } else { 0 };
    let mut out: Vec<char> = Vec::new();
    let mut i = start;
    while i < p.len()
        invariant
            start <= i <= p@.len(),
            out@ == p@.subrange(start as int, i as int),
        decreases p@.len() - i,
    {
        out.push(p[i]);
        i += 1;
        proof {
            assert(out@ =~= p@.subrange(start as int, i as int));
        }
    }
    proof {
        assert(out@ =~= tail_of(p@, available as int));
    }
    out
}

impl Files {
    fn push_entries(&self, ops: &mut Vec<Paint>, h: i64, split: i64)
        requires
            140 <= split <= 320,
            0 <= h <= 0x8000_0000,
        ensures
            ops_view(final(ops)@) == ops_view(old(ops)@) + entry_rows(rows_of(self.entries@), 0, self.selected as int, h as int, split as int),
    {
        let ghost es = rows_of(self.entries@);
        let ghost base = ops_view(ops@);
        let n = self.entries.len();
        let available: usize = if (split - 72) / 8 > 4 { ((split - 72) / 8) as usize } else { 4 };
        let mut i: usize = 0;
        let mut y: i64 = 30;
        while i < n && y <= h - CELL_H as i64
            invariant
                es == rows_of(self.entries@),
                n == es.len(),
                i <= n,
                y == 30 + 16 * i,
                0 <= h <= 0x8000_0000,
                i == 0 || y <= h,
                140 <= split <= 320,
                available == (if (split - 72) / 8 > 4 { (split - 72) / 8 } else { 4 }),
                base + entry_rows(es, 0, self.selected as int, h as int, split as int)
                    == ops_view(ops@) + entry_rows(es, i as int, self.selected as int, h as int, split as int),
            decreases n - i,
        {
            let e = &self.entries[i];
            proof {
                assert(es[i as int] == row_view(self.entries@[i as int]));
            }
            let ghost before = ops_view(ops@);
            let colour = if i == self.selected { AMBER } else if e.2 { TEXT_DIM } else { TEXT };
            if i == self.selected {
                push_op(ops, Paint::Fill(Rect::new(0, (y - 2) as i32, split as i32, CELL_H + 2), 0x001E_263E));
                push_op(ops, Paint::Fill(Rect::new(0, (y - 2) as i32, 2, CELL_H + 2), AMBER));
            }
            push_op(ops, Paint::Glyph(if e.2 { CHIP } else { BULLET }, 6, y as i32, colour, Weight::Regular, 1));
            let path = chars_of(e.0.as_str());
            let name = tail_chars(path.as_slice(), available);
            push_op(ops, Paint::Text(string_of(name.as_slice()), 22, y as i32, colour, Weight::Regular, 1));
            let mut digits: Vec<char> = Vec::new();
            push_dec(&mut digits, e.1 as u64);
            let mut size: Vec<char> = Vec::new();
            push_right(&mut size, digits.as_slice(), 5);
            push_op(ops, Paint::Text(string_of(size.as_slice()), (split - 48) as i32, y as i32, TEXT_FAINT, Weight::Regular, 1));
            proof {
                assert(ops_view(ops@) =~= before + entry_ops(es[i as int], i as int, self.selected as int, y as int, split as int));
            }
            i += 1;
            y = y + CELL_H as i64;
        }
        proof {
            assert(entry_rows(es, i as int, self.selected as int, h as int, split as int) =~= Seq::<Op>::empty());
        }
    }

    fn push_preview(&self, ops: &mut Vec<Paint>, h: i64, split: i64)
        requires
            140 <= split <= 320,
            0 <= h <= 0x8000_0000,
        ensures
            ops_view(final(ops)@) == ops_view(old(ops)@) + preview_rows(strings_of(self.preview@), 0, h as int, split as int),
    {
        let ghost ls = strings_of(self.preview@);
        let ghost base = ops_view(ops@);
        let n = self.preview.len();
        let mut i: usize = 0;
        let mut y: i64 = 30;
        while i < n && y <= h - CELL_H as i64
            invariant
                ls == strings_of(self.preview@),
                n == ls.len(),
                i <= n,
                y == 30 + 16 * i,
                0 <= h <= 0x8000_0000,
                i == 0 || y <= h,
                140 <= split <= 320,
                base + preview_rows(ls, 0, h as int, split as int) == ops_view(ops@) + preview_rows(ls, i as int, h as int, split as int),
            decreases n - i,
        {
            let ghost before = ops_view(ops@);
            push_op(ops, Paint::Text(to_string(self.preview[i].as_str()), (split + 8) as i32, y as i32, TEXT, Weight::Regular, 1));
            proof {
                assert(ops_view(ops@) =~= before + seq![Op::Text(ls[i as int], (split + 8) as i32, y as i32, TEXT, Weight::Regular, 1)]);
            }
            i += 1;
            y = y + CELL_H as i64;
        }
        proof {
            assert(preview_rows(ls, i as int, h as int, split as int) =~= Seq::<Op>::empty());
        }
    }

    /// Everything the window draws, for a `width` x `height` window.
    pub fn scene(&self, width: i32, height: i32) -> (ops: Vec<Paint>)
        requires
            width >= 0,
            height >= 0,
        ensures
            ops_view(ops@) == files_scene(self.view(), width as int, height as int),
    {
        let w = width as i64;
        let h = height as i64;
        let s = (w * 2) / 5;
        let split = if s < 140 { 140 } else if s > 320 { 320 } else { s };
        let mut ops: Vec<Paint> = Vec::new();
        push_op(&mut ops, Paint::Clear(PANEL));
        push_op(&mut ops, Paint::Fill(Rect::new(0, 0, split as i32, height), 0x000A_0E1A));
        push_op(&mut ops, Paint::VLine(split as i32, 0, height, BORDER));
        push_op(&mut ops, Paint::Text(to_string("FILES"), 8, 6, CYAN, Weight::Bold, 1));
        push_op(&mut ops, Paint::HLine(0, 24, split as i32, BORDER));
        let ghost s1 = ops_view(ops@);
        self.push_entries(&mut ops, h, split);
        let ghost s2 = ops_view(ops@);
        let mut header: Vec<char> = Vec::new();
        if self.selected < self.entries.len() {
            let e = &self.entries[self.selected];
            proof {
                assert(rows_of(self.entries@)[self.selected as int] == row_view(self.entries@[self.selected as int]));
            }
            push_str(&mut header, e.0.as_str());
            push_str(&mut header, "  (");
            push_dec(&mut header, e.1 as u64);
            push_str(&mut header, " bytes");
            push_str(&mut header, if e.2 { ", from initrd" } else { "" });
            push_str(&mut header, ")");
        } else {
            push_str(&mut header, "no files");
        }
        proof {
            assert(header@ =~= header_text(rows_of(self.entries@), self.selected as int));
        }
        push_op(&mut ops, Paint::Text(string_of(header.as_slice()), (split + 8) as i32, 6, AMBER, Weight::Bold, 1));
        push_op(&mut ops, Paint::HLine(split as i32, 24, (w - split) as i32, BORDER));
        push_op(&mut ops, Paint::Clip(Rect::new((split + 1) as i32, 26, (w - split - 1) as i32, (h - 26) as i32)));
        let ghost s3 = ops_view(ops@);
        self.push_preview(&mut ops, h, split);
        let ghost s4 = ops_view(ops@);
        push_op(&mut ops, Paint::Unclip);
        push_op(&mut ops, Paint::Text(to_string("enter: open in editor   up/down: select"), (split + 8) as i32,
            (h - CELL_H as i64 - 4) as i32, TEXT_FAINT, Weight::Regular, 1));
        proof {
            assert(ops_view(ops@) =~= files_scene(self.view(), width as int, height as int));
        }
        ops
    }

    /// Draw the window: the scene, painted onto `surface`.
    pub fn draw(&mut self, surface: &mut Surface, font: &Font)
        requires
            old(surface).wf(),
            font.wf(),
        ensures
            final(self).view() == (old(self).view().0, old(self).view().1, old(self).view().2, false, old(self).view().4),
            final(surface).wf(),
            final(surface).width == old(surface).width,
            final(surface).height == old(surface).height,
            (final(surface).pixels@, final(surface).clip) == run((old(surface).pixels@, old(surface).clip),
                files_scene(old(self).view(), old(surface).width as int, old(surface).height as int),
                old(surface).width as int, old(surface).height as int, font.rows@, old(surface).clip),
    {
        let ops = self.scene(surface.width as i32, surface.height as i32);
        paint(surface, font, &ops);
        self.dirty = false;
    }
}

} // verus!
