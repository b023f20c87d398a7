//! The manual. Reads the pages shipped in the initrd under /help.

use vstd::prelude::*;
use vstd::utf8::{valid_utf8, decode_utf8};

verus! {

use crate::text::{chars_of, string_of, to_string, utf8};
use crate::fs::{FileSystem, FileView, norm_path, dir_prefix, listing, row_view};
use crate::gfx::font::Weight;
use crate::gfx::palette::{Color, AMBER, AMBER_DIM, CYAN_DIM, TEXT};
use crate::input::{Key, KeyEvent};
use crate::apps::{WindowMouse, CELL_H};
use crate::apps::editor::{split_text_lines, text_lines};

pub const SIDEBAR: i32 = 150;

/// What follows the last slash of `p` (all of it when there is none).
pub open spec fn last_part(p: Seq<char>) -> Seq<char>
    decreases p.len(),
{
    if p.len() == 0 {
        p
    } else if p.last() == '/' {
        Seq::empty()
    } else {
        last_part(p.drop_last()).push(p.last())
    }
}

/// `t` without any number of trailing ".txt"s.
pub open spec fn strip_txt(t: Seq<char>) -> Seq<char>
    decreases t.len(),
{
    if t.len() >= 4 && t.subrange(t.len() - 4, t.len() as int) == ".txt"@ {
        strip_txt(t.subrange(0, t.len() - 4))
    } else {
        t
    }
}

/// The page a listed file makes: its name and its text, when it is there
/// and is UTF-8.
pub open spec fn page_of(files: Map<Seq<char>, FileView>, path: Seq<char>) -> Option<(Seq<char>, Seq<char>)> {
    let k = norm_path(path);
    if files.dom().contains(k) && valid_utf8(files[k].0) {
        Some((strip_txt(last_part(path)), decode_utf8(files[k].0)))
    } else {
        None
    }
}

pub open spec fn pages_from(files: Map<Seq<char>, FileView>, rows: Seq<(Seq<char>, nat, bool)>) -> Seq<(Seq<char>, Seq<char>)>
    decreases rows.len(),
{
    if rows.len() == 0 {
        Seq::empty()
    } else {
        let rest = pages_from(files, rows.drop_last());
        match page_of(files, rows.last().0) {
            Some(p) => rest.push(p),
            None => rest,
        }
    }
}

pub open spec fn missing_page() -> (Seq<char>, Seq<char>) {
    ("missing"@, "The manual pages were not found in the initrd.\n\nThey should be at /help/*.txt."@)
}

/// The manual's pages: every readable file under /help, in path order;
/// a note saying they are missing when there are none.
pub open spec fn help_pages(fs: &FileSystem) -> Seq<(Seq<char>, Seq<char>)> {
    let p = pages_from(fs.view(), listing(fs.entries(), dir_prefix("/help"@)));
    if p.len() == 0 { seq![missing_page()] } else { p }
}

/// How a line of a page is drawn: a line underlined by the next one is a
/// heading; the underline itself is dimmed; indented lines are examples.
pub open spec fn style_spec(line: Seq<char>, next: Option<Seq<char>>) -> (Color, Weight) {
    if next matches Some(n) && n.len() >= 3 && n.take(3) == "==="@ {
        (AMBER, Weight::Bold)
    } else if line.len() >= 3 && line.take(3) == "==="@ {
        (AMBER_DIM, Weight::Regular)
    } else if line.len() >= 2 && line.take(2) == "  "@ {
        (CYAN_DIM, Weight::Regular)
    } else {
        (TEXT, Weight::Regular)
    }
}

fn starts_with_chars(s: &[char], p: &str) -> (r: bool)
    ensures
        r == (p@.len() <= s@.len() && s@.take(p@.len() as int) == p@),
{
    let pc = chars_of(p);
    if pc.len() > s.len() {
        return false;
    }
    let mut i: usize = 0;
    while i < pc.len()
        invariant
            pc@ == p@,
            pc@.len() <= s@.len(),
            i <= pc@.len(),
            forall|k: int| 0 <= k < i ==> s@[k] == pc@[k],
        decreases pc@.len() - i,
    {
        if s[i] != pc[i] {
            proof {
                assert(s@.take(p@.len() as int)[i as int] != p@[i as int]);
            }
            return false;
        }
        i += 1;
    }
    proof {
        assert(s@.take(p@.len() as int) =~= p@);
    }
    true
}

pub fn line_style(line: &[char], next: Option<&[char]>) -> (r: (Color, Weight))
    ensures
        r == style_spec(line@, match next { Some(n) => Some(n@), None => None }),
{
    proof {
        reveal_strlit("===");
        reveal_strlit("  ");
    }
    let underlined = match next {
        Some(n) => starts_with_chars(n, "==="),
        None => false,
    };
    if underlined {
        (AMBER, Weight::Bold)
    } else if starts_with_chars(line, "===") {
        (AMBER_DIM, Weight::Regular)
    } else if starts_with_chars(line, "  ") {
        (CYAN_DIM, Weight::Regular)
    } else {
        (TEXT, Weight::Regular)
    }
}

/// The text after the last slash of `p`, without trailing ".txt"s.
fn page_title(p: &[char]) -> (t: Vec<char>)
    ensures
        t@ == strip_txt(last_part(p@)),
{
    let mut start: usize = 0;
    let mut i: usize = 0;
    while i < p.len()
        invariant
            start <= i <= p@.len(),
            last_part(p@.take(i as int)) == p@.subrange(start as int, i as int),
        decreases p@.len() - i,
    {
        proof {
            assert(p@.take(i + 1).drop_last() =~= p@.take(i as int));
        }
        if p[i] == '/' {
            start = i + 1;
            proof {
                assert(p@.subrange(start as int, i + 1) =~= Seq::<char>::empty());
            }
        } else {
            proof {
                assert(p@.subrange(start as int, i + 1) =~= p@.subrange(start as int, i as int).push(p@[i as int]));
            }
        }
        i += 1;
    }
    proof {
        assert(p@.take(p@.len() as int) =~= p@);
    }
    let mut end = p.len();
    while end - start >= 4 && p[end - 4] == '.' && p[end - 3] == 't' && p[end - 2] == 'x' && p[end - 1] == 't'
        invariant
            start <= end <= p@.len(),
            strip_txt(last_part(p@)) == strip_txt(p@.subrange(start as int, end as int)),
        decreases end,
    {
        proof {
            let t = p@.subrange(start as int, end as int);
            assert(t.subrange(t.len() - 4, t.len() as int) =~= ".txt"@) by {
                reveal_strlit(".txt");
            }
            assert(t.subrange(0, t.len() - 4) =~= p@.subrange(start as int, end - 4));
        }
        end = end - 4;
    }
    proof {
        let t = p@.subrange(start as int, end as int);
        if t.len() >= 4 {
            assert(t.subrange(t.len() - 4, t.len() as int) != ".txt"@) by {
                reveal_strlit(".txt");
                if t.subrange(t.len() - 4, t.len() as int) == ".txt"@ {
                    assert(t.subrange(t.len() - 4, t.len() as int)[0] == '.');
                    assert(t.subrange(t.len() - 4, t.len() as int)[1] == 't');
                    assert(t.subrange(t.len() - 4, t.len() as int)[2] == 'x');
                    assert(t.subrange(t.len() - 4, t.len() as int)[3] == 't');
                }
            }
        }
    }
    let mut out: Vec<char> = Vec::new();
    let mut k = start;
    while k < end
        invariant
            start <= k <= end <= p@.len(),
            out@ == p@.subrange(start as int, k as int),
        decreases end - k,
    {
        out.push(p[k]);
        k += 1;
        proof {
            assert(out@ =~= p@.subrange(start as int, k as int));
        }
    }
    out
}

pub struct Help {
    pub pages: Vec<(String, String)>,
    pub selected: usize,
    pub scroll: usize,
    pub dirty: bool,
}

pub open spec fn pages_view(v: Seq<(String, String)>) -> Seq<(Seq<char>, Seq<char>)> {
    v.map_values(|p: (String, String)| (p.0@, p.1@))
}

impl Help {
    pub open spec fn view(&self) -> (Seq<(Seq<char>, Seq<char>)>, int, int, bool) {
        (pages_view(self.pages@), self.selected as int, self.scroll as int, self.dirty)
    }

    /// There is always a page, and one of them is selected.
    pub open spec fn wf(&self) -> bool {
        self.pages@.len() > 0 && self.selected < self.pages@.len()
    }

    /// The lines of the selected page.
    pub open spec fn body_spec(&self) -> Seq<Seq<char>> {
        if self.selected < self.pages@.len() { text_lines(self.pages@[self.selected as int].1@) } else { Seq::empty() }
    }

    /// Read the pages from the file store.
    pub fn new(fs: &FileSystem) -> (h: Help)
        requires
            fs.wf(),
        ensures
            h.wf(),
            h.view() == (help_pages(fs), 0int, 0int, true),
    {
        let listed = fs.list_dir("/help");
        let ghost rows = listed@.map_values(|x: (String, usize, bool)| row_view(x));
        let mut pages: Vec<(String, String)> = Vec::new();
        let mut i: usize = 0;
        while i < listed.len()
            invariant
                fs.wf(),
                i <= listed@.len(),
                rows == listed@.map_values(|x: (String, usize, bool)| row_view(x)),
                pages_view(pages@) == pages_from(fs.view(), rows.take(i as int)),
            decreases listed@.len() - i,
        {
            let path = listed[i].0.as_str();
            proof {
                assert(rows.take(i + 1).drop_last() =~= rows.take(i as int));
                assert(rows.take(i + 1).last() == rows[i as int]);
                assert(rows[i as int].0 == path@);
            }
            match fs.read(path) {
                Some(file) => {
                    match utf8(file.data.as_slice()) {
                        Some(text) => {
                            let name = chars_of(path);
                            let title = page_title(name.as_slice());
                            let ghost before = pages_view(pages@);
                            let page = (string_of(title.as_slice()), to_string(text));
                            pages.push(page);
                            proof {
                                assert(pages_view(pages@) =~= before.push((page.0@, page.1@)));
                            }
                        },
                        None => {},
                    }
                },
                None => {},
            }
            i += 1;
        }
        proof {
            assert(rows.take(listed@.len() as int) =~= rows);
        }
        if pages.len() == 0 {
            pages.push((to_string("missing"), to_string("The manual pages were not found in the initrd.\n\nThey should be at /help/*.txt.")));
            proof {
                assert(pages_view(pages@) =~= seq![missing_page()]);
            }
        }
        Help { pages, selected: 0, scroll: 0, dirty: true }
    }

    /// The lines of the selected page.
    pub fn body(&self) -> (lines: Vec<Vec<char>>)
        ensures
            lines@.map_values(|l: Vec<char>| l@) == self.body_spec(),
    {
        if self.selected < self.pages.len() {
            let text = chars_of(self.pages[self.selected].1.as_str());
            split_text_lines(text.as_slice())
        } else {
            let v: Vec<Vec<char>> = Vec::new();
            proof {
                assert(v@.map_values(|l: Vec<char>| l@) =~= Seq::<Seq<char>>::empty());
            }
            v
        }
    }

    /// Arrows and page keys scroll within the page; Home and End jump; Tab
    /// turns to the next page.
    pub fn on_key(&mut self, event: &KeyEvent)
        requires
            old(self).wf(),
        ensures
            final(self).wf(),
            pages_view(final(self).pages@) == pages_view(old(self).pages@),
            !event.pressed ==> final(self).view() == old(self).view(),
            event.pressed ==> {
                let n = old(self).body_spec().len() as int;
                let last = if n >= 1 { n - 1 } else { 0 };
                let s = old(self).scroll as int;
                &&& final(self).dirty
                &&& final(self).selected == if event.key == Key::Tab {
                    (old(self).selected + 1) % (old(self).pages@.len() as int)
                } else {
                    old(self).selected as int
                }
                &&& final(self).scroll == match event.key {
                    Key::Down => if s + 1 < last { s + 1 } else { last },
                    Key::Up => if s >= 1 { s - 1 } else { 0 },
                    Key::PageDown => if s + 12 < last { s + 12 } else { last },
                    Key::PageUp => if s >= 12 { s - 12 } else { 0 },
                    Key::Home => 0,
                    Key::End => last,
                    Key::Tab => 0,
                    _ => s,
                }
            },
    {
        if !event.pressed {
            return;
        }
        self.dirty = true;
        let length = self.body().len();
        let last = if length >= 1 { length - 1 } else { 0 };
        match event.key {
            Key::Down => {
                let s = if self.scroll < usize::MAX { self.scroll + 1 } else { usize::MAX };
                self.scroll = if s < last { s } else { last };
            },
            Key::Up => self.scroll = if self.scroll >= 1 { self.scroll - 1 } else { 0 },
            Key::PageDown => {
                let s = if self.scroll <= usize::MAX - 12 { self.scroll + 12 } else { usize::MAX };
                self.scroll = if s < last { s } else { last };
            },
            Key::PageUp => self.scroll = if self.scroll >= 12 { self.scroll - 12 } else { 0 },
            Key::Home => self.scroll = 0,
            Key::End => self.scroll = last,
            Key::Tab => {
                let n = self.pages.len();
                proof {
                    if self.selected + 1 == n {
                        vstd::arithmetic::div_mod::lemma_mod_self_0(n as int);
                    } else {
                        vstd::arithmetic::div_mod::lemma_small_mod((self.selected + 1) as nat, n as nat);
                    }
                }
                self.selected = if self.selected >= n - 1 { 0 } else { self.selected + 1 };
                self.scroll = 0;
            },
            _ => {},
        }
    }

    /// A click on a page's name in the sidebar turns to it.
    pub fn on_mouse(&mut self, event: &WindowMouse)
        requires
            old(self).wf(),
        ensures
            final(self).wf(),
            ({
                let hit = event.pressed && event.x < SIDEBAR && event.y >= 34
                    && (event.y - 34) / (CELL_H as int) < old(self).pages@.len();
                &&& hit ==> final(self).view() == (old(self).view().0, (event.y - 34) / (CELL_H as int), 0int, true)
                &&& !hit ==> final(self).view() == old(self).view()
            }),
    {
        if !event.pressed || event.x >= SIDEBAR || event.y < 34 {
            return;
        }
        let index = ((event.y - 34) / CELL_H) as usize;
        if index < self.pages.len() {
            self.selected = index;
            self.scroll = 0;
            self.dirty = true;
        }
    }

    pub fn dirty(&self) -> (d: bool)
        ensures
            d == self.dirty,
    {
        self.dirty
    }

    pub fn clear_dirty(&mut self)
        requires
            old(self).wf(),
        ensures
            final(self).wf(),
            final(self).view() == (old(self).view().0, old(self).view().1, old(self).view().2, false),
    {
        self.dirty = false;
    }

    pub fn min_size(&self) -> (r: (i32, i32))
        ensures
            r == (520i32, 300i32),
    {
        (520, 300)
    }
}

} // verus!
