//! Settings: the things about this machine you are allowed to change.
//!
//! Three pages, driven the same way: a list of rows, one of them selected,
//! up/down to move and enter or a click to act. What the pages show is read
//! from a `Machine` snapshot the caller fills in; what acting on a row does
//! comes back as an `Action` for the caller to carry out, and its result is
//! reported back with `report`.

use vstd::prelude::*;

verus! {

use crate::text::{chars_of, dec_str, push_dec, push_str, string_of, to_string};
use crate::mm::{format_bytes, unit_name, unit_steps, unit_value};
use crate::input::{Key, KeyEvent};
use crate::apps::{WindowMouse, CELL_H};
use crate::apps::shell::{push_chars, push_right, push_zero_padded, right_aligned, zero_padded};
use crate::gfx::draw::{Rect, Surface};
use crate::gfx::font::{Font, Weight};
use crate::gfx::palette::{Color, AMBER, BORDER, CYAN, ERROR, OK, PANEL, TEXT, TEXT_BRIGHT, TEXT_DIM, TEXT_FAINT};
use crate::gfx::scene::{Op, Paint, op_view, ops_view, lemma_ops_push, paint, run};

#[derive(Clone, Copy, Debug, PartialEq, Eq, Structural)]
pub enum Page {
    Display,
    Sound,
    System,
}

pub const TAB_HEIGHT: i32 = 24;
pub const ROW_HEIGHT: i32 = 24;
pub const LIST_TOP: i32 = 58;

/// The pages in tab order.
pub open spec fn page_at(i: int) -> Page {
    if i == 0 { Page::Display } else if i == 1 { Page::Sound } else { Page::System }
}

pub open spec fn page_index(p: Page) -> int {
    match p {
        Page::Display => 0,
        Page::Sound => 1,
        Page::System => 2,
    }
}

/// What pressing enter (or clicking) on a row does.
#[derive(Clone, Copy, Debug, PartialEq, Eq, Structural)]
pub enum Action {
    /// Nothing: a heading or a line of explanation.
    Nothing,
    SetResolution(u32, u32),
    ToggleScanlines,
    SetVolume(u32),
    TestTone,
    Reboot,
    PowerOff,
}

/// How an action the caller carried out went.
pub enum Outcome {
    /// The mode change to this size, and the reason it failed if it did.
    Resolution(u32, u32, Option<String>),
    /// Scanlines are now on, or off.
    Scanlines(bool),
    Volume(u32),
    /// Whether a test tone is playing.
    Tone(bool),
    /// The firmware did not power the machine down.
    PowerRefused,
}

pub struct Row {
    pub label: String,
    pub detail: String,
    pub action: Action,
    /// Drawn with the amber marker: the mode in use, the volume set.
    pub current: bool,
}

/// A row as plain values: label, detail, action, current.
pub type RowView = (Seq<char>, Seq<char>, Action, bool);

pub open spec fn row_view(r: Row) -> RowView {
    (r.label@, r.detail@, r.action, r.current)
}

pub open spec fn rows_view(v: Seq<Row>) -> Seq<RowView> {
    v.map_values(|r: Row| row_view(r))
}

pub open spec fn heading(t: Seq<char>) -> RowView {
    (t, Seq::empty(), Action::Nothing, false)
}

pub open spec fn note(t: Seq<char>) -> RowView {
    (Seq::empty(), t, Action::Nothing, false)
}

pub open spec fn selectable(r: RowView) -> bool {
    r.2 != Action::Nothing
}

impl Row {
    pub fn heading(text: &str) -> (r: Row)
        ensures
            row_view(r) == heading(text@),
    {
        Row { label: to_string(text), detail: String::new(), action: Action::Nothing, current: false }
    }

    pub fn note(text: &str) -> (r: Row)
        ensures
            row_view(r) == note(text@),
    {
        Row { label: String::new(), detail: to_string(text), action: Action::Nothing, current: false }
    }

    pub fn item(label: &str, detail: &str, action: Action) -> (r: Row)
        ensures
            row_view(r) == (label@, detail@, action, false),
    {
        Row { label: to_string(label), detail: to_string(detail), action, current: false }
    }

    pub fn selectable(&self) -> (b: bool)
        ensures
            b == selectable(row_view(*self)),
    {
        self.action != Action::Nothing
    }
}

fn push_row(rows: &mut Vec<Row>, r: Row)
    ensures
        rows_view(final(rows)@) == rows_view(old(rows)@).push(row_view(r)),
{
    rows.push(r);
    proof {
        assert(rows_view(rows@) =~= rows_view(old(rows)@).push(row_view(r)));
    }
}

/// What the pages show about the machine, read by the caller.
pub struct Machine {
    /// The screen: size, bits per pixel, and whether pixels are copied
    /// straight out or converted.
    pub width: usize,
    pub height: usize,
    pub depth: usize,
    pub fast: bool,
    /// What drives the screen, and the modes it can be switched to.
    pub adapter: String,
    pub modes: Vec<(u32, u32)>,
    /// Why the mode cannot be changed, when it cannot.
    pub unavailable: Option<String>,
    pub scanlines: bool,
    /// The sound codec, if there is one, and the audio status line.
    pub codec: Option<String>,
    pub audio_status: String,
    pub audio_present: bool,
    pub volume: u32,
    pub uptime_ms: u64,
    pub total_bytes: u64,
    pub version: String,
}

impl Machine {
    /// Few enough modes that row numbers stay small, each narrow enough for
    /// its aspect ratio to be worked out.
    pub open spec fn wf(&self) -> bool {
        &&& self.modes@.len() < 1000
        &&& forall|i: int| 0 <= i < self.modes@.len() ==> (#[trigger] self.modes@[i]).0 * 100 <= u32::MAX
    }
}

/// The shape of a mode, which says more than its pixel count when you are
/// matching it to the monitor in front of you.
pub open spec fn ratio_spec(width: u32, height: u32) -> Seq<char> {
    let ratio = (width * 100) / (if height > 0 { height as int } else { 1int });
    if ratio == 133 {
        "4:3"@
    } else if ratio == 125 {
        "5:4"@
    } else if ratio == 160 {
        "16:10"@
    } else if ratio == 177 || ratio == 178 {
        "16:9"@
    } else {
        ""@
    }
}

pub fn ratio_name(width: u32, height: u32) -> (r: &'static str)
    requires
        width * 100 <= u32::MAX,
    ensures
        r@ == ratio_spec(width, height),
{
    let ratio = width * 100 / if height > 1 { height } else { 1 };
    proof {
        assert(height > 0 ==> (if height > 1 { height } else { 1u32 }) == height);
    }
    if ratio == 133 {
        "4:3"
    } else if ratio == 125 {
        "5:4"
    } else if ratio == 160 {
        "16:10"
    } else if ratio == 177 || ratio == 178 {
        "16:9"
    } else {
        ""
    }
}

pub open spec fn screen_line(m: &Machine) -> Seq<char> {
    dec_str(m.width as nat) + "x"@ + dec_str(m.height as nat) + " at "@ + dec_str(m.depth as nat)
        + " bits per pixel, "@ + (if m.fast { "direct blit"@ } else { "converted"@ })
}

pub open spec fn mode_row(mode: (u32, u32), m: &Machine) -> RowView {
    (dec_str(mode.0 as nat) + " x "@ + dec_str(mode.1 as nat), ratio_spec(mode.0, mode.1),
        Action::SetResolution(mode.0, mode.1), mode.0 == m.width && mode.1 == m.height)
}

pub open spec fn resolution_rows(m: &Machine) -> Seq<RowView> {
    if m.modes@.len() == 0 {
        seq![heading("Resolution"@), note("This screen's mode cannot be changed while HALCYON is running."@)]
            + (match m.unavailable {
                Some(reason) => seq![note(reason@)],
                None => Seq::empty(),
            })
            + seq![
                note(""@),
                note("The mode is set by GRUB before the kernel starts. Restart and"@),
                note("use the boot menu's \"choose a screen resolution\" submenu."@),
            ]
    } else {
        seq![heading("Resolution"@)] + m.modes@.map_values(|mode: (u32, u32)| mode_row(mode, m))
    }
}

pub open spec fn display_rows_spec(m: &Machine) -> Seq<RowView> {
    seq![heading("Screen"@), note(screen_line(m)), note(m.adapter@), note(""@)]
        + resolution_rows(m)
        + seq![
            note(""@),
            heading("Appearance"@),
            ("CRT scanlines"@, if m.scanlines { "on"@ } else { "off"@ }, Action::ToggleScanlines, m.scanlines),
        ]
}

/// The volume steps offered.
pub open spec fn level_at(i: int) -> u32 {
    if i == 0 { 0 } else if i == 1 { 25 } else if i == 2 { 50 } else if i == 3 { 75 } else { 100 }
}

/// A level right-aligned in three places, and a percent sign.
pub open spec fn level_label(level: u32) -> Seq<char> {
    right_aligned(dec_str(level as nat), 3).push('%')
}

pub open spec fn volume_row(i: int, m: &Machine) -> RowView {
    (level_label(level_at(i)), if level_at(i) == 0 { "muted"@ } else { ""@ }, Action::SetVolume(level_at(i)),
        level_at(i) == m.volume)
}

pub open spec fn sound_rows_spec(m: &Machine) -> Seq<RowView> {
    let head = seq![
        heading("Device"@),
        note(match m.codec {
            Some(d) => d@,
            None => "no AC'97 codec: this machine has no sound"@,
        }),
        note(m.audio_status@),
    ];
    if !m.audio_present {
        head
    } else {
        head + seq![note(""@), heading("Volume"@)] + Seq::new(5, |i: int| volume_row(i, m)) + seq![
            note(""@),
            heading("Check"@),
            ("Play a test tone"@, "440 Hz for half a second"@, Action::TestTone, false),
        ]
    }
}

pub open spec fn uptime_line(m: &Machine) -> Seq<char> {
    let up = m.uptime_ms / 1000;
    "up "@ + dec_str((up / 3600) as nat) + "h "@ + zero_padded(((up / 60) % 60) as nat, 2) + "m "@
        + zero_padded((up % 60) as nat, 2) + "s, "@ + dec_str(unit_value(m.total_bytes as nat, 0))
        + " "@ + unit_name(unit_steps(m.total_bytes as nat, 0)) + " of RAM"@
}

pub open spec fn system_rows_spec(m: &Machine) -> Seq<RowView> {
    seq![
        heading("This machine"@),
        note("HALCYON v"@ + m.version@),
        note(uptime_line(m)),
        note("Nothing here is written to disk, so none of it survives a restart."@),
        note(""@),
        heading("Power"@),
        ("Restart"@, ""@, Action::Reboot, false),
        ("Shut down"@, "via ACPI"@, Action::PowerOff, false),
    ]
}

pub open spec fn rows_spec(page: Page, m: &Machine) -> Seq<RowView> {
    match page {
        Page::Display => display_rows_spec(m),
        Page::Sound => sound_rows_spec(m),
        Page::System => system_rows_spec(m),
    }
}

pub fn display_rows(m: &Machine) -> (rows: Vec<Row>)
    requires
        m.wf(),
    ensures
        rows_view(rows@) == display_rows_spec(m),
{
    let mut rows: Vec<Row> = Vec::new();
    push_row(&mut rows, Row::heading("Screen"));
    let mut line: Vec<char> = Vec::new();
    push_dec(&mut line, m.width as u64);
    push_str(&mut line, "x");
    push_dec(&mut line, m.height as u64);
    push_str(&mut line, " at ");
    push_dec(&mut line, m.depth as u64);
    push_str(&mut line, " bits per pixel, ");
    push_str(&mut line, if m.fast { "direct blit" } else { "converted" });
    push_row(&mut rows, Row { label: String::new(), detail: string_of(line.as_slice()), action: Action::Nothing, current: false });
    push_row(&mut rows, Row::note(m.adapter.as_str()));
    push_row(&mut rows, Row::note(""));
    let ghost head = rows_view(rows@);
    proof {
        assert(line@ =~= screen_line(m));
        assert(head =~= seq![heading("Screen"@), note(screen_line(m)), note(m.adapter@), note(""@)]);
    }
    if m.modes.len() == 0 {
        push_row(&mut rows, Row::heading("Resolution"));
        push_row(&mut rows, Row::note("This screen's mode cannot be changed while HALCYON is running."));
        match &m.unavailable {
            Some(reason) => push_row(&mut rows, Row::note(reason.as_str())),
            None => {},
        }
        push_row(&mut rows, Row::note(""));
        push_row(&mut rows, Row::note("The mode is set by GRUB before the kernel starts. Restart and"));
        push_row(&mut rows, Row::note("use the boot menu's \"choose a screen resolution\" submenu."));
        proof {
            assert(rows_view(rows@) =~= head + resolution_rows(m));
        }
    } else {
        push_row(&mut rows, Row::heading("Resolution"));
        let ghost base = rows_view(rows@);
        let n = m.modes.len();
        let mut i: usize = 0;
        while i < n
            invariant
                m.wf(),
                n == m.modes@.len(),
                i <= n,
                rows_view(rows@) == base + m.modes@.take(i as int).map_values(|mode: (u32, u32)| mode_row(mode, m)),
            decreases n - i,
        {
            let (w, h) = m.modes[i];
            let mut label: Vec<char> = Vec::new();
            push_dec(&mut label, w as u64);
            push_str(&mut label, " x ");
            push_dec(&mut label, h as u64);
            proof {
                assert(m.modes@[i as int].0 * 100 <= u32::MAX);
            }
            let detail = ratio_name(w, h);
            let r = Row {
                label: string_of(label.as_slice()),
                detail: to_string(detail),
                action: Action::SetResolution(w, h),
                current: w as usize == m.width && h as usize == m.height,
            };
            proof {
                assert(row_view(r) == mode_row(m.modes@[i as int], m));
            }
            push_row(&mut rows, r);
            i += 1;
            proof {
                assert(m.modes@.take(i as int).map_values(|mode: (u32, u32)| mode_row(mode, m))
                    =~= m.modes@.take(i - 1).map_values(|mode: (u32, u32)| mode_row(mode, m)).push(mode_row(m.modes@[i - 1], m)));
            }
        }
        proof {
            assert(m.modes@.take(n as int) =~= m.modes@);
            assert(rows_view(rows@) =~= head + resolution_rows(m));
        }
    }
    let ghost mid = rows_view(rows@);
    push_row(&mut rows, Row::note(""));
    push_row(&mut rows, Row::heading("Appearance"));
    let mut scanlines = Row::item("CRT scanlines", if m.scanlines { "on" } else { "off" }, Action::ToggleScanlines);
    scanlines.current = m.scanlines;
    push_row(&mut rows, scanlines);
    proof {
        assert(rows_view(rows@) =~= display_rows_spec(m));
    }
    rows
}

fn level_label_chars(level: u32) -> (r: Vec<char>)
    ensures
        r@ == level_label(level),
{
    let mut digits: Vec<char> = Vec::new();
    push_dec(&mut digits, level as u64);
    let mut label: Vec<char> = Vec::new();
    push_right(&mut label, digits.as_slice(), 3);
    label.push('%');
    label
}

pub fn sound_rows(m: &Machine) -> (rows: Vec<Row>)
    ensures
        rows_view(rows@) == sound_rows_spec(m),
{
    let mut rows: Vec<Row> = Vec::new();
    push_row(&mut rows, Row::heading("Device"));
    match &m.codec {
        Some(d) => push_row(&mut rows, Row::note(d.as_str())),
        None => push_row(&mut rows, Row::note("no AC'97 codec: this machine has no sound")),
    }
    push_row(&mut rows, Row::note(m.audio_status.as_str()));
    let ghost head = rows_view(rows@);
    if !m.audio_present {
        proof {
            assert(rows_view(rows@) =~= sound_rows_spec(m));
        }
        return rows;
    }
    push_row(&mut rows, Row::note(""));
    push_row(&mut rows, Row::heading("Volume"));
    let ghost base = rows_view(rows@);
    let mut i: usize = 0;
    while i < 5
        invariant
            i <= 5,
            rows_view(rows@) == base + Seq::new(i as nat, |k: int| volume_row(k, m)),
        decreases 5 - i,
    {
        let level: u32 = if i == 0 { 0 } else if i == 1 { 25 } else if i == 2 { 50 } else if i == 3 { 75 } else { 100 };
        let label = level_label_chars(level);
        let r = Row {
            label: string_of(label.as_slice()),
            detail: to_string(if level == 0 { "muted" } else { "" }),
            action: Action::SetVolume(level),
            current: level == m.volume,
        };
        push_row(&mut rows, r);
        i += 1;
        proof {
            assert(Seq::new(i as nat, |k: int| volume_row(k, m))
                =~= Seq::new((i - 1) as nat, |k: int| volume_row(k, m)).push(volume_row(i - 1, m)));
        }
    }
    push_row(&mut rows, Row::note(""));
    push_row(&mut rows, Row::heading("Check"));
    push_row(&mut rows, Row::item("Play a test tone", "440 Hz for half a second", Action::TestTone));
    proof {
        assert(rows_view(rows@) =~= sound_rows_spec(m));
    }
    rows
}

pub fn system_rows(m: &Machine) -> (rows: Vec<Row>)
    ensures
        rows_view(rows@) == system_rows_spec(m),
{
    let up = m.uptime_ms / 1000;
    let (total, unit) = format_bytes(m.total_bytes);
    let mut rows: Vec<Row> = Vec::new();
    push_row(&mut rows, Row::heading("This machine"));
    let mut version: Vec<char> = Vec::new();
    push_str(&mut version, "HALCYON v");
    push_str(&mut version, m.version.as_str());
    push_row(&mut rows, Row { label: String::new(), detail: string_of(version.as_slice()), action: Action::Nothing, current: false });
    let mut line: Vec<char> = Vec::new();
    push_str(&mut line, "up ");
    push_dec(&mut line, up / 3600);
    push_str(&mut line, "h ");
    push_zero_padded(&mut line, (up / 60) % 60, 2);
    push_str(&mut line, "m ");
    push_zero_padded(&mut line, up % 60, 2);
    push_str(&mut line, "s, ");
    push_dec(&mut line, total);
    push_str(&mut line, " ");
    push_str(&mut line, unit);
    push_str(&mut line, " of RAM");
    push_row(&mut rows, Row { label: String::new(), detail: string_of(line.as_slice()), action: Action::Nothing, current: false });
    push_row(&mut rows, Row::note("Nothing here is written to disk, so none of it survives a restart."));
    push_row(&mut rows, Row::note(""));
    push_row(&mut rows, Row::heading("Power"));
    push_row(&mut rows, Row::item("Restart", "", Action::Reboot));
    push_row(&mut rows, Row::item("Shut down", "via ACPI", Action::PowerOff));
    proof {
        assert(version@ =~= "HALCYON v"@ + m.version@);
        assert(line@ =~= uptime_line(m));
        assert(rows_view(rows@) =~= system_rows_spec(m));
    }
    rows
}

pub fn rows(page: Page, m: &Machine) -> (rows: Vec<Row>)
    requires
        m.wf(),
    ensures
        rows_view(rows@) == rows_spec(page, m),
{
    match page {
        Page::Display => display_rows(m),
        Page::Sound => sound_rows(m),
        Page::System => system_rows(m),
    }
}

// ---------------------------------------------------------------------
// Moving the selection.
// ---------------------------------------------------------------------

/// The first row that does anything, or 0.
pub open spec fn first_from(rows: Seq<RowView>, i: int) -> int
    decreases rows.len() - i,
{
    if i < 0 || i >= rows.len() {
        0
    } else if selectable(rows[i]) {
        i
    } else {
        first_from(rows, i + 1)
    }
}

pub open spec fn first_selectable(rows: Seq<RowView>) -> int {
    first_from(rows, 0)
}

/// One step from `i`, wrapping round either end of `n` rows.
pub open spec fn step_index(i: int, forward: bool, n: int) -> int {
    let j = if forward { i + 1 } else { i - 1 };
    if j < 0 { n - 1 } else if j >= n { 0 } else { j }
}

/// The first selectable row reached in at most `k` steps from `i`.
pub open spec fn moved(rows: Seq<RowView>, i: int, forward: bool, k: nat) -> Option<int>
    decreases k,
{
    if k == 0 {
        None
    } else {
        let j = step_index(i, forward, rows.len() as int);
        if selectable(rows[j]) { Some(j) } else { moved(rows, j, forward, (k - 1) as nat) }
    }
}

/// Up or down one selectable row, stepping past headings and notes; the
/// selection stays where it is when nothing can be selected.
pub open spec fn move_spec(rows: Seq<RowView>, sel: int, forward: bool) -> int {
    match moved(rows, sel, forward, rows.len()) {
        Some(j) => j,
        None => sel,
    }
}

pub open spec fn moves(rows: Seq<RowView>, sel: int, forward: bool, times: nat) -> int
    decreases times,
{
    if times == 0 { sel } else { moves(rows, move_spec(rows, sel, forward), forward, (times - 1) as nat) }
}

/// The scroll that puts the selected row on screen, `visible` rows at a time.
pub open spec fn revealed(sel: int, scroll: int, last_visible: int, n: int) -> int {
    let visible = if last_visible > 1 { last_visible } else { 1 };
    let s1 = if sel < scroll { sel } else if sel >= scroll + visible { sel + 1 - visible } else { scroll };
    let limit = n - (if visible < n { visible } else { n });
    if s1 < limit { s1 } else { limit }
}

/// Rows that fit a window `height` pixels tall.
pub open spec fn visible_rows_spec(height: i32) -> int {
    if height - LIST_TOP - 26 >= ROW_HEIGHT { (height - LIST_TOP - 26) / (ROW_HEIGHT as int) } else { 1 }
}

pub fn visible_rows(height: i32) -> (n: usize)
    ensures
        n == visible_rows_spec(height),
        1 <= n < 0x1000_0000,
{
    if height < LIST_TOP + 26 + ROW_HEIGHT {
        1
    } else {
        ((height - LIST_TOP - 26) / ROW_HEIGHT) as usize
    }
}

/// The tab under `x`, `y` when the window is `width` wide: one third each.
pub open spec fn tab_at(width: i32, x: i32, y: i32) -> Option<Page> {
    let each: int = if width / 3 > 1 { (width / 3) as int } else { 1 };
    if !(0 <= y < TAB_HEIGHT) || x < 0 || x >= 3 * each {
        None
    } else {
        Some(page_at(x as int / each))
    }
}

/// The tabs and where they sit when the window is `width` wide.
pub fn page_rects(width: i32) -> (r: Vec<(Page, Rect)>)
    ensures
        r@.len() == 3,
        forall|i: int| 0 <= i < 3 ==> {
            let each: int = if width / 3 > 1 { (width / 3) as int } else { 1 };
            #[trigger] r@[i] == (page_at(i), Rect { x: (i * each) as i32, y: 0, w: each as i32, h: TAB_HEIGHT })
        },
{
    let each = if width / 3 > 1 { width / 3 } else { 1 };
    let mut r: Vec<(Page, Rect)> = Vec::new();
    r.push((Page::Display, Rect::new(0, 0, each, TAB_HEIGHT)));
    r.push((Page::Sound, Rect::new(each, 0, each, TAB_HEIGHT)));
    r.push((Page::System, Rect::new(2 * each, 0, each, TAB_HEIGHT)));
    r
}

pub struct Settings {
    pub page: Page,
    pub selected: usize,
    pub scroll: usize,
    /// The last thing that happened, shown along the bottom.
    pub message: String,
    pub message_ok: bool,
    /// Geometry of the last window drawn: what a click landed on and how
    /// far a page of scrolling goes depend on it.
    pub last_width: i32,
    pub last_visible: usize,
    pub dirty: bool,
}

/// Page, selected row, scroll, message, whether the message is good news,
/// last width, last visible rows, dirty.
pub type SettingsView = (Page, int, int, Seq<char>, bool, i32, int, bool);

/// The state after a click or key on row `index` of `rows`: the action to
/// carry out, or nothing when there is no such row.
pub open spec fn action_at(rows: Seq<RowView>, index: int) -> Action {
    if 0 <= index < rows.len() { rows[index].2 } else { Action::Nothing }
}

pub open spec fn with_selection(v: SettingsView, sel: int) -> SettingsView {
    (v.0, sel, v.2, v.3, v.4, v.5, v.6, v.7)
}

/// Switching to page `p`: the message goes and the selection starts over.
pub open spec fn on_page(v: SettingsView, p: Page, m: &Machine) -> SettingsView {
    (p, first_selectable(rows_spec(p, m)), 0, Seq::empty(), v.4, v.5, v.6, v.7)
}

/// What a key press does, before the selection is scrolled into view.
pub open spec fn key_effect(v: SettingsView, e: KeyEvent, m: &Machine) -> (SettingsView, Action) {
    let rows = rows_spec(v.0, m);
    let times = if v.6 > 1 { v.6 } else { 1 };
    match e.key {
        Key::Tab => {
            let step = if e.modifiers.shift { 2int } else { 1int };
            (on_page(v, page_at((page_index(v.0) + step) % 3), m), Action::Nothing)
        },
        Key::Down => (with_selection(v, move_spec(rows, v.1, true)), Action::Nothing),
        Key::Up => (with_selection(v, move_spec(rows, v.1, false)), Action::Nothing),
        Key::Home => ((v.0, first_selectable(rows), 0, v.3, v.4, v.5, v.6, v.7), Action::Nothing),
        Key::PageDown => (with_selection(v, moves(rows, v.1, true, times as nat)), Action::Nothing),
        Key::PageUp => (with_selection(v, moves(rows, v.1, false, times as nat)), Action::Nothing),
        Key::Enter => (v, action_at(rows, v.1)),
        Key::Char => if e.character == Some(' ') { (v, action_at(rows, v.1)) } else { (v, Action::Nothing) },
        _ => (v, Action::Nothing),
    }
}

/// A key: nothing on release; otherwise its effect, with the window marked
/// for redrawing and the selection scrolled into view.
pub open spec fn key_spec(v: SettingsView, e: KeyEvent, m: &Machine) -> (SettingsView, Action) {
    if !e.pressed {
        (v, Action::Nothing)
    } else {
        let (w, a) = key_effect(v, e, m);
        let n = rows_spec(w.0, m).len() as int;
        ((w.0, w.1, revealed(w.1, w.2, w.6, n), w.3, w.4, w.5, w.6, true), a)
    }
}

/// A click: on a tab it switches page; on a row that does something it
/// selects the row and gives its action.
pub open spec fn mouse_spec(v: SettingsView, e: WindowMouse, m: &Machine) -> (SettingsView, Action) {
    if !e.pressed {
        (v, Action::Nothing)
    } else {
        let d = (v.0, v.1, v.2, v.3, v.4, v.5, v.6, true);
        if e.y < TAB_HEIGHT {
            match tab_at(if v.5 > 1 { v.5 } else { 1 }, e.x, e.y) {
                Some(p) => (on_page(d, p, m), Action::Nothing),
                None => (d, Action::Nothing),
            }
        } else {
            let offset = if e.y >= LIST_TOP - 22 { (e.y - (LIST_TOP - 22)) / (ROW_HEIGHT as int) } else { 0 };
            let index = v.2 + offset;
            let rows = rows_spec(v.0, m);
            if 0 <= index < rows.len() && selectable(rows[index]) {
                (with_selection(d, index), rows[index].2)
            } else {
                (d, Action::Nothing)
            }
        }
    }
}

/// The message an outcome leaves, and whether it is good news.
pub open spec fn report_spec(o: Outcome) -> (Seq<char>, bool) {
    match o {
        Outcome::Resolution(w, h, failure) => match failure {
            None => ("now running at "@ + dec_str(w as nat) + "x"@ + dec_str(h as nat), true),
            Some(reason) => (reason@, false),
        },
        Outcome::Scanlines(on) => (if on { "scanlines on"@ } else { "scanlines off"@ }, true),
        Outcome::Volume(level) => ("volume "@ + dec_str(level as nat) + "%"@, true),
        Outcome::Tone(playing) => if playing {
            ("playing 440 Hz"@, true)
        } else {
            ("there is no sound device to play it on"@, false)
        },
        Outcome::PowerRefused => ("the firmware declined to power the machine down"@, false),
    }
}

proof fn lemma_moved_bound(rows: Seq<RowView>, i: int, forward: bool, k: nat)
    requires
        rows.len() > 0,
    ensures
        moved(rows, i, forward, k) matches Some(j) ==> 0 <= j < rows.len() && selectable(rows[j]),
    decreases k,
{
    if k > 0 {
        lemma_moved_bound(rows, step_index(i, forward, rows.len() as int), forward, (k - 1) as nat);
    }
}

proof fn lemma_first_bound(rows: Seq<RowView>, i: int)
    ensures
        0 <= first_from(rows, i),
        rows.len() > 0 ==> first_from(rows, i) < rows.len(),
    decreases rows.len() - i,
{
    if 0 <= i < rows.len() && !selectable(rows[i]) {
        lemma_first_bound(rows, i + 1);
    }
}

proof fn lemma_rows_small(page: Page, m: &Machine)
    requires
        m.wf(),
    ensures
        rows_spec(page, m).len() < 2000,
{
}

impl Settings {
    pub open spec fn view(&self) -> SettingsView {
        (self.page, self.selected as int, self.scroll as int, self.message@, self.message_ok, self.last_width,
            self.last_visible as int, self.dirty)
    }

    /// Positions stay small enough to add to.
    pub open spec fn wf(&self) -> bool {
        self.selected < 0x1000_0000 && self.scroll < 0x1000_0000 && self.last_visible < 0x1000_0000
    }

    pub fn new(m: &Machine) -> (s: Settings)
        requires
            m.wf(),
        ensures
            s.wf(),
            s.view() == (Page::Display, first_selectable(display_rows_spec(m)), 0int, Seq::<char>::empty(), true,
                520i32, 12int, true),
    {
        let mut s = Settings {
            page: Page::Display,
            selected: 0,
            scroll: 0,
            message: String::new(),
            message_ok: true,
            last_width: 520,
            last_visible: 12,
            dirty: true,
        };
        s.select_first(m);
        s
    }

    /// Put the selection on the first row that does anything.
    pub fn select_first(&mut self, m: &Machine)
        requires
            m.wf(),
        ensures
            final(self).view() == (old(self).page, first_selectable(rows_spec(old(self).page, m)), 0int,
                old(self).message@, old(self).message_ok, old(self).last_width, old(self).last_visible as int,
                old(self).dirty),
            final(self).selected < 0x1000_0000,
            final(self).last_visible == old(self).last_visible,
    {
        let rows = rows(self.page, m);
        let ghost rv = rows_view(rows@);
        proof {
            lemma_rows_small(self.page, m);
            lemma_first_bound(rv, 0);
        }
        let n = rows.len();
        let mut i: usize = 0;
        while i < n
            invariant
                n == rv.len(),
                n < 2000,
                rv == rows_view(rows@),
                rv == rows_spec(old(self).page, m),
                i <= n,
                first_from(rv, 0) == first_from(rv, i as int),
                self.page == old(self).page,
                self.message@ == old(self).message@,
                self.message_ok == old(self).message_ok,
                self.last_width == old(self).last_width,
                self.last_visible == old(self).last_visible,
                self.dirty == old(self).dirty,
            decreases n - i,
        {
            proof {
                assert(rv[i as int] == row_view(rows@[i as int]));
            }
            if rows[i].selectable() {
                self.selected = i;
                self.scroll = 0;
                return;
            }
            i += 1;
        }
        self.selected = 0;
        self.scroll = 0;
    }

    /// One selectable row up or down.
    fn move_selection(&mut self, rows: &Vec<Row>, forward: bool)
        requires
            rows@.len() < 0x1000_0000,
            old(self).selected < 0x1000_0000,
        ensures
            final(self).selected == move_spec(rows_view(rows@), old(self).selected as int, forward),
            final(self).selected < 0x1000_0000,
            final(self).page == old(self).page,
            final(self).scroll == old(self).scroll,
            final(self).message@ == old(self).message@,
            final(self).message_ok == old(self).message_ok,
            final(self).last_width == old(self).last_width,
            final(self).last_visible == old(self).last_visible,
            final(self).dirty == old(self).dirty,
    {
        let ghost rv = rows_view(rows@);
        let n = rows.len();
        if n == 0 {
            return;
        }
        proof {
            lemma_moved_bound(rv, self.selected as int, forward, n as nat);
        }
        let mut index = self.selected;
        let mut k: usize = 0;
        while k < n
            invariant
                rv == rows_view(rows@),
                n == rv.len(),
                0 < n < 0x1000_0000,
                k <= n,
                index < 0x1000_0000,
                k > 0 ==> index < n,
                moved(rv, old(self).selected as int, forward, n as nat) == moved(rv, index as int, forward, (n - k) as nat),
                self.selected == old(self).selected,
                self.page == old(self).page,
                self.scroll == old(self).scroll,
                self.message@ == old(self).message@,
                self.message_ok == old(self).message_ok,
                self.last_width == old(self).last_width,
                self.last_visible == old(self).last_visible,
                self.dirty == old(self).dirty,
            decreases n - k,
        {
            let ghost before = index as int;
            index = if forward {
                if index >= n - 1 { 0 } else { index + 1 }
            } else {
                if index == 0 { n - 1 } else if index - 1 >= n { 0 } else { index - 1 }
            };
            proof {
                assert(index as int == step_index(before, forward, n as int));
                assert(rv[index as int] == row_view(rows@[index as int]));
            }
            if rows[index].selectable() {
                self.selected = index;
                return;
            }
            k += 1;
        }
    }

    /// Scroll just far enough that the selected row is on screen.
    fn reveal_selection(&mut self, n: usize)
        requires
            old(self).wf(),
            n < 0x1000_0000,
        ensures
            final(self).wf(),
            final(self).scroll == revealed(old(self).selected as int, old(self).scroll as int,
                old(self).last_visible as int, n as int),
            final(self).page == old(self).page,
            final(self).selected == old(self).selected,
            final(self).message@ == old(self).message@,
            final(self).message_ok == old(self).message_ok,
            final(self).last_width == old(self).last_width,
            final(self).last_visible == old(self).last_visible,
            final(self).dirty == old(self).dirty,
    {
        let visible = if self.last_visible > 1 { self.last_visible } else { 1 };
        if self.selected < self.scroll {
            self.scroll = self.selected;
        } else if self.selected >= self.scroll + visible {
            self.scroll = self.selected + 1 - visible;
        }
        let shown = if visible < n { visible } else { n };
        let limit = n - shown;
        if self.scroll > limit {
            self.scroll = limit;
        }
    }

    /// A key press; the action it asks for, which the caller carries out
    /// and reports back.
    pub fn on_key(&mut self, event: &KeyEvent, m: &Machine) -> (action: Action)
        requires
            old(self).wf(),
            m.wf(),
        ensures
            final(self).wf(),
            (final(self).view(), action) == key_spec(old(self).view(), *event, m),
    {
        if !event.pressed {
            return Action::Nothing;
        }
        self.dirty = true;
        let rows = rows(self.page, m);
        proof {
            lemma_rows_small(self.page, m);
        }
        let mut action = Action::Nothing;
        match event.key {
            Key::Tab => {
                let index: usize = match self.page {
                    Page::Display => 0,
                    Page::Sound => 1,
                    Page::System => 2,
                };
                let step: usize = if event.modifiers.shift { 2 } else { 1 };
                let next = (index + step) % 3;
                self.page = if next == 0 { Page::Display } else if next == 1 { Page::Sound } else { Page::System };
                self.message = String::new();
                self.select_first(m);
            },
            Key::Down => self.move_selection(&rows, true),
            Key::Up => self.move_selection(&rows, false),
            Key::Home => self.select_first(m),
            Key::PageDown | Key::PageUp => {
                let forward = event.key == Key::PageDown;
                let times = if self.last_visible > 1 { self.last_visible } else { 1 };
                let ghost start = self.selected as int;
                let mut t: usize = 0;
                while t < times
                    invariant
                        rows@.len() < 0x1000_0000,
                        self.selected < 0x1000_0000,
                        t <= times,
                        moves(rows_view(rows@), start, forward, times as nat)
                            == moves(rows_view(rows@), self.selected as int, forward, (times - t) as nat),
                        self.page == old(self).page,
                        self.scroll == old(self).scroll,
                        self.message@ == old(self).message@,
                        self.message_ok == old(self).message_ok,
                        self.last_width == old(self).last_width,
                        self.last_visible == old(self).last_visible,
                        self.dirty,
                    decreases times - t,
                {
                    self.move_selection(&rows, forward);
                    t += 1;
                }
            },
            Key::Enter => {
                action = if self.selected < rows.len() { rows[self.selected].action } else { Action::Nothing };
            },
            Key::Char => {
                if event.character == Some(' ') {
                    action = if self.selected < rows.len() { rows[self.selected].action } else { Action::Nothing };
                }
            },
            _ => {},
        }
        let count = rows_count(self.page, m);
        self.reveal_selection(count);
        proof {
            if event.key == Key::Enter || event.key == Key::Char {
                if self.selected < rows@.len() {
                    assert(rows_view(rows@)[self.selected as int] == row_view(rows@[self.selected as int]));
                }
            }
        }
        action
    }

    /// A click; the action it asks for.
    pub fn on_mouse(&mut self, event: &WindowMouse, m: &Machine) -> (action: Action)
        requires
            old(self).wf(),
            m.wf(),
        ensures
            final(self).wf(),
            (final(self).view(), action) == mouse_spec(old(self).view(), *event, m),
    {
        if !event.pressed {
            return Action::Nothing;
        }
        self.dirty = true;
        if event.y < TAB_HEIGHT {
            let width = if self.last_width > 1 { self.last_width } else { 1 };
            let each = if width / 3 > 1 { width / 3 } else { 1 };
            if event.y >= 0 && event.x >= 0 && event.x < 3 * each {
                let which = event.x / each;
                self.page = if which == 0 { Page::Display } else if which == 1 { Page::Sound } else { Page::System };
                self.message = String::new();
                self.select_first(m);
            }
            return Action::Nothing;
        }
        let offset: usize = if event.y >= LIST_TOP - 22 { ((event.y - (LIST_TOP - 22)) / ROW_HEIGHT) as usize } else { 0 };
        let index = self.scroll + offset;
        let rows = rows(self.page, m);
        proof {
            lemma_rows_small(self.page, m);
        }
        if index < rows.len() && rows[index].selectable() {
            proof {
                assert(rows_view(rows@)[index as int] == row_view(rows@[index as int]));
            }
            self.selected = index;
            return rows[index].action;
        }
        proof {
            if index < rows@.len() {
                assert(rows_view(rows@)[index as int] == row_view(rows@[index as int]));
            }
        }
        Action::Nothing
    }

    /// Show how an action went.
    pub fn report(&mut self, outcome: Outcome)
        ensures
            (final(self).message@, final(self).message_ok) == report_spec(outcome),
            final(self).page == old(self).page,
            final(self).selected == old(self).selected,
            final(self).scroll == old(self).scroll,
            final(self).last_width == old(self).last_width,
            final(self).last_visible == old(self).last_visible,
            final(self).dirty,
    {
        let ghost o = outcome;
        let mut text: Vec<char> = Vec::new();
        let ok = match outcome {
            Outcome::Resolution(w, h, failure) => match failure {
                None => {
                    push_str(&mut text, "now running at ");
                    push_dec(&mut text, w as u64);
                    push_str(&mut text, "x");
                    push_dec(&mut text, h as u64);
                    true
                },
                Some(reason) => {
                    push_str(&mut text, reason.as_str());
                    false
                },
            },
            Outcome::Scanlines(on) => {
                push_str(&mut text, if on { "scanlines on" } else { "scanlines off" });
                true
            },
            Outcome::Volume(level) => {
                push_str(&mut text, "volume ");
                push_dec(&mut text, level as u64);
                push_str(&mut text, "%");
                true
            },
            Outcome::Tone(playing) => {
                if playing {
                    push_str(&mut text, "playing 440 Hz");
                    true
                } else {
                    push_str(&mut text, "there is no sound device to play it on");
                    false
                }
            },
            Outcome::PowerRefused => {
                push_str(&mut text, "the firmware declined to power the machine down");
                false
            },
        };
        proof {
            assert((text@, ok) == report_spec(o));
        }
        self.message = string_of(text.as_slice());
        self.message_ok = ok;
        self.dirty = true;
    }

    /// The geometry the window was last drawn at.
    pub fn note_geometry(&mut self, width: i32, height: i32)
        ensures
            final(self).last_width == width,
            final(self).last_visible == visible_rows_spec(height),
            final(self).page == old(self).page,
            final(self).selected == old(self).selected,
            final(self).scroll == old(self).scroll,
            final(self).message@ == old(self).message@,
            final(self).message_ok == old(self).message_ok,
            final(self).dirty == old(self).dirty,
    {
        self.last_width = width;
        self.last_visible = visible_rows(height);
    }

    /// The sound and system pages show live numbers.
    pub fn tick(&mut self)
        ensures
            final(self).dirty == (old(self).dirty || old(self).page != Page::Display),
            final(self).page == old(self).page,
            final(self).selected == old(self).selected,
            final(self).scroll == old(self).scroll,
            final(self).message@ == old(self).message@,
            final(self).message_ok == old(self).message_ok,
            final(self).last_width == old(self).last_width,
            final(self).last_visible == old(self).last_visible,
    {
        if self.page != Page::Display {
            self.dirty = true;
        }
    }

    pub fn dirty(&self) -> (d: bool)
        ensures
            d == self.dirty,
    {
        self.dirty
    }

    pub fn clear_dirty(&mut self)
        ensures
            !final(self).dirty,
            final(self).page == old(self).page,
            final(self).selected == old(self).selected,
            final(self).scroll == old(self).scroll,
            final(self).message@ == old(self).message@,
            final(self).message_ok == old(self).message_ok,
            final(self).last_width == old(self).last_width,
            final(self).last_visible == old(self).last_visible,
    {
        self.dirty = false;
    }

    pub fn min_size(&self) -> (r: (i32, i32))
        ensures
            r == (520i32, 400i32),
    {
        (520, 400)
    }
}

fn rows_count(page: Page, m: &Machine) -> (n: usize)
    requires
        m.wf(),
    ensures
        n == rows_spec(page, m).len(),
        n < 0x1000_0000,
{
    let r = rows(page, m);
    proof {
        lemma_rows_small(page, m);
    }
    r.len()
}

// ---------------------------------------------------------------------
// What the window shows.
// ---------------------------------------------------------------------

pub open spec fn page_label(p: Page) -> Seq<char> {
    match p {
        Page::Display => "DISPLAY"@,
        Page::Sound => "SOUND"@,
        Page::System => "SYSTEM"@,
    }
}

/// Tab `i` of a window `w` wide, marked when it is the page shown.
pub open spec fn tab_ops(page: Page, w: i32, i: int) -> Seq<Op> {
    let each: int = if w / 3 > 1 { (w / 3) as int } else { 1 };
    let r = Rect { x: (i * each) as i32, y: 0, w: each as i32, h: TAB_HEIGHT };
    let active = page_at(i) == page;
    (if active { seq![Op::Fill(r, PANEL), Op::HLine(r.x, r.y, r.w, AMBER)] } else { Seq::empty() })
        + seq![Op::Text(page_label(page_at(i)), (r.x + 12) as i32, (r.y + 4) as i32, if active { AMBER } else { TEXT_DIM },
            if active { Weight::Bold } else { Weight::Regular }, 1)]
}

/// Row `r`, number `index`, drawn at height `y` in a window `w` wide.
pub open spec fn row_ops(r: RowView, index: int, sel: int, y: int, w: i32) -> Seq<Op> {
    let selected = index == sel && selectable(r);
    let rect = Rect { x: 6, y: y as i32, w: (w - 12) as i32, h: 22i32 };
    let (colour, weight) = if !selectable(r) {
        (CYAN, Weight::Bold)
    } else if selected {
        (TEXT_BRIGHT, Weight::Bold)
    } else {
        (TEXT, Weight::Regular)
    };
    (if selected { seq![Op::Fill(rect, 0x001E_263E), Op::Fill(Rect { x: 6, y: y as i32, w: 2, h: rect.h }, AMBER)] } else { Seq::empty() })
        + (if r.0.len() > 0 { seq![Op::Text(r.0, 18, (y + 4) as i32, colour, weight, 1)] } else { Seq::empty() })
        + (if r.1.len() > 0 {
            seq![Op::Text(r.1, if r.0.len() == 0 { 18 } else { 170 }, (y + 4) as i32, TEXT_DIM, Weight::Regular, 1)]
        } else {
            Seq::empty()
        })
        + (if r.3 { seq![Op::Text("in use"@, (w - 70) as i32, (y + 4) as i32, AMBER, Weight::Bold, 1)] } else { Seq::empty() })
}

/// The first scrolled row on show.
pub open spec fn first_shown(scroll: int, n: int) -> int {
    let last = if n >= 1 { n - 1 } else { 0 };
    if scroll < last { scroll } else { last }
}

/// Rows `start + k` for `k` below `count`.
pub open spec fn shown_rows(rows: Seq<RowView>, start: int, count: int, sel: int, w: i32) -> Seq<Op>
    decreases count,
{
    if count <= 0 {
        Seq::empty()
    } else {
        shown_rows(rows, start, count - 1, sel, w) + row_ops(rows[start + count - 1], start + count - 1, sel,
            LIST_TOP - 22 + ROW_HEIGHT * (count - 1), w)
    }
}

/// What is drawn for the rows: those that fit, from the scroll position,
/// and how many more there are below.
pub open spec fn list_ops(rows: Seq<RowView>, scroll: int, sel: int, visible: int, w: i32, h: i32) -> Seq<Op> {
    let n = rows.len() as int;
    let start = first_shown(scroll, n);
    let count = if visible < n - start { visible } else { n - start };
    shown_rows(rows, start, count, sel, w) + if n > visible {
        seq![Op::Text(dec_str((n - (start + visible)) as nat) + " more below"@, (w - 130) as i32, (h - CELL_H - 3) as i32,
            TEXT_FAINT, Weight::Regular, 1)]
    } else {
        Seq::empty()
    }
}

/// Everything the window draws, in order, for a `w` x `h` window, with
/// the page's rows `rows`.
pub open spec fn settings_scene(v: SettingsView, rows: Seq<RowView>, w: i32, h: i32) -> Seq<Op> {
    seq![Op::Clear(PANEL), Op::Fill(Rect { x: 0, y: 0, w, h: TAB_HEIGHT }, 0x000C_111E)]
        + tab_ops(v.0, w, 0) + tab_ops(v.0, w, 1) + tab_ops(v.0, w, 2)
        + seq![Op::HLine(0, TAB_HEIGHT, w, BORDER)]
        + list_ops(rows, v.2, v.1, visible_rows_spec(h), w, h)
        + seq![
            Op::HLine(0, (h - 24) as i32, w, BORDER),
            if v.3.len() == 0 {
                Op::Text("up/down to move, enter to apply, tab for the next page"@, 12, (h - CELL_H - 3) as i32, TEXT_FAINT, Weight::Regular, 1)
            } else {
                Op::Text(v.3, 12, (h - CELL_H - 3) as i32, if v.4 { OK } else { ERROR }, Weight::Regular, 1)
            },
        ]
}

/// Drawing can count the rows below the visible ones: the list has not
/// been scrolled past them (the count would go below zero).
pub open spec fn drawable(scroll: int, n: int, h: i32) -> bool {
    let visible = visible_rows_spec(h);
    n > visible ==> first_shown(scroll, n) + visible <= n
}

fn push_op(ops: &mut Vec<Paint>, p: Paint)
    ensures
        ops_view(final(ops)@) == ops_view(old(ops)@).push(op_view(p)),
{
    proof {
        lemma_ops_push(ops@, p);
    }
    ops.push(p);
}

fn push_tab(ops: &mut Vec<Paint>, page: Page, w: i32, i: usize)
    requires
        i < 3,
    ensures
        ops_view(final(ops)@) == ops_view(old(ops)@) + tab_ops(page, w, i as int),
{
    let each: i64 = if w / 3 > 1 { (w / 3) as i64 } else { 1 };
    proof {
        assert(0 <= (i as int) * each <= 2 * 0x8000_0000) by (nonlinear_arith) requires 0 <= i < 3, 1 <= each <= 0x8000_0000;
    }
    let r = Rect::new((i as i64 * each) as i32, 0, each as i32, TAB_HEIGHT);
    let p = if i == 0 { Page::Display } else if i == 1 { Page::Sound } else { Page::System };
    let active = p == page;
    if active {
        push_op(ops, Paint::Fill(r, PANEL));
        push_op(ops, Paint::HLine(r.x, r.y, r.w, AMBER));
    }
    let label = if i == 0 { "DISPLAY" } else if i == 1 { "SOUND" } else { "SYSTEM" };
    push_op(ops, Paint::Text(to_string(label), (r.x as i64 + 12) as i32, (r.y as i64 + 4) as i32,
        if active { AMBER } else { TEXT_DIM }, if active { Weight::Bold } else { Weight::Regular }, 1));
    proof {
        assert(ops_view(ops@) =~= ops_view(old(ops)@) + tab_ops(page, w, i as int));
    }
}

fn push_row_ops(ops: &mut Vec<Paint>, r: &Row, index: usize, sel: usize, y: i32, w: i32)
    requires
        y <= 0x1000_0000,
        w >= 0,
    ensures
        ops_view(final(ops)@) == ops_view(old(ops)@) + row_ops(row_view(*r), index as int, sel as int, y as int, w),
{
    let selectable = r.selectable();
    let selected = index == sel && selectable;
    let rect = Rect::new(6, y, (w as i64 - 12) as i32, ROW_HEIGHT - 2);
    if selected {
        push_op(ops, Paint::Fill(rect, 0x001E_263E));
        push_op(ops, Paint::Fill(Rect::new(6, y, 2, rect.h), AMBER));
    }
    let (colour, weight) = if !selectable {
        (CYAN, Weight::Bold)
    } else if selected {
        (TEXT_BRIGHT, Weight::Bold)
    } else {
        (TEXT, Weight::Regular)
    };
    let label_empty = r.label.as_str().is_empty();
    if !label_empty {
        push_op(ops, Paint::Text(to_string(r.label.as_str()), 18, y + 4, colour, weight, 1));
    }
    if !r.detail.as_str().is_empty() {
        push_op(ops, Paint::Text(to_string(r.detail.as_str()), if label_empty { 18 } else { 170 }, y + 4, TEXT_DIM, Weight::Regular, 1));
    }
    if r.current {
        push_op(ops, Paint::Text(to_string("in use"), (w as i64 - 70) as i32, y + 4, AMBER, Weight::Bold, 1));
    }
    proof {
        assert(ops_view(ops@) =~= ops_view(old(ops)@) + row_ops(row_view(*r), index as int, sel as int, y as int, w));
    }
}

impl Settings {
    /// Everything the window draws, for a `width` x `height` window.
    pub fn scene(&self, m: &Machine, width: i32, height: i32) -> (ops: Vec<Paint>)
        requires
            m.wf(),
            width >= 0,
            drawable(self.scroll as int, rows_spec(self.page, m).len() as int, height),
        ensures
            ops_view(ops@) == settings_scene(self.view(), rows_spec(self.page, m), width, height),
    {
        let mut ops: Vec<Paint> = Vec::new();
        push_op(&mut ops, Paint::Clear(PANEL));
        push_op(&mut ops, Paint::Fill(Rect::new(0, 0, width, TAB_HEIGHT), 0x000C_111E));
        push_tab(&mut ops, self.page, width, 0);
        push_tab(&mut ops, self.page, width, 1);
        push_tab(&mut ops, self.page, width, 2);
        push_op(&mut ops, Paint::HLine(0, TAB_HEIGHT, width, BORDER));
        let ghost s1 = ops_view(ops@);
        let rows = rows(self.page, m);
        proof {
            lemma_rows_small(self.page, m);
        }
        self.push_list(&mut ops, &rows, width, height);
        let ghost s2 = ops_view(ops@);
        push_op(&mut ops, Paint::HLine(0, (height as i64 - 24) as i32, width, BORDER));
        let y = (height as i64 - CELL_H as i64 - 3) as i32;
        if self.message.as_str().is_empty() {
            push_op(&mut ops, Paint::Text(to_string("up/down to move, enter to apply, tab for the next page"), 12, y, TEXT_FAINT, Weight::Regular, 1));
        } else {
            push_op(&mut ops, Paint::Text(to_string(self.message.as_str()), 12, y, if self.message_ok { OK } else { ERROR }, Weight::Regular, 1));
        }
        proof {
            assert(ops_view(ops@) =~= settings_scene(self.view(), rows_spec(self.page, m), width, height));
        }
        ops
    }

    fn push_list(&self, ops: &mut Vec<Paint>, rows: &Vec<Row>, width: i32, height: i32)
        requires
            rows@.len() < 2000,
            width >= 0,
            drawable(self.scroll as int, rows@.len() as int, height),
        ensures
            ops_view(final(ops)@) == ops_view(old(ops)@) + list_ops(rows_view(rows@), self.scroll as int, self.selected as int,
                visible_rows_spec(height), width, height),
    {
        let ghost rv = rows_view(rows@);
        let n = rows.len();
        let visible = visible_rows(height);
        let last = if n >= 1 { n - 1 } else { 0 };
        let start = if self.scroll < last { self.scroll } else { last };
        let count = if visible < n - start { visible } else { n - start };
        let ghost base = ops_view(ops@);
        let mut k: usize = 0;
        while k < count
            invariant
                rv == rows_view(rows@),
                n == rv.len(),
                n < 2000,
                start <= n,
                count <= n - start,
                k <= count,
                width >= 0,
                ops_view(ops@) == base + shown_rows(rv, start as int, k as int, self.selected as int, width),
            decreases count - k,
        {
            let y = (LIST_TOP - 22 + ROW_HEIGHT * k as i32) as i32;
            push_row_ops(ops, &rows[start + k], start + k, self.selected, y, width);
            proof {
                assert(rv[start + k] == row_view(rows@[start + k]));
            }
            k += 1;
        }
        if n > visible {
            let mut t: Vec<char> = Vec::new();
            push_dec(&mut t, (n - (start + visible)) as u64);
            push_str(&mut t, " more below");
            push_op(ops, Paint::Text(string_of(t.as_slice()), (width as i64 - 130) as i32,
                (height as i64 - CELL_H as i64 - 3) as i32, TEXT_FAINT, Weight::Regular, 1));
        }
        proof {
            assert(ops_view(ops@) =~= base + list_ops(rv, self.scroll as int, self.selected as int, visible_rows_spec(height), width, height));
        }
    }

    /// Draw the window: note the geometry, then paint the scene.
    pub fn draw(&mut self, surface: &mut Surface, font: &Font, m: &Machine)
        requires
            old(self).wf(),
            m.wf(),
            old(surface).wf(),
            font.wf(),
            drawable(old(self).scroll as int, rows_spec(old(self).page, m).len() as int, old(surface).height as i32),
        ensures
            final(self).wf(),
            final(self).view() == (old(self).view().0, old(self).view().1, old(self).view().2, old(self).view().3,
                old(self).view().4, old(surface).width as i32, visible_rows_spec(old(surface).height as i32), false),
            final(surface).wf(),
            final(surface).width == old(surface).width,
            final(surface).height == old(surface).height,
            (final(surface).pixels@, final(surface).clip) == run((old(surface).pixels@, old(surface).clip),
                settings_scene(old(self).view(), rows_spec(old(self).page, m), old(surface).width as i32, old(surface).height as i32),
                old(surface).width as int, old(surface).height as int, font.rows@, old(surface).clip),
    {
        let width = surface.width as i32;
        let height = surface.height as i32;
        self.note_geometry(width, height);
        let ops = self.scene(m, width, height);
        paint(surface, font, &ops);
        self.dirty = false;
    }
}

} // verus!
