//! The built-in applications: their state and the rules they follow, and
//! the launcher's list of them.

pub mod calculator;
pub mod editor;
pub mod shell;
pub mod terminal;
pub mod snake;
pub mod tetris;
pub mod settings;
pub mod devices;
pub mod files;
pub mod help;
pub mod paint;
pub mod monitor;
pub mod about;

use vstd::prelude::*;

verus! {

use crate::gfx::font::{ARROW_RIGHT, BLOCK, BULLET, CHIP, DITHER, HALF_BLOCK, LOGO};

/// A cell of the text grid apps lay text out on: one glyph.
pub const CELL_W: i32 = 8;
pub const CELL_H: i32 = 16;

/// The pointer as a window sees it: where it is, in window coordinates,
/// and which button changed.
#[derive(Clone, Copy, Debug, PartialEq, Eq, Structural)]
pub struct WindowMouse {
    pub x: i32,
    pub y: i32,
    /// A button went down with this event.
    pub pressed: bool,
    /// A button came up with this event.
    pub released: bool,
    pub left: bool,
    pub right: bool,
}

/// What an application asks of the desktop after an event.
pub struct AppResponse {
    /// Open the application with this name.
    pub launch: Option<String>,
    /// Close this window.
    pub close: bool,
    /// Keep the pointer for this window while a button is held.
    pub grab_pointer: bool,
    /// Give the window this title.
    pub retitle: Option<String>,
    /// Tones to play on the speaker.
    pub sound: Vec<crate::drivers::speaker::Step>,
}

impl AppResponse {
    pub fn new() -> (r: AppResponse)
        ensures
            r.launch is None && !r.close && !r.grab_pointer && r.retitle is None && r.sound@.len() == 0,
    {
        AppResponse { launch: None, close: false, grab_pointer: false, retitle: None, sound: Vec::new() }
    }
}

/// Which application a launcher entry starts.
#[derive(Clone, Copy, Debug, PartialEq, Eq, Structural)]
pub enum AppKind {
    Terminal,
    Files,
    Editor,
    Monitor,
    Devices,
    Settings,
    Calculator,
    Tetris,
    Snake,
    Paint,
    Help,
    About,
}

/// One thing the launcher offers: its short name, window title, icon
/// glyph, window size and the application it starts.
pub struct AppEntry {
    pub name: &'static str,
    pub title: &'static str,
    pub icon: u8,
    pub width: i32,
    pub height: i32,
    pub kind: AppKind,
}

/// An entry as plain values.
pub type EntryView = (Seq<char>, Seq<char>, u8, i32, i32, AppKind);

impl AppEntry {
    pub open spec fn view(&self) -> EntryView {
        (self.name@, self.title@, self.icon, self.width, self.height, self.kind)
    }
}

/// The launcher's list, in function-key order.
pub open spec fn registry_table() -> Seq<EntryView> {
    seq![
        ("terminal"@, "Terminal"@, ARROW_RIGHT, 680i32, 430i32, AppKind::Terminal),
        ("files"@, "Files"@, BLOCK, 600i32, 360i32, AppKind::Files),
        ("editor"@, "Editor"@, BULLET, 560i32, 380i32, AppKind::Editor),
        ("monitor"@, "System Monitor"@, CHIP, 520i32, 460i32, AppKind::Monitor),
        ("devices"@, "Devices"@, CHIP, 620i32, 420i32, AppKind::Devices),
        ("settings"@, "Settings"@, CHIP, 620i32, 460i32, AppKind::Settings),
        ("calculator"@, "Calculator"@, DITHER, 280i32, 380i32, AppKind::Calculator),
        ("tetris"@, "Tetris"@, HALF_BLOCK, 380i32, 470i32, AppKind::Tetris),
        ("snake"@, "Snake"@, HALF_BLOCK, 460i32, 380i32, AppKind::Snake),
        ("paint"@, "Paint"@, DITHER, 520i32, 360i32, AppKind::Paint),
        ("help"@, "Manual"@, BULLET, 620i32, 400i32, AppKind::Help),
        ("about"@, "About HALCYON"@, LOGO, 560i32, 330i32, AppKind::About),
    ]
}

fn entry(name: &'static str, title: &'static str, icon: u8, width: i32, height: i32, kind: AppKind) -> (e: AppEntry)
    ensures
        e.view() == (name@, title@, icon, width, height, kind),
{
    AppEntry { name, title, icon, width, height, kind }
}

/// Everything the launcher offers, in function-key order.
pub fn registry() -> (entries: Vec<AppEntry>)
    ensures
        entries@.len() == registry_table().len(),
        forall|i: int| 0 <= i < entries@.len() ==> (#[trigger] entries@[i]).view() == registry_table()[i],
{
    let mut entries: Vec<AppEntry> = Vec::new();
    entries.push(entry("terminal", "Terminal", ARROW_RIGHT, 680, 430, AppKind::Terminal));
    entries.push(entry("files", "Files", BLOCK, 600, 360, AppKind::Files));
    entries.push(entry("editor", "Editor", BULLET, 560, 380, AppKind::Editor));
    entries.push(entry("monitor", "System Monitor", CHIP, 520, 460, AppKind::Monitor));
    entries.push(entry("devices", "Devices", CHIP, 620, 420, AppKind::Devices));
    entries.push(entry("settings", "Settings", CHIP, 620, 460, AppKind::Settings));
    entries.push(entry("calculator", "Calculator", DITHER, 280, 380, AppKind::Calculator));
    entries.push(entry("tetris", "Tetris", HALF_BLOCK, 380, 470, AppKind::Tetris));
    entries.push(entry("snake", "Snake", HALF_BLOCK, 460, 380, AppKind::Snake));
    entries.push(entry("paint", "Paint", DITHER, 520, 360, AppKind::Paint));
    entries.push(entry("help", "Manual", BULLET, 620, 400, AppKind::Help));
    entries.push(entry("about", "About HALCYON", LOGO, 560, 330, AppKind::About));
    entries
}

/// Which file the next editor window should open. The file browser sets
/// it before it asks for the editor; starting the editor takes it.
pub struct EditorTarget {
    pub path: Option<String>,
}

impl EditorTarget {
    pub fn new() -> (t: EditorTarget)
        ensures
            t.path is None,
    {
        EditorTarget { path: None }
    }

    /// Hand over the path, leaving nothing behind.
    pub fn take(&mut self) -> (r: Option<String>)
        ensures
            final(self).path is None,
            r == old(self).path,
    {
        let r = self.path.take();
        r
    }
}

/// Remember `path` for the next editor window.
pub fn set_editor_target(target: &mut EditorTarget, path: &str)
    ensures
        final(target).path matches Some(p) && p@ == path@,
{
    target.path = Some(path.to_owned());
}

} // verus!
