//! What this machine is made of: CPU, memory map, PCI bus, firmware.
//!
//! The figures come from a `Facts` snapshot the caller takes (CPUID, the
//! timer, the allocators); the tabs' text is made from it here.

use vstd::prelude::*;
use vstd::utf8::{valid_utf8, decode_utf8};

verus! {

use crate::text::{dec_str, hex_fixed, hex_str, push_dec, push_hex, push_hex_min, push_str, string_of, to_string, trimmed};
use crate::arch::cpu::CpuInfo;
use crate::arch::pit::TICK_HZ;
use crate::drivers::pci::Device;
use crate::gfx::palette::{Color, AMBER, CYAN, TEXT, TEXT_DIM, TEXT_FAINT, WARN};
use crate::gfx::draw::Rect;
use crate::input::{Key, KeyEvent};
use crate::apps::WindowMouse;
use crate::apps::shell::{Line, LineView, line_view, lines_view, lemma_lines_push, padded, push_padded, push_right, right_aligned};
use crate::mm::{format_bytes, unit_name, unit_steps, unit_value};
use crate::mm::heap::{HeapStats, HEAP_BASE};

pub const TAB_HEIGHT: i32 = 24;

/// Where things live in the kernel's address space.
pub const KERNEL_VMA: u64 = 0xFFFF_FFFF_8000_0000;
pub const PHYSMAP_BASE: u64 = 0xFFFF_8000_0000_0000;
pub const FRAMEBUFFER_BASE: u64 = 0xFFFF_9000_0000_0000;

#[derive(Clone, Copy, Debug, PartialEq, Eq, Structural)]
pub enum Tab {
    Cpu,
    Pci,
    Memory,
}

/// What the tabs show, read by the caller.
pub struct Facts {
    pub cpu: CpuInfo,
    pub uptime_ms: u64,
    /// The timestamp counter.
    pub tsc: u64,
    /// Physical memory: all of it, in use, free; and where the frame
    /// bitmap is and how big.
    pub total: u64,
    pub used: u64,
    pub free: u64,
    pub bitmap_phys: u64,
    pub bitmap_bytes: usize,
    pub heap: HeapStats,
    /// PAT entry 4 is write-combining.
    pub write_combining: bool,
}

pub open spec fn vendor_text(i: &CpuInfo) -> Seq<char> {
    if valid_utf8(i.vendor@) { decode_utf8(i.vendor@) } else { "unknown"@ }
}

pub open spec fn brand_text(i: &CpuInfo) -> Seq<char> {
    let b = i.brand@.take(i.brand_len as int);
    if valid_utf8(b) { trimmed(decode_utf8(b)) } else { trimmed("unknown"@) }
}

pub open spec fn feature_line(name: Seq<char>, present: bool) -> LineView {
    ("  "@ + padded(name, 28) + (if present { "yes"@ } else { "no"@ }), if present { TEXT } else { TEXT_FAINT })
}

/// `v` in decimal, zero-padded to three places.
pub open spec fn three_digits(v: nat) -> Seq<char> {
    let d = dec_str(v);
    if d.len() >= 3 { d } else { Seq::new((3 - d.len()) as nat, |i: int| '0') + d }
}

pub open spec fn cpu_lines_spec(f: &Facts) -> Seq<LineView> {
    let brand = if brand_text(&f.cpu).len() == 0 { vendor_text(&f.cpu) } else { brand_text(&f.cpu) };
    seq![
        (brand, AMBER),
        (""@, TEXT),
        ("vendor          "@ + vendor_text(&f.cpu), TEXT),
        ("family/model    0x"@ + hex_str(f.cpu.family as nat) + " / 0x"@ + hex_str(f.cpu.model as nat)
            + "  stepping "@ + dec_str(f.cpu.stepping as nat), TEXT),
        (""@, TEXT),
        ("features"@, CYAN),
        feature_line("NX  (no-execute pages)"@, f.cpu.has_nx),
        feature_line("PAT (page attribute table)"@, f.cpu.has_pat),
        feature_line("SSE2"@, f.cpu.has_sse2),
        feature_line("APIC"@, f.cpu.has_apic),
        feature_line("invariant TSC"@, f.cpu.has_invariant_tsc),
        (""@, TEXT),
        ("timing"@, CYAN),
        ("  PIT                         "@ + dec_str(TICK_HZ as nat) + " Hz"@, TEXT),
        ("  uptime                      "@ + dec_str((f.uptime_ms / 1000) as nat) + "."@
            + three_digits((f.uptime_ms % 1000) as nat) + " s"@, TEXT),
        ("  timestamp counter           "@ + dec_str(f.tsc as nat), TEXT_DIM),
    ]
}

/// A byte count: the label, the value in its unit, and the exact count.
pub open spec fn show(label: Seq<char>, bytes: u64) -> Seq<char> {
    "  "@ + padded(label, 22) + right_aligned(dec_str(unit_value(bytes as nat, 0)), 6) + " "@
        + padded(unit_name(unit_steps(bytes as nat, 0)), 5) + "("@ + dec_str(bytes as nat) + " bytes)"@
}

pub open spec fn address_line(label: Seq<char>, base: u64) -> LineView {
    ("  "@ + padded(label, 22) + "0x"@ + hex_fixed(base as nat, 16), TEXT)
}

pub open spec fn memory_lines_spec(f: &Facts) -> Seq<LineView> {
    seq![
        ("physical memory"@, AMBER),
        (show("total"@, f.total), TEXT),
        (show("in use"@, f.used), TEXT),
        (show("free"@, f.free), TEXT),
        ("  "@ + padded("frame bitmap at"@, 22) + "0x"@ + hex_str(f.bitmap_phys as nat) + " ("@
            + dec_str(f.bitmap_bytes as nat) + " bytes)"@, TEXT_DIM),
        (""@, TEXT),
        ("kernel heap"@, AMBER),
        (show("mapped"@, f.heap.mapped), TEXT),
        (show("allocated"@, f.heap.allocated as u64), TEXT),
        ("  "@ + padded("allocations"@, 22) + dec_str(f.heap.live_allocations as nat) + " live, "@
            + dec_str(f.heap.total_allocations as nat) + " served, "@ + dec_str(f.heap.free_blocks as nat)
            + " free blocks"@, TEXT),
        (""@, TEXT),
        ("address space"@, AMBER),
        address_line("kernel image"@, KERNEL_VMA),
        address_line("physical map"@, PHYSMAP_BASE),
        address_line("framebuffer"@, FRAMEBUFFER_BASE),
        address_line("heap"@, HEAP_BASE),
        ("  "@ + padded("framebuffer caching"@, 22)
            + (if f.write_combining { "write-combining (PAT entry 4)"@ } else { "uncached"@ }), TEXT_DIM),
    ]
}

pub open spec fn pci_lines_spec(cache: Seq<Seq<char>>) -> Seq<LineView> {
    seq![
        (dec_str(cache.len()) + " device(s) on the PCI bus"@, AMBER),
        ("bus:dev.fn  vendor:id   description"@, TEXT_FAINT),
    ] + cache.map_values(|e: Seq<char>| (e, TEXT)) + (if cache.len() == 0 {
        seq![("nothing responded \u{2014} this machine may have no PCI bus"@, WARN)]
    } else {
        Seq::empty()
    })
}

/// How many lines each tab has.
pub open spec fn line_count(tab: Tab, devices: nat) -> nat {
    match tab {
        Tab::Cpu => 16,
        Tab::Memory => 17,
        Tab::Pci => devices + 2 + if devices == 0 { 1nat } else { 0nat },
    }
}

fn push_line(lines: &mut Vec<Line>, text: Vec<char>, color: Color)
    ensures
        lines_view(final(lines)@) == lines_view(old(lines)@).push((text@, color)),
{
    let l = Line::owned(text, color);
    proof {
        lemma_lines_push(lines@, l);
    }
    lines.push(l);
}

fn push_text(lines: &mut Vec<Line>, text: &str, color: Color)
    ensures
        lines_view(final(lines)@) == lines_view(old(lines)@).push((text@, color)),
{
    let l = Line::new(text, color);
    proof {
        lemma_lines_push(lines@, l);
    }
    lines.push(l);
}

fn feature(lines: &mut Vec<Line>, name: &str, present: bool)
    ensures
        lines_view(final(lines)@) == lines_view(old(lines)@).push(feature_line(name@, present)),
{
    let mut t: Vec<char> = Vec::new();
    push_str(&mut t, "  ");
    push_padded(&mut t, name, 28);
    push_str(&mut t, if present { "yes" } else { "no" });
    proof {
        assert(t@ =~= feature_line(name@, present).0);
    }
    push_line(lines, t, if present { TEXT } else { TEXT_FAINT });
}

#[verifier::rlimit(50)]
pub fn cpu_lines(f: &Facts) -> (lines: Vec<Line>)
    requires
        f.cpu.brand_len <= 48,
    ensures
        lines_view(lines@) == cpu_lines_spec(f),
{
    let mut lines: Vec<Line> = Vec::new();
    let brand = f.cpu.brand_str();
    let vendor = f.cpu.vendor_str();
    let shown = if brand.is_empty() { vendor } else { brand };
    push_text(&mut lines, shown, AMBER);
    push_text(&mut lines, "", TEXT);
    let mut t: Vec<char> = Vec::new();
    push_str(&mut t, "vendor          ");
    push_str(&mut t, vendor);
    push_line(&mut lines, t, TEXT);
    let mut t: Vec<char> = Vec::new();
    push_str(&mut t, "family/model    0x");
    push_hex_min(&mut t, f.cpu.family as u64);
    push_str(&mut t, " / 0x");
    push_hex_min(&mut t, f.cpu.model as u64);
    push_str(&mut t, "  stepping ");
    push_dec(&mut t, f.cpu.stepping as u64);
    push_line(&mut lines, t, TEXT);
    push_text(&mut lines, "", TEXT);
    push_text(&mut lines, "features", CYAN);
    feature(&mut lines, "NX  (no-execute pages)", f.cpu.has_nx);
    feature(&mut lines, "PAT (page attribute table)", f.cpu.has_pat);
    feature(&mut lines, "SSE2", f.cpu.has_sse2);
    feature(&mut lines, "APIC", f.cpu.has_apic);
    feature(&mut lines, "invariant TSC", f.cpu.has_invariant_tsc);
    push_text(&mut lines, "", TEXT);
    push_text(&mut lines, "timing", CYAN);
    let mut t: Vec<char> = Vec::new();
    push_str(&mut t, "  PIT                         ");
    push_dec(&mut t, TICK_HZ as u64);
    push_str(&mut t, " Hz");
    push_line(&mut lines, t, TEXT);
    let mut t: Vec<char> = Vec::new();
    push_str(&mut t, "  uptime                      ");
    push_dec(&mut t, f.uptime_ms / 1000);
    push_str(&mut t, ".");
    crate::apps::shell::push_zero_padded(&mut t, f.uptime_ms % 1000, 3);
    push_str(&mut t, " s");
    push_line(&mut lines, t, TEXT);
    let mut t: Vec<char> = Vec::new();
    push_str(&mut t, "  timestamp counter           ");
    push_dec(&mut t, f.tsc);
    push_line(&mut lines, t, TEXT_DIM);
    proof {
        assert(lines_view(lines@) =~= cpu_lines_spec(f));
    }
    lines
}

fn push_show(t: &mut Vec<char>, label: &str, bytes: u64)
    ensures
        final(t)@ == old(t)@ + show(label@, bytes),
{
    let (value, unit) = format_bytes(bytes);
    push_str(t, "  ");
    push_padded(t, label, 22);
    let mut digits: Vec<char> = Vec::new();
    push_dec(&mut digits, value);
    push_right(t, digits.as_slice(), 6);
    push_str(t, " ");
    push_padded(t, unit, 5);
    push_str(t, "(");
    push_dec(t, bytes);
    push_str(t, " bytes)");
    proof {
        assert(final(t)@ =~= old(t)@ + show(label@, bytes));
    }
}

fn address(lines: &mut Vec<Line>, label: &str, base: u64)
    ensures
        lines_view(final(lines)@) == lines_view(old(lines)@).push(address_line(label@, base)),
{
    let mut t: Vec<char> = Vec::new();
    push_str(&mut t, "  ");
    push_padded(&mut t, label, 22);
    push_str(&mut t, "0x");
    push_hex(&mut t, base, 16);
    proof {
        assert(t@ =~= address_line(label@, base).0);
    }
    push_line(lines, t, TEXT);
}

pub fn memory_lines(f: &Facts) -> (lines: Vec<Line>)
    ensures
        lines_view(lines@) == memory_lines_spec(f),
{
    let mut lines: Vec<Line> = Vec::new();
    push_text(&mut lines, "physical memory", AMBER);
    let mut t: Vec<char> = Vec::new();
    push_show(&mut t, "total", f.total);
    push_line(&mut lines, t, TEXT);
    let mut t: Vec<char> = Vec::new();
    push_show(&mut t, "in use", f.used);
    push_line(&mut lines, t, TEXT);
    let mut t: Vec<char> = Vec::new();
    push_show(&mut t, "free", f.free);
    push_line(&mut lines, t, TEXT);
    let mut t: Vec<char> = Vec::new();
    push_str(&mut t, "  ");
    push_padded(&mut t, "frame bitmap at", 22);
    push_str(&mut t, "0x");
    push_hex_min(&mut t, f.bitmap_phys);
    push_str(&mut t, " (");
    push_dec(&mut t, f.bitmap_bytes as u64);
    push_str(&mut t, " bytes)");
    push_line(&mut lines, t, TEXT_DIM);
    push_text(&mut lines, "", TEXT);
    push_text(&mut lines, "kernel heap", AMBER);
    let mut t: Vec<char> = Vec::new();
    push_show(&mut t, "mapped", f.heap.mapped);
    push_line(&mut lines, t, TEXT);
    let mut t: Vec<char> = Vec::new();
    push_show(&mut t, "allocated", f.heap.allocated as u64);
    push_line(&mut lines, t, TEXT);
    let mut t: Vec<char> = Vec::new();
    push_str(&mut t, "  ");
    push_padded(&mut t, "allocations", 22);
    push_dec(&mut t, f.heap.live_allocations as u64);
    push_str(&mut t, " live, ");
    push_dec(&mut t, f.heap.total_allocations);
    push_str(&mut t, " served, ");
    push_dec(&mut t, f.heap.free_blocks as u64);
    push_str(&mut t, " free blocks");
    push_line(&mut lines, t, TEXT);
    push_text(&mut lines, "", TEXT);
    push_text(&mut lines, "address space", AMBER);
    address(&mut lines, "kernel image", KERNEL_VMA);
    address(&mut lines, "physical map", PHYSMAP_BASE);
    address(&mut lines, "framebuffer", FRAMEBUFFER_BASE);
    address(&mut lines, "heap", HEAP_BASE);
    let mut t: Vec<char> = Vec::new();
    push_str(&mut t, "  ");
    push_padded(&mut t, "framebuffer caching", 22);
    push_str(&mut t, if f.write_combining { "write-combining (PAT entry 4)" } else { "uncached" });
    push_line(&mut lines, t, TEXT_DIM);
    proof {
        assert(lines_view(lines@) =~= memory_lines_spec(f));
    }
    lines
}

pub struct Devices {
    pub tab: Tab,
    /// PCI enumeration walks every bus, so it is done once and kept.
    pub pci_cache: Vec<String>,
    pub scroll: usize,
    pub dirty: bool,
}

pub open spec fn cache_view(v: Seq<String>) -> Seq<Seq<char>> {
    v.map_values(|s: String| s@)
}

/// The tab after `t`.
pub open spec fn next_tab(t: Tab) -> Tab {
    match t {
        Tab::Cpu => Tab::Pci,
        Tab::Pci => Tab::Memory,
        Tab::Memory => Tab::Cpu,
    }
}

/// Where the scroll goes for a key, before it is held within the lines.
pub open spec fn scrolled_by(key: Key, scroll: int) -> int {
    match key {
        Key::Down => scroll + 1,
        Key::Up => if scroll >= 1 { scroll - 1 } else { 0 },
        Key::PageDown => scroll + 10,
        Key::PageUp => if scroll >= 10 { scroll - 10 } else { 0 },
        Key::Home => 0,
        _ => scroll,
    }
}

/// The tab under `x`, `y`: the tabs are laid out as if the window were 400
/// pixels wider than the click is from its left edge, at most 120 each.
pub open spec fn tab_under(x: i32, y: i32) -> Option<Tab> {
    let width = (if x > 1 { x as int } else { 1 }) + 400;
    let each = if width / 3 < 120 { width / 3 } else { 120 };
    if 0 <= y < TAB_HEIGHT && 0 <= x < 3 * each {
        let i = x as int / each;
        Some(if i == 0 { Tab::Cpu } else if i == 1 { Tab::Pci } else { Tab::Memory })
    } else {
        None
    }
}

impl Devices {
    /// The tab, the listing cache, the scroll and the dirty flag.
    pub open spec fn view(&self) -> (Tab, Seq<Seq<char>>, int, bool) {
        (self.tab, cache_view(self.pci_cache@), self.scroll as int, self.dirty)
    }

    pub open spec fn wf(&self) -> bool {
        self.pci_cache@.len() < 0x0100_0000 && self.scroll < 0x1000_0000
    }

    /// Describe each device once, for the PCI tab.
    pub fn new(devices: &[Device]) -> (d: Devices)
        requires
            devices@.len() < 0x0100_0000,
        ensures
            d.wf(),
            d.tab == Tab::Cpu,
            d.scroll == 0,
            d.dirty,
            cache_view(d.pci_cache@) == devices@.map_values(|x: Device| crate::drivers::pci::description(x)),
    {
        let mut cache: Vec<String> = Vec::new();
        let mut i: usize = 0;
        while i < devices.len()
            invariant
                i <= devices@.len(),
                cache_view(cache@) == devices@.take(i as int).map_values(|x: Device| crate::drivers::pci::description(x)),
            decreases devices@.len() - i,
        {
            let text = devices[i].describe();
            let ghost before = cache_view(cache@);
            cache.push(text);
            proof {
                assert(cache_view(cache@) =~= before.push(text@));
                assert(devices@.take(i + 1) =~= devices@.take(i as int).push(devices@[i as int]));
            }
            i += 1;
            proof {
                assert(cache_view(cache@) =~= devices@.take(i as int).map_values(|x: Device| crate::drivers::pci::description(x)));
            }
        }
        proof {
            assert(devices@.take(devices@.len() as int) =~= devices@);
        }
        Devices { tab: Tab::Cpu, pci_cache: cache, scroll: 0, dirty: true }
    }

    pub fn pci_lines(&self) -> (lines: Vec<Line>)
        ensures
            lines_view(lines@) == pci_lines_spec(cache_view(self.pci_cache@)),
    {
        let mut lines: Vec<Line> = Vec::new();
        let mut t: Vec<char> = Vec::new();
        push_dec(&mut t, self.pci_cache.len() as u64);
        push_str(&mut t, " device(s) on the PCI bus");
        push_line(&mut lines, t, AMBER);
        push_text(&mut lines, "bus:dev.fn  vendor:id   description", TEXT_FAINT);
        let ghost head = lines_view(lines@);
        let ghost c = cache_view(self.pci_cache@);
        let mut i: usize = 0;
        while i < self.pci_cache.len()
            invariant
                c == cache_view(self.pci_cache@),
                i <= c.len(),
                lines_view(lines@) == head + c.take(i as int).map_values(|e: Seq<char>| (e, TEXT)),
            decreases c.len() - i,
        {
            push_text(&mut lines, self.pci_cache[i].as_str(), TEXT);
            i += 1;
            proof {
                assert(c.take(i as int).map_values(|e: Seq<char>| (e, TEXT))
                    =~= c.take(i - 1).map_values(|e: Seq<char>| (e, TEXT)).push((c[i - 1], TEXT)));
            }
        }
        if self.pci_cache.len() == 0 {
            push_text(&mut lines, "nothing responded \u{2014} this machine may have no PCI bus", WARN);
        }
        proof {
            assert(c.take(c.len() as int) =~= c);
            assert(lines_view(lines@) =~= pci_lines_spec(c));
        }
        lines
    }

    /// The current tab's lines.
    pub fn lines(&self, f: &Facts) -> (lines: Vec<Line>)
        requires
            f.cpu.brand_len <= 48,
        ensures
            lines_view(lines@) == match self.tab {
                Tab::Cpu => cpu_lines_spec(f),
                Tab::Pci => pci_lines_spec(cache_view(self.pci_cache@)),
                Tab::Memory => memory_lines_spec(f),
            },
    {
        match self.tab {
            Tab::Cpu => cpu_lines(f),
            Tab::Pci => self.pci_lines(),
            Tab::Memory => memory_lines(f),
        }
    }

    fn count(&self) -> (n: usize)
        requires
            self.pci_cache@.len() < 0x0100_0000,
        ensures
            n == line_count(self.tab, self.pci_cache@.len()),
    {
        match self.tab {
            Tab::Cpu => 16,
            Tab::Memory => 17,
            Tab::Pci => self.pci_cache.len() + 2 + if self.pci_cache.len() == 0 { 1 } else { 0 },
        }
    }

    /// Tab cycles the tabs; the arrows, page keys and Home scroll, held
    /// within the lines.
    pub fn on_key(&mut self, event: &KeyEvent)
        requires
            old(self).wf(),
        ensures
            final(self).wf(),
            cache_view(final(self).pci_cache@) == cache_view(old(self).pci_cache@),
            !event.pressed ==> final(self).view() == old(self).view(),
            event.pressed ==> {
                let tab = if event.key == Key::Tab { next_tab(old(self).tab) } else { old(self).tab };
                let s = if event.key == Key::Tab { 0 } else { scrolled_by(event.key, old(self).scroll as int) };
                let n = line_count(tab, old(self).pci_cache@.len()) as int;
                let limit = if n >= 1 { n - 1 } else { 0 };
                &&& final(self).tab == tab
                &&& final(self).scroll == if s < limit { s } else { limit }
                &&& final(self).dirty
            },
    {
        if !event.pressed {
            return;
        }
        self.dirty = true;
        match event.key {
            Key::Tab => {
                self.tab = match self.tab {
                    Tab::Cpu => Tab::Pci,
                    Tab::Pci => Tab::Memory,
                    Tab::Memory => Tab::Cpu,
                };
                self.scroll = 0;
            },
            Key::Down => self.scroll = self.scroll + 1,
            Key::Up => self.scroll = if self.scroll >= 1 { self.scroll - 1 } else { 0 },
            Key::PageDown => self.scroll = self.scroll + 10,
            Key::PageUp => self.scroll = if self.scroll >= 10 { self.scroll - 10 } else { 0 },
            Key::Home => self.scroll = 0,
            _ => {},
        }
        let n = self.count();
        let limit = if n >= 1 { n - 1 } else { 0 };
        if self.scroll > limit {
            self.scroll = limit;
        }
    }

    /// A click on a tab shows it.
    pub fn on_mouse(&mut self, event: &WindowMouse)
        requires
            old(self).wf(),
            event.x < i32::MAX - 400,
        ensures
            final(self).wf(),
            cache_view(final(self).pci_cache@) == cache_view(old(self).pci_cache@),
            (event.pressed && event.y < TAB_HEIGHT && tab_under(event.x, event.y) is Some) ==> {
                &&& final(self).tab == tab_under(event.x, event.y)->0
                &&& final(self).scroll == 0
                &&& final(self).dirty
            },
            !(event.pressed && event.y < TAB_HEIGHT && tab_under(event.x, event.y) is Some)
                ==> final(self).view() == old(self).view(),
    {
        if !event.pressed || event.y >= TAB_HEIGHT {
            return;
        }
        let width = (if event.x > 1 { event.x } else { 1 }) + 400;
        let each = if width / 3 < 120 { width / 3 } else { 120 };
        if event.y >= 0 && event.x >= 0 && event.x < 3 * each {
            let i = event.x / each;
            self.tab = if i == 0 { Tab::Cpu } else if i == 1 { Tab::Pci } else { Tab::Memory };
            self.scroll = 0;
            self.dirty = true;
        }
    }

    /// The CPU and memory tabs show live figures: refresh twice a second.
    pub fn tick(&mut self, now_ms: u64)
        ensures
            final(self).dirty == (old(self).dirty || (old(self).tab != Tab::Pci && now_ms % 500 < 20)),
            final(self).tab == old(self).tab,
            final(self).scroll == old(self).scroll,
            cache_view(final(self).pci_cache@) == cache_view(old(self).pci_cache@),
    {
        if self.tab != Tab::Pci && now_ms % 500 < 20 {
            self.dirty = true;
        }
    }

    pub fn dirty(&self) -> (d: bool)
        ensures
            d == self.dirty,
    {
        self.dirty
    }

    pub fn clear_dirty(&mut self)
        ensures
            !final(self).dirty,
            final(self).tab == old(self).tab,
            final(self).scroll == old(self).scroll,
            cache_view(final(self).pci_cache@) == cache_view(old(self).pci_cache@),
    {
        self.dirty = false;
    }

    pub fn min_size(&self) -> (r: (i32, i32))
        ensures
            r == (520i32, 300i32),
    {
        (520, 300)
    }
}

/// The tabs and where they sit when the window is `width` wide: a third
/// each, at most 120 pixels.
pub fn tab_rects(width: i32) -> (r: Vec<(Tab, Rect)>)
    ensures
        r@.len() == 3,
        ({
            let each = if crate::num::quot(width as int, 3) < 120 { crate::num::quot(width as int, 3) } else { 120 };
            &&& r@[0] == (Tab::Cpu, Rect { x: 0, y: 0, w: each as i32, h: TAB_HEIGHT })
            &&& r@[1] == (Tab::Pci, Rect { x: each as i32, y: 0, w: each as i32, h: TAB_HEIGHT })
            &&& r@[2] == (Tab::Memory, Rect { x: (2 * each) as i32, y: 0, w: each as i32, h: TAB_HEIGHT })
        }),
{
    let each = if width / 3 < 120 { width / 3 } else { 120 };
    let mut r: Vec<(Tab, Rect)> = Vec::new();
    r.push((Tab::Cpu, Rect::new(0, 0, each, TAB_HEIGHT)));
    r.push((Tab::Pci, Rect::new(each, 0, each, TAB_HEIGHT)));
    r.push((Tab::Memory, Rect::new(2 * each, 0, each, TAB_HEIGHT)));
    r
}

} // verus!
