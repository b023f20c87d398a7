//! Multiboot2 handoff: the parser for the information structure GRUB leaves
//! behind. The structure's bytes are read out of memory by the caller; this
//! module only interprets them.

use vstd::prelude::*;
use vstd::utf8::{valid_utf8, decode_utf8};
use crate::text::utf8;

verus! {

pub const KERNEL_VMA: u64 = 0xFFFF_FFFF_8000_0000;
pub const MAX_REGIONS: usize = 64;
pub const MAX_MODULES: usize = 8;
pub const MAX_CMDLINE: usize = 128;
pub const MAX_BOOTLOADER: usize = 64;
pub const MAX_MODULE_NAME: usize = 32;

#[derive(Clone, Copy, Debug, PartialEq, Eq, Structural)]
pub enum MemoryKind {
    Usable,
    Reserved,
    AcpiReclaimable,
    AcpiNvs,
    Defective,
}

#[derive(Clone, Copy, Debug, PartialEq, Eq, Structural)]
pub struct MemoryRegion {
    pub base: u64,
    pub length: u64,
    pub kind: MemoryKind,
}

#[derive(Clone, Copy, Debug, PartialEq, Eq, Structural)]
pub enum FramebufferKind {
    Indexed,
    Rgb,
    EgaText,
    Unknown,
}

#[derive(Clone, Copy, Debug, PartialEq, Eq, Structural)]
pub struct FramebufferInfo {
    pub addr: u64,
    pub pitch: u32,
    pub width: u32,
    pub height: u32,
    pub bpp: u8,
    pub kind: FramebufferKind,
    pub red_shift: u8,
    pub red_size: u8,
    pub green_shift: u8,
    pub green_size: u8,
    pub blue_shift: u8,
    pub blue_size: u8,
}

pub struct Module {
    pub start: u64,
    pub end: u64,
    /// The string GRUB's `module2` line gave it, at most 32 bytes.
    pub name: Vec<u8>,
    pub name_len: usize,
}

pub struct BootInfo {
    pub regions: Vec<MemoryRegion>,
    pub region_count: usize,
    pub modules: Vec<Module>,
    pub module_count: usize,
    pub framebuffer: Option<FramebufferInfo>,
    pub rsdp: Option<u64>,
    pub bootloader: Vec<u8>,
    pub bootloader_len: usize,
    pub cmdline: Vec<u8>,
    pub cmdline_len: usize,
    /// Physical end of everything the bootloader placed in memory.
    pub reclaim_after: u64,
}

// --- reading little-endian fields ---

/// Byte `i` of `b`, or zero past either end.
pub open spec fn rd8(b: Seq<u8>, i: int) -> u8 {
    if 0 <= i < b.len() { b[i] } else { 0 }
}

pub open spec fn rd32(b: Seq<u8>, i: int) -> u32 {
    (rd8(b, i) as int + rd8(b, i + 1) as int * 0x100 + rd8(b, i + 2) as int * 0x1_0000 + rd8(b, i + 3) as int * 0x100_0000) as u32
}

pub open spec fn rd64(b: Seq<u8>, i: int) -> u64 {
    (rd32(b, i) as int + rd32(b, i + 4) as int * 0x1_0000_0000) as u64
}

fn read_u8(b: &[u8], i: u64) -> (r: u8)
    ensures
        r == rd8(b@, i as int),
{
    if i < b.len() as u64 { b[i as usize] } else { 0 }
}

fn read_u32(b: &[u8], i: u64) -> (r: u32)
    requires
        i + 4 <= u64::MAX,
    ensures
        r == rd32(b@, i as int),
{
    let b0 = read_u8(b, i) as u32;
    let b1 = read_u8(b, i + 1) as u32;
    let b2 = read_u8(b, i + 2) as u32;
    let b3 = read_u8(b, i + 3) as u32;
    b0 + b1 * 0x100 + b2 * 0x1_0000 + b3 * 0x100_0000
}

fn read_u64(b: &[u8], i: u64) -> (r: u64)
    requires
        i + 8 <= u64::MAX,
    ensures
        r == rd64(b@, i as int),
{
    let lo = read_u32(b, i) as u64;
    let hi = read_u32(b, i + 4) as u64;
    lo + hi * 0x1_0000_0000
}

/// The bytes of the NUL-terminated string at `at`, cut at `limit` bytes.
pub open spec fn cstr(b: Seq<u8>, at: int, limit: nat) -> Seq<u8>
    decreases limit,
{
    if limit == 0 || rd8(b, at) == 0 {
        Seq::empty()
    } else {
        seq![rd8(b, at)] + cstr(b, at + 1, (limit - 1) as nat)
    }
}

fn copy_cstr(b: &[u8], at: u64, limit: usize) -> (r: Vec<u8>)
    requires
        at + limit <= u64::MAX,
    ensures
        r@ == cstr(b@, at as int, limit as nat),
        r@.len() <= limit,
{
    let mut out: Vec<u8> = Vec::new();
    let mut len: usize = 0;
    while len < limit
        invariant
            len <= limit,
            at + limit <= u64::MAX,
            out@.len() == len,
            cstr(b@, at as int, limit as nat) == out@ + cstr(b@, at + len, (limit - len) as nat),
        ensures
            len <= limit,
            out@.len() == len,
            cstr(b@, at as int, limit as nat) == out@ + cstr(b@, at + len, (limit - len) as nat),
            cstr(b@, at + len, (limit - len) as nat) == Seq::<u8>::empty(),
        decreases limit - len,
    {
        let byte = read_u8(b, at + len as u64);
        if byte == 0 {
            assert(cstr(b@, at + len, (limit - len) as nat) =~= Seq::<u8>::empty());
            break;
        }
        let ghost before = out@;
        out.push(byte);
        assert(cstr(b@, at + len, (limit - len) as nat) == seq![byte] + cstr(b@, at + len + 1, (limit - len - 1) as nat));
        assert(before + cstr(b@, at + len, (limit - len) as nat) =~= out@ + cstr(b@, at + len + 1, (limit - len - 1) as nat));
        len += 1;
    }
    assert(out@ + Seq::<u8>::empty() =~= out@);
    out
}

} // verus!

verus! {

/// A module as the walk records it.
pub ghost struct ModuleView {
    pub start: u64,
    pub end: u64,
    pub name: Seq<u8>,
}

/// What the tag walk has gathered so far.
pub ghost struct BootView {
    pub regions: Seq<MemoryRegion>,
    pub modules: Seq<ModuleView>,
    pub framebuffer: Option<FramebufferInfo>,
    pub rsdp: Option<u64>,
    pub bootloader: Seq<u8>,
    pub cmdline: Seq<u8>,
    pub reclaim_after: u64,
}

pub open spec fn memory_kind(raw: u32) -> MemoryKind {
    if raw == 1 {
        MemoryKind::Usable
    } else if raw == 3 {
        MemoryKind::AcpiReclaimable
    } else if raw == 4 {
        MemoryKind::AcpiNvs
    } else if raw == 5 {
        MemoryKind::Defective
    } else {
        MemoryKind::Reserved
    }
}

/// The memory-map entries from `entry` on, each `size` bytes, that end by
/// `limit`, appended to `regions` while there is room and skipping empty ones.
pub open spec fn map_entries(b: Seq<u8>, entry: int, limit: int, size: int, regions: Seq<MemoryRegion>) -> Seq<MemoryRegion>
    decreases if limit > entry { limit - entry } else { 0 },
{
    if size <= 0 || entry + size > limit {
        regions
    } else {
        let length = rd64(b, entry + 8);
        let regions = if regions.len() < MAX_REGIONS && length > 0 {
            regions.push(MemoryRegion { base: rd64(b, entry), length, kind: memory_kind(rd32(b, entry + 16)) })
        } else {
            regions
        };
        map_entries(b, entry + size, limit, size, regions)
    }
}

pub open spec fn framebuffer_kind(raw: u8) -> FramebufferKind {
    if raw == 0 {
        FramebufferKind::Indexed
    } else if raw == 1 {
        FramebufferKind::Rgb
    } else if raw == 2 {
        FramebufferKind::EgaText
    } else {
        FramebufferKind::Unknown
    }
}

pub open spec fn framebuffer_tag(b: Seq<u8>, at: int) -> FramebufferInfo {
    let kind = framebuffer_kind(rd8(b, at + 29));
    let rgb = kind == FramebufferKind::Rgb;
    FramebufferInfo {
        addr: rd64(b, at + 8),
        pitch: rd32(b, at + 16),
        width: rd32(b, at + 20),
        height: rd32(b, at + 24),
        bpp: rd8(b, at + 28),
        kind,
        red_shift: if rgb { rd8(b, at + 32) } else { 16 },
        red_size: if rgb { rd8(b, at + 33) } else { 8 },
        green_shift: if rgb { rd8(b, at + 34) } else { 8 },
        green_size: if rgb { rd8(b, at + 35) } else { 8 },
        blue_shift: if rgb { rd8(b, at + 36) } else { 0 },
        blue_size: if rgb { rd8(b, at + 37) } else { 8 },
    }
}

/// The effect of the tag of type `ty` and `size` bytes at offset `at`, for a
/// structure that sits at physical address `base`.
pub open spec fn apply_tag(b: Seq<u8>, base: int, at: int, ty: u32, size: int, info: BootView) -> BootView {
    if ty == 1 {
        BootView { cmdline: cstr(b, at + 8, MAX_CMDLINE as nat), ..info }
    } else if ty == 2 {
        BootView { bootloader: cstr(b, at + 8, MAX_BOOTLOADER as nat), ..info }
    } else if ty == 3 {
        if info.modules.len() < MAX_MODULES {
            let start = rd32(b, at + 8) as u64;
            let end = rd32(b, at + 12) as u64;
            BootView {
                modules: info.modules.push(ModuleView { start, end, name: cstr(b, at + 16, MAX_MODULE_NAME as nat) }),
                reclaim_after: if end > info.reclaim_after { end } else { info.reclaim_after },
                ..info
            }
        } else {
            info
        }
    } else if ty == 6 {
        let entry_size = rd32(b, at + 8) as int;
        if entry_size >= 24 {
            BootView { regions: map_entries(b, at + 16, at + size, entry_size, info.regions), ..info }
        } else {
            info
        }
    } else if ty == 8 {
        BootView { framebuffer: Some(framebuffer_tag(b, at)), ..info }
    } else if ty == 14 || ty == 15 {
        BootView { rsdp: Some((base + at + 8) as u64), ..info }
    } else {
        info
    }
}

/// `size` rounded up to a multiple of 8: tags are padded to 8 bytes.
pub open spec fn round8(size: int) -> int {
    (size + 7) / 8 * 8
}

pub proof fn lemma_round8(size: int)
    requires
        size >= 8,
    ensures
        round8(size) >= 8,
        round8(size) <= size + 7,
{
    assert((size + 7) / 8 * 8 >= 8 && (size + 7) / 8 * 8 <= size + 7) by (nonlinear_arith) requires size >= 8;
}

/// Walk the tags from `at` up to `end`.
pub open spec fn walk(b: Seq<u8>, base: int, at: int, end: int, info: BootView) -> BootView
    decreases if end > at { end - at } else { 0 },
{
    if at + 8 > end {
        info
    } else {
        let ty = rd32(b, at);
        let size = rd32(b, at + 4) as int;
        if size < 8 || ty == 0 {
            info
        } else {
            proof {
                lemma_round8(size);
            }
            walk(b, base, at + round8(size), end, apply_tag(b, base, at, ty, size, info))
        }
    }
}

pub open spec fn empty_view() -> BootView {
    BootView {
        regions: Seq::empty(),
        modules: Seq::empty(),
        framebuffer: None,
        rsdp: None,
        bootloader: Seq::empty(),
        cmdline: Seq::empty(),
        reclaim_after: 0,
    }
}

/// Everything the structure at `base`, holding bytes `b`, describes.
pub open spec fn parse_spec(base: u64, b: Seq<u8>) -> BootView {
    let total = rd32(b, 0) as int;
    walk(b, base as int, 8, total, BootView { reclaim_after: (base + total) as u64, ..empty_view() })
}

impl Module {
    pub open spec fn view(&self) -> ModuleView {
        ModuleView { start: self.start, end: self.end, name: self.name@ }
    }

    pub open spec fn wf(&self) -> bool {
        self.name_len == self.name@.len() && self.name_len <= MAX_MODULE_NAME
    }

    /// The module's name, or nothing if it is not valid UTF-8.
    pub fn name(&self) -> (s: &str)
        requires
            self.wf(),
        ensures
            s@ == if valid_utf8(self.name@) { decode_utf8(self.name@) } else { Seq::empty() },
    {
        match utf8(self.name.as_slice()) {
            Some(text) => text,
            None => {
                proof {
                    reveal_strlit("");
                }
                ""
            },
        }
    }

    /// Bytes the module spans.
    pub fn len(&self) -> (n: u64)
        ensures
            n == if self.end >= self.start { self.end - self.start } else { 0 },
    {
        if self.end >= self.start { self.end - self.start } else { 0 }
    }
}

impl BootInfo {
    pub open spec fn view(&self) -> BootView {
        BootView {
            regions: self.regions@,
            modules: self.modules@.map_values(|m: Module| m.view()),
            framebuffer: self.framebuffer,
            rsdp: self.rsdp,
            bootloader: self.bootloader@,
            cmdline: self.cmdline@,
            reclaim_after: self.reclaim_after,
        }
    }

    pub open spec fn wf(&self) -> bool {
        &&& self.region_count == self.regions@.len() <= MAX_REGIONS
        &&& self.module_count == self.modules@.len() <= MAX_MODULES
        &&& self.bootloader_len == self.bootloader@.len() <= MAX_BOOTLOADER
        &&& self.cmdline_len == self.cmdline@.len() <= MAX_CMDLINE
        &&& forall|i: int| 0 <= i < self.modules@.len() ==> (#[trigger] self.modules@[i]).wf()
    }

    pub fn bootloader_name(&self) -> (s: &str)
        ensures
            s@ == if valid_utf8(self.bootloader@) { decode_utf8(self.bootloader@) } else { "?"@ },
    {
        match utf8(self.bootloader.as_slice()) {
            Some(text) => text,
            None => "?",
        }
    }

    pub fn cmdline(&self) -> (s: &str)
        ensures
            s@ == if valid_utf8(self.cmdline@) { decode_utf8(self.cmdline@) } else { Seq::empty() },
    {
        match utf8(self.cmdline.as_slice()) {
            Some(text) => text,
            None => {
                proof {
                    reveal_strlit("");
                }
                ""
            },
        }
    }

    pub fn regions(&self) -> (r: &[MemoryRegion])
        ensures
            r@ == self.regions@,
    {
        self.regions.as_slice()
    }

    pub fn modules(&self) -> (r: &[Module])
        ensures
            r@ == self.modules@,
    {
        self.modules.as_slice()
    }

    /// Total usable RAM in bytes.
    pub fn usable_memory(&self) -> (total: u64)
        requires
            usable_sum(self.regions@, self.regions@.len() as int) <= u64::MAX,
        ensures
            total == usable_sum(self.regions@, self.regions@.len() as int),
    {
        let mut total: u64 = 0;
        let mut i: usize = 0;
        while i < self.regions.len()
            invariant
                i <= self.regions@.len(),
                total == usable_sum(self.regions@, i as int),
                usable_sum(self.regions@, self.regions@.len() as int) <= u64::MAX,
            decreases self.regions@.len() - i,
        {
            proof {
                lemma_usable_sum_monotone(self.regions@, i as int + 1, self.regions@.len() as int);
            }
            if self.regions[i].kind == MemoryKind::Usable {
                total = total + self.regions[i].length;
            }
            i += 1;
        }
        total
    }
}

/// Bytes of usable memory among the first `n` regions.
pub open spec fn usable_sum(regions: Seq<MemoryRegion>, n: int) -> nat
    decreases n,
{
    if n <= 0 {
        0
    } else {
        usable_sum(regions, n - 1) + if regions[n - 1].kind == MemoryKind::Usable { regions[n - 1].length as nat } else { 0 }
    }
}

proof fn lemma_usable_sum_monotone(regions: Seq<MemoryRegion>, a: int, b: int)
    requires
        0 <= a <= b,
    ensures
        usable_sum(regions, a) <= usable_sum(regions, b),
    decreases b - a,
{
    if a < b {
        lemma_usable_sum_monotone(regions, a, b - 1);
    }
}

} // verus!

verus! {

impl BootInfo {
    pub fn empty() -> (info: BootInfo)
        ensures
            info.wf(),
            info.view() == empty_view(),
    {
        let info = BootInfo {
            regions: Vec::new(),
            region_count: 0,
            modules: Vec::new(),
            module_count: 0,
            framebuffer: None,
            rsdp: None,
            bootloader: Vec::new(),
            bootloader_len: 0,
            cmdline: Vec::new(),
            cmdline_len: 0,
            reclaim_after: 0,
        };
        assert(info.view().modules =~= Seq::<ModuleView>::empty());
        info
    }
}

fn memory_kind_of(raw: u32) -> (k: MemoryKind)
    ensures
        k == memory_kind(raw),
{
    match raw {
        1 => MemoryKind::Usable,
        3 => MemoryKind::AcpiReclaimable,
        4 => MemoryKind::AcpiNvs,
        5 => MemoryKind::Defective,
        _ => MemoryKind::Reserved,
    }
}

fn read_memory_map(b: &[u8], info: &mut BootInfo, at: u64, size: u64)
    requires
        old(info).wf(),
        at <= 0x1_0000_0000_0000,
        size <= u32::MAX,
    ensures
        final(info).wf(),
        final(info).view() == apply_tag(b@, 0, at as int, 6, size as int, old(info).view()),
{
    let ghost old_view = info.view();
    let entry_size = read_u32(b, at + 8) as u64;
    if entry_size < 24 {
        return;
    }
    let limit = at + size;
    let mut entry = at + 16;
    while entry + entry_size <= limit
        invariant
            info.wf(),
            limit == at + size,
            at <= 0x1_0000_0000_0000,
            size <= u32::MAX,
            entry <= limit + 16,
            entry_size >= 24,
            entry_size <= u32::MAX,
            info.view() == (BootView { regions: info.regions@, ..old_view }),
            map_entries(b@, at + 16, limit as int, entry_size as int, old_view.regions)
                == map_entries(b@, entry as int, limit as int, entry_size as int, info.regions@),
        decreases limit + entry_size - entry,
    {
        let length = read_u64(b, entry + 8);
        if info.region_count < MAX_REGIONS && length > 0 {
            let base = read_u64(b, entry);
            let kind = memory_kind_of(read_u32(b, entry + 16));
            info.regions.push(MemoryRegion { base, length, kind });
            info.region_count = info.region_count + 1;
        }
        entry = entry + entry_size;
    }
}

fn framebuffer_kind_of(raw: u8) -> (k: FramebufferKind)
    ensures
        k == framebuffer_kind(raw),
{
    match raw {
        0 => FramebufferKind::Indexed,
        1 => FramebufferKind::Rgb,
        2 => FramebufferKind::EgaText,
        _ => FramebufferKind::Unknown,
    }
}

fn read_framebuffer(b: &[u8], at: u64) -> (fb: FramebufferInfo)
    requires
        at + 64 <= u64::MAX,
    ensures
        fb == framebuffer_tag(b@, at as int),
{
    let kind = framebuffer_kind_of(read_u8(b, at + 29));
    let rgb = kind == FramebufferKind::Rgb;
    FramebufferInfo {
        addr: read_u64(b, at + 8),
        pitch: read_u32(b, at + 16),
        width: read_u32(b, at + 20),
        height: read_u32(b, at + 24),
        bpp: read_u8(b, at + 28),
        kind,
        red_shift: if rgb { read_u8(b, at + 32) } else { 16 },
        red_size: if rgb { read_u8(b, at + 33) } else { 8 },
        green_shift: if rgb { read_u8(b, at + 34) } else { 8 },
        green_size: if rgb { read_u8(b, at + 35) } else { 8 },
        blue_shift: if rgb { read_u8(b, at + 36) } else { 0 },
        blue_size: if rgb { read_u8(b, at + 37) } else { 8 },
    }
}

/// Walk the multiboot2 tag list held in `b`, which was read from physical
/// address `base`.
pub fn parse(base: u64, b: &[u8]) -> (info: BootInfo)
    requires
        base <= 0xFFFF_FFFF_0000_0000,
    ensures
        info.wf(),
        info.view() == parse_spec(base, b@),
{
    let mut info = BootInfo::empty();
    let total_size = read_u32(b, 0) as u64;
    info.reclaim_after = base + total_size;
    let ghost start = info.view();
    assert(start == (BootView { reclaim_after: (base + total_size) as u64, ..empty_view() }));

    let mut cursor: u64 = 8;
    let end = total_size;
    while cursor + 8 <= end
        invariant
            info.wf(),
            end == total_size,
            total_size <= u32::MAX,
            base <= 0xFFFF_FFFF_0000_0000,
            8 <= cursor <= 0x3_0000_0000,
            parse_spec(base, b@) == walk(b@, base as int, cursor as int, end as int, info.view()),
        ensures
            info.wf(),
            parse_spec(base, b@) == info.view(),
        decreases if cursor < end + 16 { end + 16 - cursor } else { 0 },
    {
        let tag_type = read_u32(b, cursor);
        let tag_size = read_u32(b, cursor + 4) as u64;
        if tag_size < 8 || tag_type == 0 {
            break;
        }
        let ghost before = info.view();
        if tag_type == 1 {
            let text = copy_cstr(b, cursor + 8, MAX_CMDLINE);
            info.cmdline_len = text.len();
            info.cmdline = text;
        } else if tag_type == 2 {
            let text = copy_cstr(b, cursor + 8, MAX_BOOTLOADER);
            info.bootloader_len = text.len();
            info.bootloader = text;
        } else if tag_type == 3 {
            if info.module_count < MAX_MODULES {
                let start = read_u32(b, cursor + 8) as u64;
                let module_end = read_u32(b, cursor + 12) as u64;
                let name = copy_cstr(b, cursor + 16, MAX_MODULE_NAME);
                let name_len = name.len();
                let module = Module { start, end: module_end, name, name_len };
                let ghost mv = module.view();
                info.modules.push(module);
                info.module_count = info.module_count + 1;
                if module_end > info.reclaim_after {
                    info.reclaim_after = module_end;
                }
                proof {
                    assert(info.view().modules =~= before.modules.push(mv));
                }
            }
        } else if tag_type == 6 {
            read_memory_map(b, &mut info, cursor, tag_size);
            proof {
                assert(apply_tag(b@, 0, cursor as int, 6, tag_size as int, before) == apply_tag(b@, base as int, cursor as int, 6, tag_size as int, before));
            }
        } else if tag_type == 8 {
            info.framebuffer = Some(read_framebuffer(b, cursor));
        } else if tag_type == 14 || tag_type == 15 {
            info.rsdp = Some(base + cursor + 8);
        }
        proof {
            assert(info.view() == apply_tag(b@, base as int, cursor as int, tag_type, tag_size as int, before));
            lemma_round8(tag_size as int);
        }
        cursor = cursor + (tag_size + 7) / 8 * 8;
    }
    info
}

} // verus!
