//! "About HALCYON": what this thing is.

use vstd::prelude::*;

verus! {

pub struct About {
    pub dirty: bool,
    /// Ticks since the window opened; the phosphor sweep follows it.
    pub frame: u64,
}

/// What the window lists: a label and what it says.
pub open spec fn facts() -> Seq<(Seq<char>, Seq<char>)> {
    seq![
        ("kernel"@, "written from scratch, x86_64 long mode"@),
        ("language"@, "Rust on stable, no_std, zero crates"@),
        ("bootloader"@, "GRUB via Multiboot2 (BIOS + UEFI)"@),
        ("memory"@, "bitmap frames, 4-level paging, own heap"@),
        ("scheduling"@, "pre-emptive round-robin kernel threads"@),
        ("graphics"@, "own font, own compositor, own everything"@),
        ("shell"@, "hsh, with ORACLE as its interpreter"@),
    ]
}

pub fn fact(i: usize) -> (r: (&'static str, &'static str))
    requires
        i < 7,
    ensures
        (r.0@, r.1@) == facts()[i as int],
{
    if i == 0 {
        ("kernel", "written from scratch, x86_64 long mode")
    } else if i == 1 {
        ("language", "Rust on stable, no_std, zero crates")
    } else if i == 2 {
        ("bootloader", "GRUB via Multiboot2 (BIOS + UEFI)")
    } else if i == 3 {
        ("memory", "bitmap frames, 4-level paging, own heap")
    } else if i == 4 {
        ("scheduling", "pre-emptive round-robin kernel threads")
    } else if i == 5 {
        ("graphics", "own font, own compositor, own everything")
    } else {
        ("shell", "hsh, with ORACLE as its interpreter")
    }
}

/// Where the sweeping phosphor line starts on a window `width` wide:
/// it moves a pixel every other frame and wraps round, starting 40
/// pixels off the left edge.
pub open spec fn sweep_spec(frame: u64, width: int) -> int {
    ((frame as int / 2) % (width + 80)) - 40
}

impl About {
    pub fn new() -> (a: About)
        ensures
            a.dirty && a.frame == 0,
    {
        About { dirty: true, frame: 0 }
    }

    /// Each tick advances the sweep, so the window is visibly alive.
    pub fn tick(&mut self)
        requires
            old(self).frame < u64::MAX,
        ensures
            final(self).frame == old(self).frame + 1,
            final(self).dirty,
    {
        self.frame = self.frame + 1;
        self.dirty = true;
    }

    /// Where the sweep is on a window `width` wide.
    pub fn sweep(&self, width: i32) -> (x: i32)
        requires
            0 <= width <= 0x1000_0000,
        ensures
            x == sweep_spec(self.frame, width as int),
    {
        let span = width as u64 + 80;
        ((self.frame / 2) % span) as i32 - 40
    }

    pub fn dirty(&self) -> (d: bool)
        ensures
            d == self.dirty,
    {
        self.dirty
    }

    pub fn clear_dirty(&mut self)
        ensures
            !final(self).dirty,
            final(self).frame == old(self).frame,
    {
        self.dirty = false;
    }

    pub fn min_size(&self) -> (r: (i32, i32))
        ensures
            r == (480i32, 300i32),
    {
        (480, 300)
    }
}

} // verus!
