//! ORACLE's conversational side.
//!
//! This is a keyword-matched response table, not a language model. There is
//! no model in HALCYON and no network stack to reach one -- ORACLE says so
//! itself when asked. A few answers quote live figures; the caller reads
//! them into a `Live` snapshot first.

use vstd::prelude::*;

verus! {

use crate::text::{chars_of, dec_str, hex_str, push_dec, push_hex_min, push_str, string_of};
use crate::oracle::builtins::{lower_text, to_lower};
use crate::apps::editor::{split_text_lines, text_lines};
use crate::apps::shell::zero_padded;
use crate::apps::devices::{brand_text, vendor_text};
use crate::arch::cpu::CpuInfo;
use crate::mm::heap::HeapStats;
use crate::mm::{format_bytes, unit_name, unit_steps, unit_value};
use crate::task::ThreadInfo;

/// How many keyword entries there are.
pub const ENTRIES: usize = 19;

/// The keywords of entry `i`.
pub open spec fn keyword_spec(i: int) -> Seq<Seq<char>> {
    if i == 0 {
        seq!["who are you"@, "what are you"@, "your name"@]
    } else if i == 1 {
        seq!["are you ai"@, "are you an ai"@, "are you intelligent"@, "are you conscious"@, "chatgpt"@, "gpt"@, "llm"@, "language model"@]
    } else if i == 2 {
        seq!["what is halcyon"@, "about halcyon"@, "what is this"@, "what am i running"@]
    } else if i == 3 {
        seq!["how do you work"@, "how does this work"@, "architecture"@]
    } else if i == 4 {
        seq!["help"@, "what can you do"@, "commands"@]
    } else if i == 5 {
        seq!["memory"@, "ram"@, "how much memory"@]
    } else if i == 6 {
        seq!["uptime"@, "how long"@, "running for"@]
    } else if i == 7 {
        seq!["cpu"@, "processor"@, "what cpu"@]
    } else if i == 8 {
        seq!["thread"@, "process"@, "scheduler"@, "multitask"@]
    } else if i == 9 {
        seq!["disk"@, "hard drive"@, "storage"@, "save"@, "write to disk"@, "safe"@]
    } else if i == 10 {
        seq!["network"@, "internet"@, "wifi"@, "online"@]
    } else if i == 11 {
        seq!["why"@, "what is the point"@, "purpose"@]
    } else if i == 12 {
        seq!["hello"@, "hi "@, "hey"@, "greetings"@]
    } else if i == 13 {
        seq!["thank"@, "thanks"@, "cheers"@]
    } else if i == 14 {
        seq!["lisp"@, "language"@, "syntax"@, "oracle"@]
    } else if i == 15 {
        seq!["font"@, "letters"@, "typeface"@, "text"@]
    } else if i == 16 {
        seq!["colour"@, "color"@, "scanline"@, "crt"@, "look"@, "theme"@]
    } else if i == 17 {
        seq!["fault"@, "crash"@, "panic"@, "error"@, "bug"@]
    } else {
        seq!["who made"@, "who wrote"@, "author"@, "built this"@]
    }
}

/// The reply of entry `i`; four of them stand for live figures.
pub open spec fn reply_spec(i: int) -> Seq<char> {
    if i == 0 {
        "I am ORACLE: the interpreter built into HALCYON's shell, wearing a\nconversational hat. Parenthesised input I evaluate as Lisp. Plain\nEnglish I match against a table of answers I was written with. There is\nno language model on this machine and no network to reach one -- what\nyou get from me is a lookup, honestly labelled."@
    } else if i == 1 {
        "No. I want to be clear about that, since the repository this came from\nis called ai-os. I am a few hundred lines of pattern matching over a\nfixed table. The interesting part of this machine is underneath me:\nthe paging code, the scheduler, the compositor. Try `mem` or `ps`."@
    } else if i == 2 {
        "HALCYON is an operating system written from nothing. No Linux kernel,\nno libc, no third-party libraries. The bootstrap that put this CPU into\nlong mode, the page tables under every address you can name, the\nscheduler switching between threads, the font these letters are drawn\nwith -- all of it was written for this machine."@
    } else if i == 3 {
        "GRUB loads the kernel through Multiboot2 and drops us in 32-bit mode.\nA bootstrap builds page tables, enters long mode and jumps to the\nhigher half. From there: a bitmap frame allocator, 4-level paging, a\nfree-list heap, a round-robin scheduler driven by the PIT, PS/2 input,\nand a compositor that draws into RAM and blits once per frame."@
    } else if i == 4 {
        "Type `help` for the command list. Anything in (parentheses) is\nevaluated as Lisp -- try (+ 1 2), (mem), (threads), (pci) or\n(map (lambda (x) (* x x)) (range 10))."@
    } else if i == 5 {
        "__MEMORY__"@
    } else if i == 6 {
        "__UPTIME__"@
    } else if i == 7 {
        "__CPU__"@
    } else if i == 8 {
        "__THREADS__"@
    } else if i == 9 {
        "Nothing here touches a disk. HALCYON has no block-device write path at\nall -- the code to do it does not exist. Files live in RAM, seeded from\nthe initrd, and vanish at power-off. That is why booting this on real\nhardware is safe: it cannot alter what is already on the machine."@
    } else if i == 10 {
        "There is no network stack. No driver, no TCP, no sockets. This machine\ncannot talk to anything but you."@
    } else if i == 11 {
        "Someone wanted to see whether an operating system could be built from\nthe first instruction upward, and then actually boot it on real\nhardware. You are looking at the answer."@
    } else if i == 12 {
        "Hello. The machine is yours -- `help` lists what it will do."@
    } else if i == 13 {
        "A pleasure. I am a lookup table, but a well-mannered one."@
    } else if i == 14 {
        "The shell reads Lisp. Lists are vectors rather than cons pairs, which\ncosts improper lists and buys a simpler interpreter. Special forms:\nquote, if, define, set!, lambda, let, begin, while, cond, and, or.\nTail positions loop instead of recursing, so tail recursion is free."@
    } else if i == 15 {
        "The font was drawn for this system, glyph by glyph, in tools/mkfont.py.\nFive pixels wide and seven tall above the baseline, with two rows of\ndescender, inside an 8x16 cell. Borrowing one would have meant\nborrowing its licence too."@
    } else if i == 16 {
        "Amber and cyan phosphor on a deep blue-black, with every other scanline\ndarkened and the corners pulled down. The vignette is baked into the\ncached backdrop; the scanlines are a shift and a subtract per pixel,\nwhich is cheap enough to run on every frame."@
    } else if i == 17 {
        "If something faults you will know: HALCYON paints the exception, the\nfaulting address and the register file in red, then halts. Nothing is\nwritten anywhere. You can provoke it from the GRUB menu's self-test\nentry if you want to see it."@
    } else {
        "Written for someone who was bored and had a spare laptop. Every line is in the\nrepository, including the mistakes that were found and fixed on the way."@
    }
}

/// What is said when nothing matches, chosen by a nonce.
pub open spec fn fallback_spec(i: int) -> Seq<char> {
    if i == 0 {
        "I have no answer written for that. I am a table, not a mind -- try `help`,\nor ask me about memory, threads, the CPU, or what HALCYON is."@
    } else if i == 1 {
        "That one is not in my table. Ask about the kernel, the scheduler, the\nfilesystem or the display, and I will have something to say."@
    } else {
        "No match. If you meant it as code, wrap it in parentheses and I will\nevaluate it instead: (+ 1 2) works, and so does (mem)."@
    }
}

fn keywords(i: usize) -> (r: Vec<&'static str>)
    requires
        i < ENTRIES,
    ensures
        r@.map_values(|s: &str| s@) == keyword_spec(i as int),
{
    if i == 0 {
        let r = vec!["who are you", "what are you", "your name"];
        proof { assert(r@.map_values(|s: &str| s@) =~= keyword_spec(0)); }
        r
    } else if i == 1 {
        let r = vec!["are you ai", "are you an ai", "are you intelligent", "are you conscious", "chatgpt", "gpt", "llm", "language model"];
        proof { assert(r@.map_values(|s: &str| s@) =~= keyword_spec(1)); }
        r
    } else if i == 2 {
        let r = vec!["what is halcyon", "about halcyon", "what is this", "what am i running"];
        proof { assert(r@.map_values(|s: &str| s@) =~= keyword_spec(2)); }
        r
    } else if i == 3 {
        let r = vec!["how do you work", "how does this work", "architecture"];
        proof { assert(r@.map_values(|s: &str| s@) =~= keyword_spec(3)); }
        r
    } else if i == 4 {
        let r = vec!["help", "what can you do", "commands"];
        proof { assert(r@.map_values(|s: &str| s@) =~= keyword_spec(4)); }
        r
    } else if i == 5 {
        let r = vec!["memory", "ram", "how much memory"];
        proof { assert(r@.map_values(|s: &str| s@) =~= keyword_spec(5)); }
        r
    } else if i == 6 {
        let r = vec!["uptime", "how long", "running for"];
        proof { assert(r@.map_values(|s: &str| s@) =~= keyword_spec(6)); }
        r
    } else if i == 7 {
        let r = vec!["cpu", "processor", "what cpu"];
        proof { assert(r@.map_values(|s: &str| s@) =~= keyword_spec(7)); }
        r
    } else if i == 8 {
        let r = vec!["thread", "process", "scheduler", "multitask"];
        proof { assert(r@.map_values(|s: &str| s@) =~= keyword_spec(8)); }
        r
    } else if i == 9 {
        let r = vec!["disk", "hard drive", "storage", "save", "write to disk", "safe"];
        proof { assert(r@.map_values(|s: &str| s@) =~= keyword_spec(9)); }
        r
    } else if i == 10 {
        let r = vec!["network", "internet", "wifi", "online"];
        proof { assert(r@.map_values(|s: &str| s@) =~= keyword_spec(10)); }
        r
    } else if i == 11 {
        let r = vec!["why", "what is the point", "purpose"];
        proof { assert(r@.map_values(|s: &str| s@) =~= keyword_spec(11)); }
        r
    } else if i == 12 {
        let r = vec!["hello", "hi ", "hey", "greetings"];
        proof { assert(r@.map_values(|s: &str| s@) =~= keyword_spec(12)); }
        r
    } else if i == 13 {
        let r = vec!["thank", "thanks", "cheers"];
        proof { assert(r@.map_values(|s: &str| s@) =~= keyword_spec(13)); }
        r
    } else if i == 14 {
        let r = vec!["lisp", "language", "syntax", "oracle"];
        proof { assert(r@.map_values(|s: &str| s@) =~= keyword_spec(14)); }
        r
    } else if i == 15 {
        let r = vec!["font", "letters", "typeface", "text"];
        proof { assert(r@.map_values(|s: &str| s@) =~= keyword_spec(15)); }
        r
    } else if i == 16 {
        let r = vec!["colour", "color", "scanline", "crt", "look", "theme"];
        proof { assert(r@.map_values(|s: &str| s@) =~= keyword_spec(16)); }
        r
    } else if i == 17 {
        let r = vec!["fault", "crash", "panic", "error", "bug"];
        proof { assert(r@.map_values(|s: &str| s@) =~= keyword_spec(17)); }
        r
    } else {
        let r = vec!["who made", "who wrote", "author", "built this"];
        proof { assert(r@.map_values(|s: &str| s@) =~= keyword_spec(18)); }
        r
    }
}

fn reply(i: usize) -> (r: &'static str)
    requires
        i < ENTRIES,
    ensures
        r@ == reply_spec(i as int),
{
    if i == 0 {
        "I am ORACLE: the interpreter built into HALCYON's shell, wearing a\nconversational hat. Parenthesised input I evaluate as Lisp. Plain\nEnglish I match against a table of answers I was written with. There is\nno language model on this machine and no network to reach one -- what\nyou get from me is a lookup, honestly labelled."
    } else if i == 1 {
        "No. I want to be clear about that, since the repository this came from\nis called ai-os. I am a few hundred lines of pattern matching over a\nfixed table. The interesting part of this machine is underneath me:\nthe paging code, the scheduler, the compositor. Try `mem` or `ps`."
    } else if i == 2 {
        "HALCYON is an operating system written from nothing. No Linux kernel,\nno libc, no third-party libraries. The bootstrap that put this CPU into\nlong mode, the page tables under every address you can name, the\nscheduler switching between threads, the font these letters are drawn\nwith -- all of it was written for this machine."
    } else if i == 3 {
        "GRUB loads the kernel through Multiboot2 and drops us in 32-bit mode.\nA bootstrap builds page tables, enters long mode and jumps to the\nhigher half. From there: a bitmap frame allocator, 4-level paging, a\nfree-list heap, a round-robin scheduler driven by the PIT, PS/2 input,\nand a compositor that draws into RAM and blits once per frame."
    } else if i == 4 {
        "Type `help` for the command list. Anything in (parentheses) is\nevaluated as Lisp -- try (+ 1 2), (mem), (threads), (pci) or\n(map (lambda (x) (* x x)) (range 10))."
    } else if i == 5 {
        "__MEMORY__"
    } else if i == 6 {
        "__UPTIME__"
    } else if i == 7 {
        "__CPU__"
    } else if i == 8 {
        "__THREADS__"
    } else if i == 9 {
        "Nothing here touches a disk. HALCYON has no block-device write path at\nall -- the code to do it does not exist. Files live in RAM, seeded from\nthe initrd, and vanish at power-off. That is why booting this on real\nhardware is safe: it cannot alter what is already on the machine."
    } else if i == 10 {
        "There is no network stack. No driver, no TCP, no sockets. This machine\ncannot talk to anything but you."
    } else if i == 11 {
        "Someone wanted to see whether an operating system could be built from\nthe first instruction upward, and then actually boot it on real\nhardware. You are looking at the answer."
    } else if i == 12 {
        "Hello. The machine is yours -- `help` lists what it will do."
    } else if i == 13 {
        "A pleasure. I am a lookup table, but a well-mannered one."
    } else if i == 14 {
        "The shell reads Lisp. Lists are vectors rather than cons pairs, which\ncosts improper lists and buys a simpler interpreter. Special forms:\nquote, if, define, set!, lambda, let, begin, while, cond, and, or.\nTail positions loop instead of recursing, so tail recursion is free."
    } else if i == 15 {
        "The font was drawn for this system, glyph by glyph, in tools/mkfont.py.\nFive pixels wide and seven tall above the baseline, with two rows of\ndescender, inside an 8x16 cell. Borrowing one would have meant\nborrowing its licence too."
    } else if i == 16 {
        "Amber and cyan phosphor on a deep blue-black, with every other scanline\ndarkened and the corners pulled down. The vignette is baked into the\ncached backdrop; the scanlines are a shift and a subtract per pixel,\nwhich is cheap enough to run on every frame."
    } else if i == 17 {
        "If something faults you will know: HALCYON paints the exception, the\nfaulting address and the register file in red, then halts. Nothing is\nwritten anywhere. You can provoke it from the GRUB menu's self-test\nentry if you want to see it."
    } else {
        "Written for someone who was bored and had a spare laptop. Every line is in the\nrepository, including the mistakes that were found and fixed on the way."
    }
}

fn fallback(i: usize) -> (r: &'static str)
    requires
        i < 3,
    ensures
        r@ == fallback_spec(i as int),
{
    if i == 0 {
        "I have no answer written for that. I am a table, not a mind -- try `help`,\nor ask me about memory, threads, the CPU, or what HALCYON is."
    } else if i == 1 {
        "That one is not in my table. Ask about the kernel, the scheduler, the\nfilesystem or the display, and I will have something to say."
    } else {
        "No match. If you meant it as code, wrap it in parentheses and I will\nevaluate it instead: (+ 1 2) works, and so does (mem)."
    }
}

/// `n` occurs in `h`.
pub open spec fn has_sub(h: Seq<char>, n: Seq<char>) -> bool {
    exists|i: int| 0 <= i && i + n.len() <= h.len() && #[trigger] h.subrange(i, i + n.len()) == n
}

/// Some keyword of entry `i` occurs in the (lowered) question `q`.
pub open spec fn entry_matches(q: Seq<char>, i: int) -> bool {
    exists|j: int| 0 <= j < keyword_spec(i).len() && has_sub(q, #[trigger] keyword_spec(i)[j])
}

/// The first entry from `i` on that matches, or -1.
pub open spec fn first_match(q: Seq<char>, i: int) -> int
    decreases ENTRIES - i,
{
    if i < 0 || i >= ENTRIES {
        -1
    } else if entry_matches(q, i) {
        i
    } else {
        first_match(q, i + 1)
    }
}

/// The figures the live answers quote, read by the caller.
pub struct Live {
    /// Physical memory, all of it and in use.
    pub total: u64,
    pub used: u64,
    pub heap: HeapStats,
    pub uptime_ms: u64,
    /// Context switches so far.
    pub switches: u64,
    pub cpu: CpuInfo,
    pub threads: Vec<ThreadInfo>,
}

pub open spec fn sized(bytes: u64) -> Seq<char> {
    dec_str(unit_value(bytes as nat, 0)) + " "@ + unit_name(unit_steps(bytes as nat, 0))
}

pub open spec fn memory_text(l: &Live) -> Seq<char> {
    "This machine has "@ + sized(l.total) + " of RAM, of which "@ + sized(l.used)
        + " is in use. The kernel\nheap has "@ + sized(l.heap.mapped) + " mapped and "@
        + dec_str(l.heap.live_allocations as nat)
        + " live allocations. Frames are tracked\nwith one bit each in a bitmap; the heap is an address-sorted free\nlist that coalesces on release."@
}

pub open spec fn uptime_text(l: &Live) -> Seq<char> {
    "Up "@ + dec_str((l.uptime_ms / 1000) as nat) + "."@ + zero_padded((l.uptime_ms % 1000) as nat, 3)
        + " seconds, counted by the PIT at 1000 Hz. That same\ninterrupt is what pre-empts every thread on the machine -- "@
        + dec_str(l.switches as nat) + " context\nswitches so far."@
}

pub open spec fn yes_no(b: bool) -> Seq<char> {
    if b { "true"@ } else { "false"@ }
}

pub open spec fn cpu_text(l: &Live) -> Seq<char> {
    let brand = brand_text(&l.cpu);
    let vendor = vendor_text(&l.cpu);
    (if brand.len() == 0 { vendor } else { brand }) + "\nVendor "@ + vendor + ", family 0x"@
        + hex_str(l.cpu.family as nat) + ", model 0x"@ + hex_str(l.cpu.model as nat) + ". NX: "@
        + yes_no(l.cpu.has_nx) + ". PAT: "@ + yes_no(l.cpu.has_pat)
        + ".\nHALCYON uses PAT entry 4 to mark the framebuffer write-combining,\nwhich is the difference between a usable desktop and a slideshow."@
}

pub open spec fn thread_text(t: ThreadInfo) -> Seq<char> {
    "  "@ + dec_str(t.id as nat) + " "@ + t.name@ + " ("@ + dec_str(t.ticks_used as nat) + " ticks)\n"@
}

/// The lines for the first `n` threads.
pub open spec fn threads_text(t: Seq<ThreadInfo>, n: int) -> Seq<char>
    decreases n,
{
    if n <= 0 { Seq::empty() } else { threads_text(t, n - 1) + thread_text(t[n - 1]) }
}

pub open spec fn threads_answer(l: &Live) -> Seq<char> {
    let t = l.threads@;
    dec_str(t.len()) + " thread(s), pre-empted round-robin by the timer:\n"@
        + threads_text(t, if t.len() < 8 { t.len() as int } else { 8 })
        + "A context switch here is just the interrupt handler returning a\ndifferent register frame than the one it was given."@
}

/// The text of entry `k`, with the live figures put in where it stands
/// for them.
pub open spec fn expanded(k: int, l: &Live) -> Seq<char> {
    if k == 5 {
        memory_text(l)
    } else if k == 6 {
        uptime_text(l)
    } else if k == 7 {
        cpu_text(l)
    } else if k == 8 {
        threads_answer(l)
    } else {
        reply_spec(k)
    }
}

/// The answer to `question`, as lines: the reply of the first entry one
/// of whose keywords occurs in the question (in lower case), else the
/// fallback the nonce picks.
pub open spec fn respond_spec(question: Seq<char>, nonce: u64, l: &Live) -> Seq<Seq<char>> {
    let k = first_match(lower_text(question), 0);
    text_lines(if k >= 0 { expanded(k, l) } else { fallback_spec((nonce % 3) as int) })
}

/// Whether `n` occurs in `h`.
pub fn contains(h: &[char], n: &[char]) -> (r: bool)
    ensures
        r == has_sub(h@, n@),
{
    if n.len() > h.len() {
        return false;
    }
    if n.len() == 0 {
        proof {
            assert(h@.subrange(0int, 0int + n@.len()) =~= n@);
        }
        return true;
    }
    let hl = h.len();
    let last = hl - n.len();
    let mut i: usize = 0;
    while i <= last
        invariant
            hl == h@.len(),
            last == h@.len() - n@.len(),
            0 < n@.len() <= h@.len(),
            last < hl,
            i <= last + 1,
            forall|k: int| 0 <= k < i ==> #[trigger] h@.subrange(k, k + n@.len()) != n@,
        decreases last + 1 - i,
    {
        let mut j: usize = 0;
        let mut same = true;
        while j < n.len()
            invariant
                hl == h@.len(),
                i <= last,
                last == h@.len() - n@.len(),
                0 < n@.len() <= h@.len(),
                j <= n@.len(),
                same == (forall|m: int| 0 <= m < j ==> h@[i + m] == #[trigger] n@[m]),
            decreases n@.len() - j,
        {
            if h[i + j] != n[j] {
                same = false;
            }
            j += 1;
        }
        if same {
            proof {
                assert(h@.subrange(i as int, i + n@.len()) =~= n@);
            }
            return true;
        }
        proof {
            let m = choose|m: int| 0 <= m < n@.len() && h@[i + m] != n@[m];
            assert(h@.subrange(i as int, i + n@.len())[m] != n@[m]);
        }
        i += 1;
    }
    proof {
        assert forall|k: int| 0 <= k && k + n@.len() <= h@.len() implies #[trigger] h@.subrange(k, k + n@.len()) != n@ by {
            assert(k < i);
        }
    }
    false
}

fn push_sized(t: &mut Vec<char>, bytes: u64)
    ensures
        final(t)@ == old(t)@ + sized(bytes),
{
    let (value, unit) = format_bytes(bytes);
    push_dec(t, value);
    push_str(t, " ");
    push_str(t, unit);
    proof {
        assert(final(t)@ =~= old(t)@ + sized(bytes));
    }
}

fn expand(k: usize, l: &Live) -> (text: Vec<char>)
    requires
        k < ENTRIES,
        l.cpu.brand_len <= 48,
    ensures
        text@ == expanded(k as int, l),
{
    let mut t: Vec<char> = Vec::new();
    if k == 5 {
        push_str(&mut t, "This machine has ");
        push_sized(&mut t, l.total);
        push_str(&mut t, " of RAM, of which ");
        push_sized(&mut t, l.used);
        push_str(&mut t, " is in use. The kernel\nheap has ");
        push_sized(&mut t, l.heap.mapped);
        push_str(&mut t, " mapped and ");
        push_dec(&mut t, l.heap.live_allocations as u64);
        push_str(&mut t, " live allocations. Frames are tracked\nwith one bit each in a bitmap; the heap is an address-sorted free\nlist that coalesces on release.");
        proof {
            assert(t@ =~= memory_text(l));
        }
    } else if k == 6 {
        push_str(&mut t, "Up ");
        push_dec(&mut t, l.uptime_ms / 1000);
        push_str(&mut t, ".");
        crate::apps::shell::push_zero_padded(&mut t, l.uptime_ms % 1000, 3);
        push_str(&mut t, " seconds, counted by the PIT at 1000 Hz. That same\ninterrupt is what pre-empts every thread on the machine -- ");
        push_dec(&mut t, l.switches);
        push_str(&mut t, " context\nswitches so far.");
        proof {
            assert(t@ =~= uptime_text(l));
        }
    } else if k == 7 {
        let brand = l.cpu.brand_str();
        let vendor = l.cpu.vendor_str();
        push_str(&mut t, if brand.is_empty() { vendor } else { brand });
        push_str(&mut t, "\nVendor ");
        push_str(&mut t, vendor);
        push_str(&mut t, ", family 0x");
        push_hex_min(&mut t, l.cpu.family as u64);
        push_str(&mut t, ", model 0x");
        push_hex_min(&mut t, l.cpu.model as u64);
        push_str(&mut t, ". NX: ");
        push_str(&mut t, if l.cpu.has_nx { "true" } else { "false" });
        push_str(&mut t, ". PAT: ");
        push_str(&mut t, if l.cpu.has_pat { "true" } else { "false" });
        push_str(&mut t, ".\nHALCYON uses PAT entry 4 to mark the framebuffer write-combining,\nwhich is the difference between a usable desktop and a slideshow.");
        proof {
            assert(t@ =~= cpu_text(l));
        }
    } else if k == 8 {
        let threads = &l.threads;
        push_dec(&mut t, threads.len() as u64);
        push_str(&mut t, " thread(s), pre-empted round-robin by the timer:\n");
        let ghost head = t@;
        let n = if threads.len() < 8 { threads.len() } else { 8 };
        let mut i: usize = 0;
        while i < n
            invariant
                n <= threads@.len(),
                i <= n,
                t@ == head + threads_text(threads@, i as int),
            decreases n - i,
        {
            let th = &threads[i];
            push_str(&mut t, "  ");
            push_dec(&mut t, th.id);
            push_str(&mut t, " ");
            push_str(&mut t, th.name.as_str());
            push_str(&mut t, " (");
            push_dec(&mut t, th.ticks_used);
            push_str(&mut t, " ticks)\n");
            i += 1;
            proof {
                assert(t@ =~= head + threads_text(threads@, i as int));
            }
        }
        push_str(&mut t, "A context switch here is just the interrupt handler returning a\ndifferent register frame than the one it was given.");
        proof {
            assert(t@ =~= threads_answer(l));
        }
    } else {
        push_str(&mut t, reply(k));
    }
    t
}

/// The first entry with a keyword in `q`.
fn first_entry(q: &[char]) -> (r: Option<usize>)
    ensures
        match r {
            Some(k) => k < ENTRIES && k == first_match(q@, 0),
            None => first_match(q@, 0) == -1,
        },
{
    let mut k: usize = 0;
    while k < ENTRIES
        invariant
            k <= ENTRIES,
            first_match(q@, 0) == first_match(q@, k as int),
        decreases ENTRIES - k,
    {
        let words = keywords(k);
        let mut j: usize = 0;
        let mut hit = false;
        while j < words.len()
            invariant
                k < ENTRIES,
                j <= words@.len(),
                words@.map_values(|s: &str| s@) == keyword_spec(k as int),
                hit == exists|m: int| 0 <= m < j && has_sub(q@, #[trigger] keyword_spec(k as int)[m]),
            decreases words@.len() - j,
        {
            let word = chars_of(words[j]);
            proof {
                assert(words@.map_values(|s: &str| s@)[j as int] == words@[j as int]@);
            }
            if contains(q, word.as_slice()) {
                hit = true;
            }
            j += 1;
        }
        if hit {
            return Some(k);
        }
        k += 1;
    }
    None
}

/// Answer a question, as lines. `nonce` varies the fallback so repeated
/// misses do not read like a stuck record.
pub fn respond(question: &str, nonce: u64, live: &Live) -> (lines: Vec<String>)
    requires
        live.cpu.brand_len <= 48,
    ensures
        lines@.map_values(|s: String| s@) == respond_spec(question@, nonce, live),
{
    let lowered = to_lower(question);
    let q = chars_of(lowered.as_str());
    let entry = first_entry(q.as_slice());
    let text = if let Some(k) = entry { expand(k, live) } else {
        let mut t: Vec<char> = Vec::new();
        push_str(&mut t, fallback((nonce % 3) as usize));
        t
    };
    let pieces = split_text_lines(text.as_slice());
    let mut lines: Vec<String> = Vec::new();
    let mut i: usize = 0;
    while i < pieces.len()
        invariant
            i <= pieces@.len(),
            lines@.map_values(|s: String| s@) == pieces@.take(i as int).map_values(|l: Vec<char>| l@),
        decreases pieces@.len() - i,
    {
        let ghost before = lines@.map_values(|s: String| s@);
        let line = string_of(pieces[i].as_slice());
        lines.push(line);
        proof {
            assert(lines@.map_values(|s: String| s@) =~= before.push(line@));
            assert(pieces@.take(i + 1).map_values(|l: Vec<char>| l@)
                =~= pieces@.take(i as int).map_values(|l: Vec<char>| l@).push(pieces@[i as int]@));
        }
        i += 1;
        proof {
            assert(lines@.map_values(|s: String| s@) =~= pieces@.take(i as int).map_values(|l: Vec<char>| l@));
        }
    }
    proof {
        assert(pieces@.take(pieces@.len() as int) =~= pieces@);
    }
    lines
}

} // verus!
