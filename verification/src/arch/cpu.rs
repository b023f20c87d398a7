//! CPUID: what are we actually running on?
//!
//! Executing CPUID is the caller's part; `identify` decodes the register
//! values it returns.

use vstd::prelude::*;
use vstd::utf8::{valid_utf8, decode_utf8};

verus! {

use crate::text::{utf8, trim, trimmed};

/// The CPUID results `identify` needs.
#[derive(Clone, Copy, Debug)]
pub struct CpuidRegs {
    /// Leaf 0: the vendor string in ebx, edx, ecx.
    pub vendor_ebx: u32,
    pub vendor_edx: u32,
    pub vendor_ecx: u32,
    /// Leaf 1: eax (version) and edx (features).
    pub version: u32,
    pub feature_edx: u32,
    /// Leaf 0x8000_0000: eax, the highest extended leaf.
    pub max_ext: u32,
    /// Leaves 0x8000_0002 to 0x8000_0004: eax, ebx, ecx, edx of each.
    pub brand_words: [u32; 12],
    /// Leaf 0x8000_0001 edx, and leaf 0x8000_0007 edx.
    pub ext1_edx: u32,
    pub ext7_edx: u32,
}

pub struct CpuInfo {
    pub vendor: [u8; 12],
    pub brand: [u8; 48],
    pub brand_len: usize,
    pub family: u32,
    pub model: u32,
    pub stepping: u32,
    pub has_apic: bool,
    pub has_pat: bool,
    pub has_sse2: bool,
    pub has_nx: bool,
    pub has_invariant_tsc: bool,
}

/// Byte `k` (0 to 3) of `w`, least significant first.
pub open spec fn le_byte(w: u32, k: int) -> u8 {
    let d: int = if k == 0 { 1 } else if k == 1 { 0x100 } else if k == 2 { 0x1_0000 } else { 0x100_0000 };
    ((w as int / d) % 256) as u8
}

/// The bytes of the words, each least significant byte first.
pub open spec fn le_bytes(words: Seq<u32>) -> Seq<u8> {
    Seq::new(4 * words.len(), |i: int| le_byte(words[i / 4], i % 4))
}


/// Index of the first zero byte of `s`, or its length.
pub open spec fn first_zero(s: Seq<u8>, i: int) -> int
    decreases s.len() - i,
{
    if i < 0 || i >= s.len() || s[i] == 0 { i } else { first_zero(s, i + 1) }
}

pub open spec fn family_of(version: u32) -> u32 {
    let base = (version / 0x100) % 16;
    if base == 15 { (base + (version / 0x10_0000) % 256) as u32 } else { base as u32 }
}

pub open spec fn model_of(version: u32) -> u32 {
    let base_family = (version / 0x100) % 16;
    let base_model = (version / 0x10) % 16;
    if base_family == 6 || base_family == 15 {
        (((version / 0x1_0000) % 16) * 16 + base_model) as u32
    } else {
        base_model as u32
    }
}

fn put_word(bytes: &mut [u8], at: usize, w: u32)
    requires
        at + 4 <= old(bytes)@.len(),
    ensures
        final(bytes)@.len() == old(bytes)@.len(),
        forall|i: int| 0 <= i < old(bytes)@.len() ==> #[trigger] final(bytes)@[i] == if at <= i < at + 4 {
            le_byte(w, i - at)
        } else {
            old(bytes)@[i]
        },
{
    proof {
        assert((w & 0xFF) as u8 == ((w as int / 1) % 256) as u8) by (bit_vector);
        assert(((w >> 8) & 0xFF) as u8 == ((w as int / 0x100) % 256) as u8) by (bit_vector);
        assert(((w >> 16) & 0xFF) as u8 == ((w as int / 0x1_0000) % 256) as u8) by (bit_vector);
        assert(((w >> 24) & 0xFF) as u8 == ((w as int / 0x100_0000) % 256) as u8) by (bit_vector);
    }
    bytes[at] = (w & 0xFF) as u8;
    bytes[at + 1] = ((w >> 8) & 0xFF) as u8;
    bytes[at + 2] = ((w >> 16) & 0xFF) as u8;
    bytes[at + 3] = ((w >> 24) & 0xFF) as u8;
}

impl CpuInfo {
    /// The vendor string, or "unknown" if it is not UTF-8.
    pub fn vendor_str(&self) -> (r: &str)
        ensures
            valid_utf8(self.vendor@) ==> r@ == decode_utf8(self.vendor@),
            !valid_utf8(self.vendor@) ==> r@ == "unknown"@,
    {
        match utf8(self.vendor.as_slice()) {
            Some(s) => s,
            None => "unknown",
        }
    }

    /// The brand string, trimmed, or "unknown" if it is not UTF-8.
    pub fn brand_str(&self) -> (r: &str)
        requires
            self.brand_len <= 48,
        ensures
            ({
                let b = self.brand@.take(self.brand_len as int);
                &&& valid_utf8(b) ==> r@ == trimmed(decode_utf8(b))
                &&& !valid_utf8(b) ==> r@ == trimmed("unknown"@)
            }),
    {
        let bytes = vstd::slice::slice_subrange(self.brand.as_slice(), 0, self.brand_len);
        proof {
            assert(bytes@ =~= self.brand@.take(self.brand_len as int));
        }
        let text = match utf8(bytes) {
            Some(s) => s,
            None => "unknown",
        };
        trim(text)
    }
}

/// Decode what CPUID reported.
pub fn identify(regs: &CpuidRegs) -> (info: CpuInfo)
    ensures
        info.vendor@ == le_bytes(seq![regs.vendor_ebx, regs.vendor_edx, regs.vendor_ecx]),
        regs.max_ext >= 0x8000_0004 ==> info.brand@ == le_bytes(regs.brand_words@)
            && info.brand_len == first_zero(info.brand@, 0),
        regs.max_ext < 0x8000_0004 ==> info.brand@ == Seq::new(48, |i: int| 0u8) && info.brand_len == 0,
        info.stepping == regs.version % 16,
        info.family == family_of(regs.version),
        info.model == model_of(regs.version),
        info.has_apic == ((regs.feature_edx / 0x200) % 2 == 1),
        info.has_pat == ((regs.feature_edx / 0x1_0000) % 2 == 1),
        info.has_sse2 == ((regs.feature_edx / 0x400_0000) % 2 == 1),
        info.has_nx == (regs.max_ext >= 0x8000_0001 && (regs.ext1_edx / 0x10_0000) % 2 == 1),
        info.has_invariant_tsc == (regs.max_ext >= 0x8000_0007 && (regs.ext7_edx / 0x100) % 2 == 1),
{
    let mut vendor = [0u8; 12];
    put_word(&mut vendor, 0, regs.vendor_ebx);
    put_word(&mut vendor, 4, regs.vendor_edx);
    put_word(&mut vendor, 8, regs.vendor_ecx);
    proof {
        assert(vendor@ =~= le_bytes(seq![regs.vendor_ebx, regs.vendor_edx, regs.vendor_ecx]));
    }

    let version = regs.version;
    let stepping = version & 0xF;
    let base_model = (version >> 4) & 0xF;
    let base_family = (version >> 8) & 0xF;
    let ext_model = (version >> 16) & 0xF;
    let ext_family = (version >> 20) & 0xFF;
    proof {
        assert(version & 0xF == version % 16) by (bit_vector);
        assert((version >> 4) & 0xF == (version / 0x10) % 16) by (bit_vector);
        assert((version >> 8) & 0xF == (version / 0x100) % 16) by (bit_vector);
        assert((version >> 16) & 0xF == (version / 0x1_0000) % 16) by (bit_vector);
        assert((version >> 20) & 0xFF == (version / 0x10_0000) % 256) by (bit_vector);
        assert(forall|a: u32, b: u32| a < 16 && b < 16 ==> (a << 4) | b == a * 16 + b) by (bit_vector);
    }
    let family = if base_family == 0xF { base_family + ext_family } else { base_family };
    let model = if base_family == 0x6 || base_family == 0xF { (ext_model << 4) | base_model } else { base_model };

    let mut brand = [0u8; 48];
    let mut brand_len: usize = 0;
    if regs.max_ext >= 0x8000_0004 {
        let mut k: usize = 0;
        while k < 12
            invariant
                k <= 12,
                brand@.len() == 48,
                forall|i: int| 0 <= i < 4 * k ==> #[trigger] brand@[i] == le_bytes(regs.brand_words@)[i],
            decreases 12 - k,
        {
            let ghost before = brand@;
            put_word(&mut brand, 4 * k, regs.brand_words[k]);
            proof {
                assert forall|i: int| 0 <= i < 4 * (k + 1) implies #[trigger] brand@[i] == le_bytes(regs.brand_words@)[i] by {
                    if i < 4 * k {
                        assert(brand@[i] == before[i]);
                    } else {
                        assert(i / 4 == k as int);
                    }
                }
            }
            k += 1;
        }
        proof {
            assert(brand@ =~= le_bytes(regs.brand_words@));
        }
        while brand_len < 48 && brand[brand_len] != 0
            invariant
                brand_len <= 48,
                brand@.len() == 48,
                first_zero(brand@, brand_len as int) == first_zero(brand@, 0),
            decreases 48 - brand_len,
        {
            brand_len += 1;
        }
    } else {
        proof {
            assert(brand@ =~= Seq::new(48, |i: int| 0u8));
        }
    }

    let max_ext = regs.max_ext;
    let has_nx = if max_ext >= 0x8000_0001 { regs.ext1_edx & (1 << 20) != 0 } else { false };
    let has_invariant_tsc = if max_ext >= 0x8000_0007 { regs.ext7_edx & (1 << 8) != 0 } else { false };
    let fe = regs.feature_edx;
    let e1 = regs.ext1_edx;
    let e7 = regs.ext7_edx;
    proof {
        assert(e1 & (1u32 << 20) != 0 <==> (e1 / 0x10_0000) % 2 == 1) by (bit_vector);
        assert(e7 & (1u32 << 8) != 0 <==> (e7 / 0x100) % 2 == 1) by (bit_vector);
        assert(fe & (1u32 << 9) != 0 <==> (fe / 0x200) % 2 == 1) by (bit_vector);
        assert(fe & (1u32 << 16) != 0 <==> (fe / 0x1_0000) % 2 == 1) by (bit_vector);
        assert(fe & (1u32 << 26) != 0 <==> (fe / 0x400_0000) % 2 == 1) by (bit_vector);
    }
    CpuInfo {
        vendor,
        brand,
        brand_len,
        family,
        model,
        stepping,
        has_apic: fe & (1 << 9) != 0,
        has_pat: fe & (1 << 16) != 0,
        has_sse2: fe & (1 << 26) != 0,
        has_nx,
        has_invariant_tsc,
    }
}

} // verus!
