//! Just enough ACPI to turn the machine off.
//!
//! Proper shutdown needs an AML interpreter to evaluate the `\_S5` object.
//! HALCYON does the well-worn alternative: scan the DSDT byte stream for the
//! `_S5_` name and decode the small package that follows it by hand. Finding
//! the tables in memory is the caller's part; the decoding is here.

use vstd::prelude::*;

verus! {

#[derive(Clone, Copy, Debug, Default, PartialEq, Eq, Structural)]
pub struct PowerOff {
    pub pm1a_control: u16,
    pub pm1b_control: u16,
    pub slp_typ_a: u16,
    pub slp_typ_b: u16,
}

pub const SLP_EN: u16 = 0x2000;

/// The `_S5_` name at `i`, introduced by NameOp (0x08), optionally after a
/// root-scope backslash, and followed by PackageOp (0x12).
pub open spec fn s5_at(a: Seq<u8>, i: int) -> bool {
    &&& a[i] == 0x5F && a[i + 1] == 0x53 && a[i + 2] == 0x35 && a[i + 3] == 0x5F
    &&& (i >= 1 && a[i - 1] == 0x08) || (i >= 2 && a[i - 2] == 0x08 && a[i - 1] == 0x5C)
    &&& a[i + 4] == 0x12
}

/// The first `_S5_` package at or after `i` (with eight bytes after it).
pub open spec fn first_s5(a: Seq<u8>, i: int) -> Option<int>
    decreases a.len() - i,
{
    if i < 0 || i + 8 >= a.len() {
        None
    } else if s5_at(a, i) {
        Some(i)
    } else {
        first_s5(a, i + 1)
    }
}

/// The byte at `k`, or zero past the end.
pub open spec fn byte_or_zero(a: Seq<u8>, k: int) -> u8 {
    if 0 <= k < a.len() { a[k] } else { 0 }
}

/// A sleep type as the PM1 control register wants it: shifted into bits
/// 10 and up of a 16-bit value.
pub open spec fn slp_field(b: u8) -> u16 {
    ((b as int * 1024) % 65536) as u16
}

/// Decode the package of the `_S5_` at `i`: skip the name, PackageOp,
/// the PkgLength (whose top two bits count its extra bytes) and the
/// element count; each element is a byte constant (0x0A prefix) or a
/// small integer.
pub open spec fn decode_s5(a: Seq<u8>, i: int) -> Option<(u16, u16)> {
    let c0 = i + 5;
    let c1 = c0 + a[c0] / 64 + 2;
    if c1 >= a.len() {
        None
    } else {
        let c2 = if a[c1] == 0x0A { c1 + 1 } else { c1 };
        let typ_a = slp_field(byte_or_zero(a, c2));
        let c3 = c2 + 1;
        let c4 = if 0 <= c3 < a.len() && a[c3] == 0x0A { c3 + 1 } else { c3 };
        Some((typ_a, slp_field(byte_or_zero(a, c4))))
    }
}

/// The sleep types for S5 that the AML of the DSDT declares, if found.
pub open spec fn s5_types(a: Seq<u8>) -> Option<(u16, u16)> {
    match first_s5(a, 0) {
        None => None,
        Some(i) => decode_s5(a, i),
    }
}

fn get_or_zero(a: &[u8], k: usize) -> (r: u8)
    ensures
        r == byte_or_zero(a@, k as int),
{
    if k < a.len() { a[k] } else { 0 }
}

fn slp(b: u8) -> (r: u16)
    ensures
        r == slp_field(b),
{
    let w = b as u16;
    proof {
        assert((w << 10) as int == ((w as int) * 1024) % 65536) by (bit_vector)
            requires w < 256;
    }
    w << 10
}

/// Find `_S5_` in the AML and decode the sleep types that follow it.
pub fn find_s5(aml: &[u8]) -> (r: Option<(u16, u16)>)
    ensures
        r == s5_types(aml@),
{
    let n = aml.len();
    let mut index: usize = 0;
    while n > 8 && index < n - 8
        invariant
            n == aml@.len(),
            index <= n,
            first_s5(aml@, index as int) == first_s5(aml@, 0),
        decreases n - index,
    {
        let found = aml[index] == 0x5F && aml[index + 1] == 0x53 && aml[index + 2] == 0x35 && aml[index + 3] == 0x5F;
        let preceded = (index >= 1 && aml[index - 1] == 0x08)
            || (index >= 2 && aml[index - 2] == 0x08 && aml[index - 1] == 0x5C);
        if found && preceded && aml[index + 4] == 0x12 {
            let start = index + 5;
            let b = aml[start];
            proof {
                assert(((b & 0xC0) >> 6) == b / 64) by (bit_vector);
            }
            let skip = ((b & 0xC0) >> 6) as usize + 2;
            if skip >= n - start {
                return None;
            }
            let mut cursor = start + skip;
            if aml[cursor] == 0x0A {
                cursor += 1;
            }
            let typ_a = slp(get_or_zero(aml, cursor));
            // Past the end, every later byte reads as zero too.
            cursor = if cursor < n { cursor + 1 } else { n };
            if cursor < n && aml[cursor] == 0x0A {
                cursor += 1;
            }
            let typ_b = slp(get_or_zero(aml, cursor));
            return Some((typ_a, typ_b));
        }
        index += 1;
    }
    None
}

/// The port writes that power the machine down, in order: the ACPI PM1
/// control registers where known, then the shutdown ports of common
/// hypervisors for when ACPI is unavailable or ignored.
pub fn power_off(config: Option<PowerOff>) -> (writes: Vec<(u16, u16)>)
    ensures
        writes@ == (match config {
            Some(c) => (if c.pm1a_control != 0 { seq![(c.pm1a_control, c.slp_typ_a | SLP_EN)] } else { seq![] })
                + (if c.pm1b_control != 0 { seq![(c.pm1b_control, c.slp_typ_b | SLP_EN)] } else { seq![] }),
            None => Seq::<(u16, u16)>::empty(),
        }) + seq![(0x604u16, 0x2000u16), (0xB004u16, 0x2000u16), (0x4004u16, 0x3400u16)],
{
    let mut writes: Vec<(u16, u16)> = Vec::new();
    if let Some(c) = config {
        if c.pm1a_control != 0 {
            writes.push((c.pm1a_control, c.slp_typ_a | SLP_EN));
        }
        if c.pm1b_control != 0 {
            writes.push((c.pm1b_control, c.slp_typ_b | SLP_EN));
        }
    }
    writes.push((0x604, 0x2000));
    writes.push((0xB004, 0x2000));
    writes.push((0x4004, 0x3400));
    proof {
        let expected = (match config {
            Some(c) => (if c.pm1a_control != 0 { seq![(c.pm1a_control, c.slp_typ_a | SLP_EN)] } else { seq![] })
                + (if c.pm1b_control != 0 { seq![(c.pm1b_control, c.slp_typ_b | SLP_EN)] } else { seq![] }),
            None => Seq::<(u16, u16)>::empty(),
        }) + seq![(0x604u16, 0x2000u16), (0xB004u16, 0x2000u16), (0x4004u16, 0x3400u16)];
        assert(writes@ =~= expected);
    }
    writes
}

} // verus!
