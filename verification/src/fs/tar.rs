//! USTAR reader for the initrd.
//!
//! The bootloader loads `initrd.tar` as a module; this walks it in place.
//! Only regular files are of interest -- directories are implied by the
//! paths.

use vstd::prelude::*;
use vstd::utf8::{valid_utf8, decode_utf8};

verus! {

use crate::text::{utf8, chars_of, string_of};

/// A regular file of the archive.
pub struct Entry<'a> {
    pub name: &'a str,
    pub data: &'a [u8],
}

pub const BLOCK: usize = 512;

/// An octal digit byte.
pub open spec fn is_octal(b: u8) -> bool {
    0x30 <= b <= 0x37
}

/// Where the run of octal digits starting at `i` ends.
pub open spec fn digits_end(f: Seq<u8>, i: int) -> int
    decreases f.len() - i,
{
    if i < 0 || i >= f.len() || !is_octal(f[i]) {
        i
    } else {
        digits_end(f, i + 1)
    }
}

/// The value of the first `n` bytes read as octal digits.
pub open spec fn octal_upto(f: Seq<u8>, n: int) -> int
    decreases n,
{
    if n <= 0 {
        0
    } else {
        octal_upto(f, n - 1) * 8 + (f[n - 1] - 0x30)
    }
}

/// A numeric header field: its leading octal digits; padding or anything
/// else ends the number.
pub open spec fn octal_value(f: Seq<u8>) -> int {
    octal_upto(f, digits_end(f, 0))
}

proof fn lemma_digits_end(f: Seq<u8>, i: int)
    requires
        0 <= i <= f.len(),
    ensures
        i <= digits_end(f, i) <= f.len(),
        forall|k: int| i <= k < digits_end(f, i) ==> is_octal(#[trigger] f[k]),
        digits_end(f, i) < f.len() ==> !is_octal(f[digits_end(f, i)]),
    decreases f.len() - i,
{
    if i < f.len() && is_octal(f[i]) {
        lemma_digits_end(f, i + 1);
    }
}

/// Eight to the `n`.
pub open spec fn pow8(n: int) -> int
    decreases n,
{
    if n <= 0 { 1 } else { 8 * pow8(n - 1) }
}

proof fn lemma_octal_bound(f: Seq<u8>, n: int)
    requires
        0 <= n <= f.len(),
        n <= 21,
        forall|k: int| 0 <= k < n ==> is_octal(#[trigger] f[k]),
    ensures
        0 <= octal_upto(f, n) < pow8(n),
        pow8(n) <= pow8(21),
    decreases n,
{
    lemma_pow8_mono(n, 21);
    if n > 0 {
        lemma_octal_bound(f, n - 1);
    }
}

proof fn lemma_pow8_pos(n: int)
    requires
        0 <= n,
    ensures
        1 <= pow8(n),
    decreases n,
{
    if n > 0 {
        lemma_pow8_pos(n - 1);
    }
}

proof fn lemma_pow8_mono(n: int, m: int)
    requires
        0 <= n <= m,
    ensures
        1 <= pow8(n) <= pow8(m),
    decreases m - n,
{
    lemma_pow8_pos(n);
    if n < m {
        lemma_pow8_mono(n + 1, m);
    }
}

proof fn lemma_pow8_21()
    ensures
        pow8(21) == 0x8000_0000_0000_0000,
        pow8(12) == 0x10_0000_0000,
{
    reveal_with_fuel(pow8, 22);
}

/// A numeric field of at most 21 bytes, read as octal.
fn parse_octal(field: &[u8]) -> (r: u64)
    requires
        field@.len() <= 21,
    ensures
        r == octal_value(field@),
        r < pow8(field@.len() as int),
{
    let ghost end = digits_end(field@, 0);
    proof {
        lemma_digits_end(field@, 0);
    }
    let mut value: u64 = 0;
    let mut i: usize = 0;
    while i < field.len()
        invariant_except_break
            i <= end,
        invariant
            i <= field@.len(),
            field@.len() <= 21,
            end == digits_end(field@, 0),
            0 <= end <= field@.len(),
            forall|k: int| 0 <= k < end ==> is_octal(#[trigger] field@[k]),
            end < field@.len() ==> !is_octal(field@[end]),
            value == octal_upto(field@, i as int),
        ensures
            value == octal_upto(field@, end),
        decreases field@.len() - i,
    {
        let byte = field[i];
        if byte >= 0x30 && byte <= 0x37 {
            proof {
                lemma_octal_bound(field@, i as int + 1);
                lemma_pow8_21();
            }
            value = value * 8 + (byte - 0x30) as u64;
            i += 1;
        } else {
            break;
        }
    }
    proof {
        lemma_octal_bound(field@, end);
        lemma_pow8_mono(end, field@.len() as int);
    }
    value
}

/// Index of the first NUL in `f`, or its length if there is none.
pub open spec fn nul_from(f: Seq<u8>, i: int) -> int
    decreases f.len() - i,
{
    if i < 0 || i >= f.len() || f[i] == 0 {
        i
    } else {
        nul_from(f, i + 1)
    }
}

/// A text field: the bytes before the first NUL, as UTF-8; empty when
/// they are not valid UTF-8.
pub open spec fn field_text(f: Seq<u8>) -> Seq<char> {
    let pre = f.take(nul_from(f, 0));
    if valid_utf8(pre) { decode_utf8(pre) } else { Seq::<char>::empty() }
}

proof fn lemma_nul_from(f: Seq<u8>, i: int)
    requires
        0 <= i <= f.len(),
    ensures
        i <= nul_from(f, i) <= f.len(),
    decreases f.len() - i,
{
    if i < f.len() && f[i] != 0 {
        lemma_nul_from(f, i + 1);
    }
}

fn field_str(field: &[u8]) -> (r: &str)
    ensures
        r@ == field_text(field@),
{
    let mut end: usize = 0;
    proof {
        lemma_nul_from(field@, 0);
    }
    while end < field.len() && field[end] != 0
        invariant
            end <= field@.len(),
            nul_from(field@, end as int) == nul_from(field@, 0),
        decreases field@.len() - end,
    {
        end += 1;
    }
    let prefix = vstd::slice::slice_subrange(field, 0, end);
    proof {
        assert(prefix@ =~= field@.take(end as int));
    }
    proof {
        assert(end == nul_from(field@, end as int));
    }
    match utf8(prefix) {
        Some(text) => text,
        None => {
            proof {
                reveal_strlit("");
            }
            ""
        },
    }
}

/// The "ustar" magic.
pub open spec fn ustar() -> Seq<u8> {
    seq![0x75u8, 0x73, 0x74, 0x61, 0x72]
}

/// The 512 bytes at `off` are all zero.
pub open spec fn zero_block(a: Seq<u8>, off: int) -> bool {
    forall|k: int| off <= k < off + 512 ==> a[k] == 0
}

/// The regular files of the archive from the header at `off` on, each
/// as name and the range of its bytes.
pub open spec fn walk(a: Seq<u8>, off: int) -> Seq<(Seq<char>, int, int)>
    decreases (if a.len() >= off { a.len() - off } else { 0 }),
{
    if off < 0 || off + 512 > a.len() || zero_block(a, off) || a.subrange(off + 257, off + 262) != ustar() {
        Seq::empty()
    } else {
        let size = octal_value(a.subrange(off + 124, off + 136));
        let start = off + 512;
        let next = if size >= 0 { start + ((size + 511) / 512) * 512 } else { start };
        let kind = a[off + 156];
        let rest = walk(a, next);
        if (kind == 0x30 || kind == 0) && start + size <= a.len() {
            seq![(field_text(a.subrange(off, off + 100)), start, start + size)] + rest
        } else {
            rest
        }
    }
}

/// The regular files of a tar archive, in archive order.
pub fn entries<'a>(archive: &'a [u8]) -> (r: Vec<Entry<'a>>)
    ensures
        r@.len() == walk(archive@, 0).len(),
        forall|i: int| 0 <= i < r@.len() ==> {
            let w = #[trigger] walk(archive@, 0)[i];
            &&& r@[i].name@ == w.0
            &&& r@[i].data@ == archive@.subrange(w.1, w.2)
        },
{
    let len = archive.len();
    let mut out: Vec<Entry<'a>> = Vec::new();
    let mut offset: usize = 0;
    loop
        invariant_except_break
            walk(archive@, 0).len() == out@.len() + walk(archive@, offset as int).len(),
            forall|i: int| 0 <= i < walk(archive@, offset as int).len() ==>
                walk(archive@, 0)[out@.len() + i] == #[trigger] walk(archive@, offset as int)[i],
        invariant
            len == archive@.len(),
            offset <= len,
            forall|i: int| 0 <= i < out@.len() ==> {
                let w = #[trigger] walk(archive@, 0)[i];
                &&& out@[i].name@ == w.0
                &&& out@[i].data@ == archive@.subrange(w.1, w.2)
            },
        ensures
            walk(archive@, 0).len() == out@.len(),
        decreases len - offset,
    {
        let ghost a = archive@;
        let ghost off = offset as int;
        if len - offset < BLOCK {
            break;
        }
        let header = vstd::slice::slice_subrange(archive, offset, offset + BLOCK);
        let mut zero = true;
        let mut k: usize = 0;
        while k < BLOCK
            invariant
                k <= BLOCK,
                header@.len() == 512,
                header@ == a.subrange(off, off + 512),
                zero == forall|j: int| 0 <= j < k ==> header@[j] == 0,
            decreases BLOCK - k,
        {
            if header[k] != 0 {
                zero = false;
            }
            k += 1;
        }
        if zero {
            proof {
                assert forall|j: int| off <= j < off + 512 implies a[j] == 0 by {
                    assert(header@[j - off] == 0);
                }
            }
            break;
        }
        let magic_ok = header[257] == 0x75 && header[258] == 0x73 && header[259] == 0x74
            && header[260] == 0x61 && header[261] == 0x72;
        if !magic_ok {
            proof {
                assert(a.subrange(off + 257, off + 262) != ustar()) by {
                    if a.subrange(off + 257, off + 262) == ustar() {
                        assert(a.subrange(off + 257, off + 262)[0] == header@[257]);
                        assert(a.subrange(off + 257, off + 262)[1] == header@[258]);
                        assert(a.subrange(off + 257, off + 262)[2] == header@[259]);
                        assert(a.subrange(off + 257, off + 262)[3] == header@[260]);
                        assert(a.subrange(off + 257, off + 262)[4] == header@[261]);
                    }
                }
            }
            break;
        }
        proof {
            assert(a.subrange(off + 257, off + 262) =~= ustar());
            assert(!zero_block(a, off)) by {
                let j = choose|j: int| 0 <= j < 512 && header@[j] != 0;
                assert(a[off + j] == header@[j]);
            }
        }
        let name = field_str(vstd::slice::slice_subrange(header, 0, 100));
        let size = parse_octal(vstd::slice::slice_subrange(header, 124, 136));
        let kind = header[156];
        proof {
            assert(header@.subrange(0, 100) =~= a.subrange(off, off + 100));
            assert(header@.subrange(124, 136) =~= a.subrange(off + 124, off + 136));
            assert(kind == a[off + 156]);
        }
        let data_start = offset + BLOCK;
        let room = (len - data_start) as u64;
        proof {
            lemma_pow8_21();
            assert(size < 0x10_0000_0000);
        }
        let padded = ((size + 511) / 512) * 512;
        let ghost next = data_start + padded;
        let ghost rest = walk(a, next);
        let ghost before_len = out@.len();
        proof {
            assert(next == off + 512 + ((size + 511) / 512) * 512);
            assert(next > off);
        }
        if (kind == 0x30 || kind == 0) && size <= room {
            let data = vstd::slice::slice_subrange(archive, data_start, data_start + size as usize);
            let ghost before = out@;
            out.push(Entry { name, data });
            proof {
                assert(walk(a, off) == seq![(field_text(a.subrange(off, off + 100)), off + 512, off + 512 + size)] + rest);
                assert(walk(a, off)[0] == (field_text(a.subrange(off, off + 100)), off + 512, off + 512 + size));
                assert(walk(a, 0)[before.len() as int] == walk(a, off)[0]);
                assert forall|i: int| 0 <= i < out@.len() implies {
                    let w = #[trigger] walk(archive@, 0)[i];
                    &&& out@[i].name@ == w.0
                    &&& out@[i].data@ == archive@.subrange(w.1, w.2)
                } by {
                    if i < before.len() {
                        assert(out@[i] == before[i]);
                    }
                }
                assert forall|i: int| 0 <= i < rest.len() implies
                    walk(a, 0)[out@.len() + i] == #[trigger] rest[i] by {
                    assert(walk(a, off)[i + 1] == rest[i]);
                }
            }
        } else {
            proof {
                assert(walk(a, off) == rest);
            }
        }
        proof {
            assert(walk(a, 0).len() == out@.len() + rest.len());
        }
        if padded > room {
            proof {
                assert(next + 512 > a.len());
                assert(rest == Seq::<(Seq<char>, int, int)>::empty());
            }
            break;
        }
        offset = data_start + padded as usize;
    }
    out
}

/// `s` with every leading "./" taken off.
pub open spec fn strip_dot_slash(s: Seq<char>) -> Seq<char>
    decreases s.len(),
{
    if s.len() >= 2 && s[0] == '.' && s[1] == '/' {
        strip_dot_slash(s.skip(2))
    } else {
        s
    }
}

/// `s` with every leading '/' taken off.
pub open spec fn strip_slash(s: Seq<char>) -> Seq<char>
    decreases s.len(),
{
    if s.len() >= 1 && s[0] == '/' {
        strip_slash(s.skip(1))
    } else {
        s
    }
}

/// The path a member name stands for, if it names a file.
pub open spec fn member_path(name: Seq<char>) -> Option<Seq<char>> {
    let t = strip_slash(strip_dot_slash(name));
    if t.len() == 0 || t.last() == '/' {
        None
    } else {
        Some(seq!['/'] + t)
    }
}

/// Turn a tar member name into an absolute HALCYON path: `./motd.txt`
/// becomes `/motd.txt`; directories and empty names give `None`.
pub fn normalise(name: &str) -> (r: Option<String>)
    ensures
        match member_path(name@) {
            None => r is None,
            Some(p) => r matches Some(s) && s@ == p,
        },
{
    let chars = chars_of(name);
    let n = chars.len();
    let mut i: usize = 0;
    proof {
        assert(chars@.skip(0) =~= name@);
    }
    while i < n && n - i >= 2 && chars[i] == '.' && chars[i + 1] == '/'
        invariant
            n == chars@.len(),
            i <= n,
            strip_dot_slash(chars@.skip(i as int)) == strip_dot_slash(name@),
        decreases n - i,
    {
        proof {
            assert(chars@.skip(i as int).skip(2) =~= chars@.skip(i as int + 2));
        }
        i += 2;
    }
    while i < n && chars[i] == '/'
        invariant
            n == chars@.len(),
            i <= n,
            strip_slash(chars@.skip(i as int)) == strip_slash(strip_dot_slash(name@)),
        decreases n - i,
    {
        proof {
            assert(chars@.skip(i as int).skip(1) =~= chars@.skip(i as int + 1));
        }
        i += 1;
    }
    let ghost t = chars@.skip(i as int);
    proof {
        assert(strip_slash(t) == t);
    }
    if i == n || chars[n - 1] == '/' {
        return None;
    }
    let mut path: Vec<char> = Vec::new();
    path.push('/');
    let mut k: usize = i;
    while k < n
        invariant
            n == chars@.len(),
            i <= k <= n,
            path@ == seq!['/'] + chars@.subrange(i as int, k as int),
        decreases n - k,
    {
        path.push(chars[k]);
        k += 1;
        proof {
            assert(path@ =~= seq!['/'] + chars@.subrange(i as int, k as int));
        }
    }
    proof {
        assert(chars@.subrange(i as int, n as int) =~= t);
    }
    Some(string_of(path.as_slice()))
}

} // verus!
