//! Text helpers: moving between `str`, `String` and sequences of characters.

use vstd::prelude::*;
use vstd::utf8::{valid_utf8, decode_utf8};

verus! {

/// The characters of `s`, in order.
pub fn chars_of(s: &str) -> (v: Vec<char>)
    ensures
        v@ == s@,
{
    let mut v: Vec<char> = Vec::new();
    for c in it: s.chars()
        invariant
            v@ == it.seq().take(it.index() as int),
    {
        v.push(c);
    }
    v
}

} // verus!

verus! {

/// `String::push`: appends one character.
#[verifier::external_body]
pub(crate) fn push_char(s: &mut String, c: char)
    ensures
        final(s)@ == old(s)@.push(c),
{
    s.push(c);
}

/// `core::str::from_utf8`: the bytes read as UTF-8, when they are valid UTF-8.
#[verifier::external_body]
pub(crate) fn utf8(bytes: &[u8]) -> (r: Option<&str>)
    ensures
        r is Some <==> valid_utf8(bytes@),
        r matches Some(s) ==> s@ == decode_utf8(bytes@),
{
    core::str::from_utf8(bytes).ok()
}

/// A `String` holding exactly these characters.
pub fn string_of(chars: &[char]) -> (s: String)
    ensures
        s@ == chars@,
{
    let mut s = String::new();
    let mut i: usize = 0;
    while i < chars.len()
        invariant
            i <= chars@.len(),
            s@ == chars@.take(i as int),
        decreases chars@.len() - i,
    {
        push_char(&mut s, chars[i]);
        i += 1;
        assert(s@ =~= chars@.take(i as int));
    }
    assert(chars@.take(chars@.len() as int) =~= chars@);
    s
}

/// A `String` holding the characters of `s`.
pub fn to_string(s: &str) -> (r: String)
    ensures
        r@ == s@,
{
    let v = chars_of(s);
    string_of(v.as_slice())
}

} // verus!

verus! {

/// The lowercase hex digit for `d` (0 to 15).
pub open spec fn hex_digit(d: int) -> char {
    if d < 10 { ((d + 0x30) as u8) as char } else { ((d - 10 + 0x61) as u8) as char }
}

/// The last `n` hex digits of `v`, zero-padded: what `{:0nx}` prints for
/// a `v` below 16 to the `n`.
pub open spec fn hex_fixed(v: nat, n: nat) -> Seq<char>
    decreases n,
{
    if n == 0 {
        Seq::empty()
    } else {
        hex_fixed(v / 16, (n - 1) as nat).push(hex_digit((v % 16) as int))
    }
}

/// The decimal digits of `v`, as `{}` prints it.
pub open spec fn dec_str(v: nat) -> Seq<char>
    decreases v,
{
    if v < 10 {
        seq![((v + 0x30) as u8) as char]
    } else {
        dec_str(v / 10).push(((v % 10 + 0x30) as u8) as char)
    }
}

/// The hex digits of `v` without leading zeros, as `{:x}` prints it.
pub open spec fn hex_str(v: nat) -> Seq<char>
    decreases v,
{
    if v < 16 {
        seq![hex_digit(v as int)]
    } else {
        hex_str(v / 16).push(hex_digit((v % 16) as int))
    }
}

/// Append the hex digits of `v` without leading zeros.
pub fn push_hex_min(out: &mut Vec<char>, v: u64)
    ensures
        final(out)@ == old(out)@ + hex_str(v as nat),
    decreases v,
{
    if v >= 16 {
        push_hex_min(out, v / 16);
    }
    out.push(digit_char(v % 16));
    proof {
        assert(final(out)@ =~= old(out)@ + hex_str(v as nat));
    }
}

fn digit_char(d: u64) -> (c: char)
    requires
        d < 16,
    ensures
        c == hex_digit(d as int),
{
    if d < 10 { ((d as u8) + 0x30) as char } else { ((d as u8) - 10 + 0x61) as char }
}

/// Append the last `n` hex digits of `v`, zero-padded.
pub fn push_hex(out: &mut Vec<char>, v: u64, n: usize)
    ensures
        final(out)@ == old(out)@ + hex_fixed(v as nat, n as nat),
    decreases n,
{
    if n == 0 {
        proof {
            assert(old(out)@ + hex_fixed(v as nat, 0) =~= old(out)@);
        }
        return;
    }
    push_hex(out, v / 16, n - 1);
    out.push(digit_char(v % 16));
    proof {
        assert(final(out)@ =~= old(out)@ + hex_fixed(v as nat, n as nat));
    }
}

/// Append the decimal digits of `v`.
pub fn push_dec(out: &mut Vec<char>, v: u64)
    ensures
        final(out)@ == old(out)@ + dec_str(v as nat),
    decreases v,
{
    if v >= 10 {
        push_dec(out, v / 10);
    }
    out.push(((v % 10) as u8 + 0x30) as char);
    proof {
        assert(final(out)@ =~= old(out)@ + dec_str(v as nat));
    }
}

/// Append the characters of `s`.
pub fn push_str(out: &mut Vec<char>, s: &str)
    ensures
        final(out)@ == old(out)@ + s@,
{
    let chars = chars_of(s);
    let ghost start = out@;
    let mut i: usize = 0;
    while i < chars.len()
        invariant
            i <= chars@.len(),
            chars@ == s@,
            out@ == start + chars@.take(i as int),
        decreases chars@.len() - i,
    {
        out.push(chars[i]);
        i += 1;
        proof {
            assert(out@ =~= start + chars@.take(i as int));
        }
    }
    proof {
        assert(chars@.take(chars@.len() as int) =~= chars@);
    }
}

} // verus!

verus! {

/// Unicode White_Space, the set `char::is_whitespace` and `str::trim` use.
pub open spec fn is_space(c: char) -> bool {
    let v = c as u32;
    (0x09 <= v <= 0x0D) || v == 0x20 || v == 0x85 || v == 0xA0 || v == 0x1680
        || (0x2000 <= v <= 0x200A) || v == 0x2028 || v == 0x2029 || v == 0x202F
        || v == 0x205F || v == 0x3000
}

pub fn is_space_char(c: char) -> (r: bool)
    ensures
        r == is_space(c),
{
    let v = c as u32;
    (0x09 <= v && v <= 0x0D) || v == 0x20 || v == 0x85 || v == 0xA0 || v == 0x1680
        || (0x2000 <= v && v <= 0x200A) || v == 0x2028 || v == 0x2029 || v == 0x202F
        || v == 0x205F || v == 0x3000
}

/// Index of the first non-space character of `s` at or after `i`.
pub open spec fn lead_end(s: Seq<char>, i: int) -> int
    decreases s.len() - i,
{
    if i < 0 || i >= s.len() || !is_space(s[i]) { i } else { lead_end(s, i + 1) }
}

/// End of `s[..j]` once trailing spaces are gone.
pub open spec fn trail_start(s: Seq<char>, j: int) -> int
    decreases j,
{
    if j <= 0 || j > s.len() || !is_space(s[j - 1]) { j } else { trail_start(s, j - 1) }
}

/// `s` without leading and trailing white space.
pub open spec fn trimmed(s: Seq<char>) -> Seq<char> {
    let a = lead_end(s, 0);
    if a >= s.len() { Seq::empty() } else { s.subrange(a, trail_start(s, s.len() as int)) }
}

proof fn lemma_lead_end(s: Seq<char>, i: int)
    requires
        0 <= i <= s.len(),
    ensures
        i <= lead_end(s, i) <= s.len(),
    decreases s.len() - i,
{
    if i < s.len() && is_space(s[i]) {
        lemma_lead_end(s, i + 1);
    }
}

proof fn lemma_trail_start(s: Seq<char>, j: int, a: int)
    requires
        0 <= a < j <= s.len(),
        !is_space(s[a]),
    ensures
        a < trail_start(s, j) <= j,
    decreases j,
{
    if j - 1 > a && is_space(s[j - 1]) {
        lemma_trail_start(s, j - 1, a);
    }
}

/// `s` with leading and trailing white space removed, as `str::trim`.
pub fn trim(s: &str) -> (r: &str)
    ensures
        r@ == trimmed(s@),
{
    let n = s.unicode_len();
    let mut a: usize = 0;
    proof {
        lemma_lead_end(s@, 0);
    }
    while a < n && is_space_char(s.get_char(a))
        invariant
            n == s@.len(),
            a <= n,
            lead_end(s@, a as int) == lead_end(s@, 0),
        decreases n - a,
    {
        a += 1;
    }
    if a >= n {
        return s.substring_char(n, n);
    }
    let mut b: usize = n;
    proof {
        lemma_trail_start(s@, n as int, a as int);
    }
    while b > a && is_space_char(s.get_char(b - 1))
        invariant
            n == s@.len(),
            a < n,
            !is_space(s@[a as int]),
            a < b <= n,
            trail_start(s@, b as int) == trail_start(s@, n as int),
        decreases b,
    {
        b -= 1;
    }
    proof {
        assert(lead_end(s@, a as int) == a);
        assert(trail_start(s@, b as int) == b);
    }
    s.substring_char(a, b)
}


/// The characters of `s` without leading and trailing white space.
pub fn trim_chars(s: &[char]) -> (r: Vec<char>)
    ensures
        r@ == trimmed(s@),
{
    let n = s.len();
    let mut a: usize = 0;
    proof {
        lemma_lead_end(s@, 0);
    }
    while a < n && is_space_char(s[a])
        invariant
            n == s@.len(),
            a <= n,
            lead_end(s@, a as int) == lead_end(s@, 0),
        decreases n - a,
    {
        a += 1;
    }
    let mut out: Vec<char> = Vec::new();
    if a >= n {
        return out;
    }
    let mut b: usize = n;
    proof {
        lemma_trail_start(s@, n as int, a as int);
    }
    while b > a && is_space_char(s[b - 1])
        invariant
            n == s@.len(),
            a < n,
            !is_space(s@[a as int]),
            a < b <= n,
            trail_start(s@, b as int) == trail_start(s@, n as int),
        decreases b,
    {
        b -= 1;
    }
    proof {
        assert(lead_end(s@, a as int) == a);
        assert(trail_start(s@, b as int) == b);
    }
    let mut i: usize = a;
    while i < b
        invariant
            a <= i <= b <= n,
            n == s@.len(),
            out@ == s@.subrange(a as int, i as int),
        decreases b - i,
    {
        out.push(s[i]);
        i += 1;
        proof {
            assert(out@ =~= s@.subrange(a as int, i as int));
        }
    }
    out
}

/// A copy of the characters.
pub fn copy_chars(s: &[char]) -> (r: Vec<char>)
    ensures
        r@ == s@,
{
    let mut out: Vec<char> = Vec::new();
    let mut i: usize = 0;
    while i < s.len()
        invariant
            i <= s@.len(),
            out@ == s@.take(i as int),
        decreases s@.len() - i,
    {
        out.push(s[i]);
        i += 1;
        proof {
            assert(out@ =~= s@.take(i as int));
        }
    }
    proof {
        assert(s@.take(s@.len() as int) =~= s@);
    }
    out
}

} // verus!

