//! The reader: source text to ORACLE values.
//!
//! The grammar, over the bytes of the source:
//! white space and `;` comments separate forms; `(`...`)` and `[`...`]`
//! are lists; `'x` is `(quote x)`; `"..."` is a string with `\n`, `\t`,
//! `\\` and `\"` escapes (any other escaped byte stands for itself, and
//! every byte is read as the character with that code); anything else up
//! to a delimiter is an atom: `nil`, `true`/`#t`, `false`/`#f`, an
//! integer (decimal, or hex after `0x`), or a symbol.

use vstd::prelude::*;
use vstd::utf8::{valid_utf8, decode_utf8};

verus! {

use crate::oracle::value::{Value, Datum, data_of, lemma_data_of};
use crate::text::{utf8, chars_of, string_of, to_string, push_str};

/// What reading one form gives.
pub enum ReadResult {
    Eof,
    Form(Datum),
    Fail(Seq<char>),
}

/// ASCII white space as `u8::is_ascii_whitespace` has it.
pub open spec fn is_blank(b: u8) -> bool {
    b == 0x20 || b == 0x09 || b == 0x0A || b == 0x0C || b == 0x0D
}

/// Where the line holding position `p` ends (its newline, or the end).
pub open spec fn line_end(s: Seq<u8>, p: int) -> int
    decreases s.len() - p,
{
    if p < 0 || p >= s.len() || s[p] == 0x0A { p } else { line_end(s, p + 1) }
}

pub proof fn lemma_line_end(s: Seq<u8>, p: int)
    requires
        0 <= p <= s.len(),
    ensures
        p <= line_end(s, p) <= s.len(),
    decreases s.len() - p,
{
    if p < s.len() && s[p] != 0x0A {
        lemma_line_end(s, p + 1);
    }
}

/// Past the white space and comments starting at `p`.
pub open spec fn skip_trivia(s: Seq<u8>, p: int) -> int
    decreases s.len() - p,
{
    if p < 0 || p >= s.len() {
        p
    } else if is_blank(s[p]) {
        skip_trivia(s, p + 1)
    } else if s[p] == 0x3B {
        let e = line_end(s, p + 1);
        if p < e <= s.len() { skip_trivia(s, e) } else { p }
    } else {
        p
    }
}

pub proof fn lemma_skip(s: Seq<u8>, p: int)
    requires
        0 <= p <= s.len(),
    ensures
        p <= skip_trivia(s, p) <= s.len(),
        skip_trivia(s, p) < s.len() ==> !is_blank(s[skip_trivia(s, p)]) && s[skip_trivia(s, p)] != 0x3B,
    decreases s.len() - p,
{
    if p < s.len() {
        if is_blank(s[p]) {
            lemma_skip(s, p + 1);
        } else if s[p] == 0x3B {
            lemma_line_end(s, p + 1);
            lemma_skip(s, line_end(s, p + 1));
        }
    }
}

/// A byte that ends an atom.
pub open spec fn is_delimiter(b: u8) -> bool {
    is_blank(b) || b == 0x28 || b == 0x29 || b == 0x5B || b == 0x5D || b == 0x3B
}

/// Where the atom starting at `p` ends.
pub open spec fn atom_end(s: Seq<u8>, p: int) -> int
    decreases s.len() - p,
{
    if p < 0 || p >= s.len() || is_delimiter(s[p]) { p } else { atom_end(s, p + 1) }
}

pub proof fn lemma_atom_end(s: Seq<u8>, p: int)
    requires
        0 <= p <= s.len(),
    ensures
        p <= atom_end(s, p) <= s.len(),
    decreases s.len() - p,
{
    if p < s.len() && !is_delimiter(s[p]) {
        lemma_atom_end(s, p + 1);
    }
}

/// Value of a digit character in base `radix` (10 or 16), if it is one.
pub open spec fn digit_value(c: char, radix: int) -> Option<int> {
    let v = c as int;
    if 0x30 <= v <= 0x39 && v - 0x30 < radix {
        Some(v - 0x30)
    } else if radix == 16 && 0x61 <= v <= 0x66 {
        Some(v - 0x61 + 10)
    } else if radix == 16 && 0x41 <= v <= 0x46 {
        Some(v - 0x41 + 10)
    } else {
        None
    }
}

/// The digits of `s` as a number in base `radix`, if all are digits.
pub open spec fn digits_value(s: Seq<char>, radix: int) -> Option<int>
    decreases s.len(),
{
    if s.len() == 0 {
        Some(0)
    } else {
        match (digits_value(s.drop_last(), radix), digit_value(s.last(), radix)) {
            (Some(a), Some(d)) => Some(a * radix + d),
            _ => None,
        }
    }
}

/// What `i64::from_str_radix` accepts: an optional sign, then at least one
/// digit, with the value in range.
pub open spec fn parse_int(s: Seq<char>, radix: int) -> Option<i64> {
    let negative = s.len() > 0 && s[0] == '-';
    let signed = s.len() > 0 && (s[0] == '-' || s[0] == '+');
    let digits = if signed { s.drop_first() } else { s };
    if digits.len() == 0 {
        None
    } else {
        match digits_value(digits, radix) {
            None => None,
            Some(v) => {
                let value = if negative { -v } else { v };
                if i64::MIN <= value <= i64::MAX { Some(value as i64) } else { None }
            },
        }
    }
}

/// The value an atom token stands for.
pub open spec fn atom(t: Seq<char>) -> Datum {
    if t == "nil"@ {
        Datum::Nil
    } else if t == "true"@ || t == "#t"@ {
        Datum::Bool(true)
    } else if t == "false"@ || t == "#f"@ {
        Datum::Bool(false)
    } else {
        let hexed = t.len() > 2 && t[0] == '0' && (t[1] == 'x' || t[1] == 'X');
        match (if hexed { parse_int(t.skip(2), 16) } else { None }) {
            Some(v) => Datum::Int(v as int),
            None => match parse_int(t, 10) {
                Some(v) => Datum::Int(v as int),
                None => Datum::Symbol(t),
            },
        }
    }
}

/// The character an escaped byte stands for.
pub open spec fn escape_char(b: u8) -> char {
    if b == 0x6E { '\n' } else if b == 0x74 { '\t' } else { (b as u32) as char }
}

/// A string literal's body from `p` (just past the opening quote): its
/// characters and the position past the closing quote.
pub open spec fn read_string(s: Seq<u8>, p: int, acc: Seq<char>) -> (Result<Seq<char>, Seq<char>>, int)
    decreases s.len() - p,
{
    if p < 0 || p >= s.len() {
        (Err("unterminated string"@), p)
    } else if s[p] == 0x22 {
        (Ok(acc), p + 1)
    } else if s[p] == 0x5C {
        if p + 1 >= s.len() {
            (Err("unterminated escape"@), p + 1)
        } else {
            read_string(s, p + 2, acc.push(escape_char(s[p + 1])))
        }
    } else {
        read_string(s, p + 1, acc.push((s[p] as u32) as char))
    }
}

/// Read one form from position `p`: the outcome and the position after it.
pub open spec fn read_form(s: Seq<u8>, p: int) -> (ReadResult, int)
    decreases s.len() - p, 0int,
{
    if p < 0 || p > s.len() {
        (ReadResult::Eof, p)
    } else {
        let q = skip_trivia(s, p);
        proof {
            lemma_skip(s, p);
        }
        if q >= s.len() {
            (ReadResult::Eof, q)
        } else {
            let b = s[q];
            if b == 0x28 || b == 0x5B {
                let closer: u8 = if b == 0x28 { 0x29 } else { 0x5D };
                let (items, r) = read_items(s, q + 1, closer);
                match items {
                    Ok(ds) => (ReadResult::Form(Datum::List(ds)), r),
                    Err(e) => (ReadResult::Fail(e), r),
                }
            } else if b == 0x29 || b == 0x5D {
                (ReadResult::Fail("unexpected closing bracket"@), q)
            } else if b == 0x27 {
                let (inner, r) = read_form(s, q + 1);
                match inner {
                    ReadResult::Form(d) => (ReadResult::Form(Datum::List(seq![Datum::Symbol("quote"@), d])), r),
                    ReadResult::Eof => (ReadResult::Fail("nothing to quote"@), r),
                    ReadResult::Fail(e) => (ReadResult::Fail(e), r),
                }
            } else if b == 0x22 {
                let (text, r) = read_string(s, q + 1, Seq::empty());
                match text {
                    Ok(t) => (ReadResult::Form(Datum::Str(t)), r),
                    Err(e) => (ReadResult::Fail(e), r),
                }
            } else {
                let e = atom_end(s, q);
                let token = s.subrange(q, e);
                if valid_utf8(token) {
                    (ReadResult::Form(atom(decode_utf8(token))), e)
                } else {
                    (ReadResult::Fail("invalid utf-8 in token"@), e)
                }
            }
        }
    }
}

/// The items of a list from `p` up to and past `closer`.
pub open spec fn read_items(s: Seq<u8>, p: int, closer: u8) -> (Result<Seq<Datum>, Seq<char>>, int)
    decreases s.len() - p, 1int,
{
    if p < 0 || p > s.len() {
        (Err("unclosed list"@), p)
    } else {
        let q = skip_trivia(s, p);
        proof {
            lemma_skip(s, p);
        }
        if q >= s.len() {
            (Err("unclosed list"@), q)
        } else if s[q] == closer {
            (Ok(Seq::empty()), q + 1)
        } else if s[q] == 0x29 || s[q] == 0x5D {
            (Err("mismatched closing bracket"@), q)
        } else {
            let (first, r) = read_form(s, q);
            match first {
                ReadResult::Fail(e) => (Err(e), r),
                ReadResult::Eof => (Err("unclosed list"@), r),
                ReadResult::Form(d) => if r <= q || r > s.len() {
                    (Err("unclosed list"@), r)
                } else {
                    let (rest, r2) = read_items(s, r, closer);
                    match rest {
                        Ok(ds) => (Ok(seq![d] + ds), r2),
                        Err(e) => (Err(e), r2),
                    }
                },
            }
        }
    }
}

/// Every form from `p` on.
pub open spec fn read_all_forms(s: Seq<u8>, p: int) -> Result<Seq<Datum>, Seq<char>>
    decreases s.len() - p,
{
    let (first, r) = read_form(s, p);
    match first {
        ReadResult::Eof => Ok(Seq::empty()),
        ReadResult::Fail(e) => Err(e),
        ReadResult::Form(d) => if r <= p || r > s.len() {
            Err("unclosed list"@)
        } else {
            match read_all_forms(s, r) {
                Ok(ds) => Ok(seq![d] + ds),
                Err(e) => Err(e),
            }
        },
    }
}

fn digit_of(c: char, radix: u32) -> (r: Option<u32>)
    requires
        radix == 10 || radix == 16,
    ensures
        match digit_value(c, radix as int) {
            Some(v) => r == Some(v as u32),
            None => r is None,
        },
{
    let v = c as u32;
    if 0x30 <= v && v <= 0x39 && v - 0x30 < radix {
        Some(v - 0x30)
    } else if radix == 16 && 0x61 <= v && v <= 0x66 {
        Some(v - 0x61 + 10)
    } else if radix == 16 && 0x41 <= v && v <= 0x46 {
        Some(v - 0x41 + 10)
    } else {
        None
    }
}

proof fn lemma_digits_step(s: Seq<char>, i: int, radix: int)
    requires
        0 <= i < s.len(),
        radix >= 2,
    ensures
        s.take(i + 1).drop_last() == s.take(i),
        s.take(i + 1).last() == s[i],
        digits_value(s.take(i + 1), radix) == match (digits_value(s.take(i), radix), digit_value(s[i], radix)) {
            (Some(a), Some(d)) => Some(a * radix + d),
            _ => None::<int>,
        },
{
    assert(s.take(i + 1).drop_last() =~= s.take(i));
}

proof fn lemma_digits_nonneg(s: Seq<char>, radix: int)
    requires
        radix >= 2,
    ensures
        digits_value(s, radix) matches Some(v) ==> v >= 0,
    decreases s.len(),
{
    if s.len() > 0 {
        lemma_digits_nonneg(s.drop_last(), radix);
    }
}

/// `i64::from_str_radix` over the characters `s[start..]`.
fn parse_int_exec(s: &Vec<char>, start: usize, radix: u32) -> (r: Option<i64>)
    requires
        start <= s@.len(),
        radix == 10 || radix == 16,
    ensures
        r == parse_int(s@.skip(start as int), radix as int),
{
    let ghost t = s@.skip(start as int);
    let n = s.len();
    if start >= n {
        return None;
    }
    let negative = s[start] == '-';
    let signed = s[start] == '-' || s[start] == '+';
    let first = if signed { start + 1 } else { start };
    let ghost digits = if signed { t.drop_first() } else { t };
    proof {
        assert(digits =~= s@.skip(first as int));
    }
    if first >= n {
        return None;
    }
    // Magnitudes up to 2^63 matter; beyond that the value cannot fit.
    let limit: u64 = 0x8000_0000_0000_0000;
    let mut value: u64 = 0;
    let mut overflow = false;
    let mut valid = true;
    let mut i: usize = first;
    proof {
        assert(digits.take(0) =~= Seq::<char>::empty());
    }
    while i < n
        invariant
            n == s@.len(),
            first <= i <= n,
            radix == 10 || radix == 16,
            digits == s@.skip(first as int),
            limit == 0x8000_0000_0000_0000,
            valid <==> digits_value(digits.take(i - first), radix as int) is Some,
            valid && !overflow ==> digits_value(digits.take(i - first), radix as int) == Some(value as int),
            valid && overflow ==> digits_value(digits.take(i - first), radix as int)->0 > limit,
            value <= limit,
        decreases n - i,
    {
        let d = digit_of(s[i], radix);
        proof {
            lemma_digits_step(digits, i - first, radix as int);
            assert(digits[i - first] == s@[i as int]);
        }
        match d {
            None => {
                valid = false;
            },
            Some(dv) => {
                if valid && !overflow {
                    if value > (limit - dv as u64) / radix as u64 {
                        overflow = true;
                        proof {
                            assert(value as int * radix + dv > limit) by (nonlinear_arith)
                                requires value > (limit - dv) / (radix as int), radix >= 10, dv < 16, limit > 16;
                        }
                    } else {
                        proof {
                            assert(value as int * radix + dv <= limit) by (nonlinear_arith)
                                requires value <= (limit - dv) / (radix as int), radix >= 10, dv < 16, limit > 16;
                        }
                        value = value * radix as u64 + dv as u64;
                    }
                } else if valid && overflow {
                    proof {
                        let a = digits_value(digits.take(i - first), radix as int)->0;
                        assert(a * radix + dv > limit) by (nonlinear_arith)
                            requires a > limit, radix >= 10, dv >= 0;
                    }
                }
            },
        }
        i += 1;
    }
    proof {
        assert(digits.take(n - first) =~= digits);
        lemma_digits_nonneg(digits, radix as int);
    }
    if !valid || overflow {
        return None;
    }
    if negative {
        Some(if value == limit { i64::MIN } else { -(value as i64) })
    } else if value > 0x7FFF_FFFF_FFFF_FFFF {
        None
    } else {
        Some(value as i64)
    }
}

fn text_is(t: &Vec<char>, lit: &str) -> (r: bool)
    ensures
        r == (t@ == lit@),
{
    let l = chars_of(lit);
    if l.len() != t.len() {
        return false;
    }
    let mut i: usize = 0;
    while i < t.len()
        invariant
            l@ == lit@,
            l@.len() == t@.len(),
            i <= t@.len(),
            forall|j: int| 0 <= j < i ==> t@[j] == l@[j],
        decreases t@.len() - i,
    {
        if t[i] != l[i] {
            return false;
        }
        i += 1;
    }
    proof {
        assert(t@ =~= l@);
    }
    true
}

/// The value an atom token stands for.
pub fn atom_value(token: &str) -> (v: Value)
    ensures
        v.view() == atom(token@),
{
    let t = chars_of(token);
    if text_is(&t, "nil") {
        return Value::Nil;
    }
    if text_is(&t, "true") || text_is(&t, "#t") {
        return Value::Bool(true);
    }
    if text_is(&t, "false") || text_is(&t, "#f") {
        return Value::Bool(false);
    }
    let hexed = t.len() > 2 && t[0] == '0' && (t[1] == 'x' || t[1] == 'X');
    if hexed {
        if let Some(v) = parse_int_exec(&t, 2, 16) {
            return Value::Int(v);
        }
    }
    proof {
        assert(t@.skip(0) =~= t@);
    }
    match parse_int_exec(&t, 0, 10) {
        Some(v) => Value::Int(v),
        None => Value::Symbol(string_of(t.as_slice())),
    }
}

/// What `format!("{:?}", s)` gives for a string slice: Rust's debug
/// quoting, which escapes by Unicode property tables.
pub uninterp spec fn debug_text(s: Seq<char>) -> Seq<char>;

/// `format!("{:?}", s)`: the string quoted and escaped as Rust's `Debug`
/// for `str` does it.
#[verifier::external_body]
fn debug_str(s: &str) -> (r: String)
    ensures
        r@ == debug_text(s@),
{
    format!("{:?}", s)
}

/// Join the items read so far with the outcome of reading the rest.
pub open spec fn joined_items(acc: Seq<Datum>, rest: (Result<Seq<Datum>, Seq<char>>, int)) -> (Result<Seq<Datum>, Seq<char>>, int) {
    (match rest.0 {
        Ok(ds) => Ok(acc + ds),
        Err(e) => Err(e),
    }, rest.1)
}

pub open spec fn joined_forms(acc: Seq<Datum>, rest: Result<Seq<Datum>, Seq<char>>) -> Result<Seq<Datum>, Seq<char>> {
    match rest {
        Ok(ds) => Ok(acc + ds),
        Err(e) => Err(e),
    }
}

pub struct Reader<'a> {
    source: &'a [u8],
    position: usize,
}

impl<'a> Reader<'a> {
    pub closed spec fn source_spec(&self) -> Seq<u8> {
        self.source@
    }

    pub closed spec fn position_spec(&self) -> int {
        self.position as int
    }

    pub open spec fn wf(&self) -> bool {
        self.position_spec() <= self.source_spec().len()
    }

    /// A reader at the start of `source`.
    pub fn new(source: &'a str) -> (r: Reader<'a>)
        ensures
            r.wf(),
            r.source_spec() == vstd::utf8::encode_utf8(source@),
            r.position_spec() == 0,
    {
        Reader { source: source.as_bytes(), position: 0 }
    }

    fn skip_trivia(&mut self)
        requires
            old(self).wf(),
        ensures
            final(self).wf(),
            final(self).source == old(self).source,
            final(self).position == skip_trivia(old(self).source@, old(self).position as int),
    {
        let ghost s = self.source@;
        let n = self.source.len();
        proof {
            lemma_skip(s, self.position as int);
        }
        loop
            invariant
                self.source@ == s,
                self.source == old(self).source,
                n == s.len(),
                self.position <= n,
                skip_trivia(s, self.position as int) == skip_trivia(s, old(self).position as int),
            decreases n - self.position,
        {
            if self.position >= n {
                return;
            }
            let b = self.source[self.position];
            if b == 0x20 || b == 0x09 || b == 0x0A || b == 0x0C || b == 0x0D {
                self.position += 1;
            } else if b == 0x3B {
                let start = self.position;
                let mut e = start + 1;
                proof {
                    lemma_line_end(s, e as int);
                }
                while e < n && self.source[e] != 0x0A
                    invariant
                        self.source@ == s,
                        n == s.len(),
                        start < e <= n,
                        line_end(s, e as int) == line_end(s, start as int + 1),
                    decreases n - e,
                {
                    e += 1;
                }
                self.position = e;
            } else {
                return;
            }
        }
    }

    /// Read one form. `Ok(None)` means the input is exhausted.
    pub fn read(&mut self) -> (r: Result<Option<Value>, String>)
        requires
            old(self).wf(),
        ensures
            final(self).wf(),
            final(self).source_spec() == old(self).source_spec(),
            ({
                let (res, at) = read_form(old(self).source_spec(), old(self).position_spec());
                match res {
                    ReadResult::Eof => r matches Ok(None) && final(self).position_spec() == at,
                    ReadResult::Form(d) => r matches Ok(Some(v)) && v.view() == d
                        && final(self).position_spec() == at && at > old(self).position_spec(),
                    ReadResult::Fail(e) => r matches Err(m) && m@ == e,
                }
            }),
        decreases old(self).source_spec().len() - old(self).position_spec(),
    {
        let ghost s = self.source@;
        let ghost p = self.position as int;
        proof {
            lemma_skip(s, p);
        }
        self.skip_trivia();
        let n = self.source.len();
        let q = self.position;
        if q >= n {
            return Ok(None);
        }
        let b = self.source[q];
        if b == 0x28 || b == 0x5B {
            let closer: u8 = if b == 0x28 { 0x29 } else { 0x5D };
            self.position = q + 1;
            let mut items: Vec<Value> = Vec::new();
            proof {
                assert(data_of(items@) =~= Seq::<Datum>::empty());
                assert(joined_items(Seq::empty(), read_items(s, q as int + 1, closer)) =~~= read_items(s, q as int + 1, closer));
            }
            loop
                invariant
                    self.source@ == s,
                    s == old(self).source_spec(),
                    p == old(self).position_spec(),
                    q == skip_trivia(s, p),
                    s[q as int] == 0x28 || s[q as int] == 0x5B,
                    closer == (if s[q as int] == 0x28 { 0x29u8 } else { 0x5Du8 }),
                    n == s.len(),
                    q < n,
                    q as int >= p,
                    q + 1 <= self.position <= n,
                    read_items(s, q as int + 1, closer) == joined_items(data_of(items@), read_items(s, self.position as int, closer)),
                decreases n - self.position,
            {
                let ghost here = self.position as int;
                proof {
                    lemma_skip(s, here);
                }
                self.skip_trivia();
                let q2 = self.position;
                if q2 >= n {
                    return Err(to_string("unclosed list"));
                }
                let c = self.source[q2];
                if c == closer {
                    self.position = q2 + 1;
                    proof {
                        assert(data_of(items@) + Seq::<Datum>::empty() =~= data_of(items@));
                    }
                    return Ok(Some(Value::List(items)));
                }
                if c == 0x29 || c == 0x5D {
                    return Err(to_string("mismatched closing bracket"));
                }
                let ghost before = items@;
                match self.read() {
                    Err(e) => {
                        return Err(e);
                    },
                    Ok(None) => {
                        return Err(to_string("unclosed list"));
                    },
                    Ok(Some(v)) => {
                        items.push(v);
                        proof {
                            assert(items@.drop_last() =~= before);
                            assert(data_of(items@) == data_of(before).push(datum_of_last(items@)));
                            let (rest, r2) = read_items(s, self.position as int, closer);
                            match rest {
                                Ok(ds) => {
                                    assert(data_of(before) + (seq![datum_of_last(items@)] + ds) =~= data_of(items@) + ds);
                                },
                                Err(e) => {},
                            }
                        }
                    },
                }
            }
        } else if b == 0x29 || b == 0x5D {
            return Err(to_string("unexpected closing bracket"));
        } else if b == 0x27 {
            self.position = q + 1;
            match self.read() {
                Ok(Some(v)) => {
                    let mut pair: Vec<Value> = Vec::new();
                    pair.push(Value::symbol("quote"));
                    pair.push(v);
                    proof {
                        lemma_data_of(pair@);
                        assert(data_of(pair@) =~= seq![Datum::Symbol("quote"@), pair@[1].view()]);
                    }
                    return Ok(Some(Value::List(pair)));
                },
                Ok(None) => {
                    return Err(to_string("nothing to quote"));
                },
                Err(e) => {
                    return Err(e);
                },
            }
        } else if b == 0x22 {
            let mut text: Vec<char> = Vec::new();
            self.position = q + 1;
            loop
                invariant
                    self.source@ == s,
                    s == old(self).source_spec(),
                    p == old(self).position_spec(),
                    q == skip_trivia(s, p),
                    s[q as int] == 0x22,
                    n == s.len(),
                    q < n,
                    q as int >= p,
                    q + 1 <= self.position <= n,
                    read_string(s, q as int + 1, Seq::empty()) == read_string(s, self.position as int, text@),
                decreases n - self.position,
            {
                let at = self.position;
                if at >= n {
                    return Err(to_string("unterminated string"));
                }
                let c = self.source[at];
                if c == 0x22 {
                    self.position = at + 1;
                    return Ok(Some(Value::Str(string_of(text.as_slice()))));
                } else if c == 0x5C {
                    if at + 1 >= n {
                        return Err(to_string("unterminated escape"));
                    }
                    let e = self.source[at + 1];
                    let ch = if e == 0x6E { '\n' } else if e == 0x74 { '\t' } else { e as char };
                    text.push(ch);
                    self.position = at + 2;
                } else {
                    text.push(c as char);
                    self.position = at + 1;
                }
            }
        } else {
            let mut e = q;
            proof {
                lemma_atom_end(s, q as int);
            }
            while e < n && !is_delimiter_exec(self.source[e])
                invariant
                    self.source@ == s,
                    n == s.len(),
                    q <= e <= n,
                    atom_end(s, e as int) == atom_end(s, q as int),
                decreases n - e,
            {
                e += 1;
            }
            self.position = e;
            let token = vstd::slice::slice_subrange(self.source, q, e);
            match utf8(token) {
                Some(t) => {
                    proof {
                        assert(e > q) by {
                            assert(!is_delimiter(s[q as int]));
                        }
                    }
                    return Ok(Some(atom_value(t)));
                },
                None => {
                    return Err(to_string("invalid utf-8 in token"));
                },
            }
        }
    }

    /// Read every form in the input.
    pub fn read_all(&mut self) -> (r: Result<Vec<Value>, String>)
        requires
            old(self).wf(),
        ensures
            match read_all_forms(old(self).source_spec(), old(self).position_spec()) {
                Ok(ds) => r matches Ok(vs) && data_of(vs@) == ds,
                Err(e) => r matches Err(m) && m@ == e,
            },
    {
        let ghost s = self.source@;
        let ghost p0 = self.position as int;
        let mut forms: Vec<Value> = Vec::new();
        proof {
            assert(data_of(forms@) =~= Seq::<Datum>::empty());
            assert(joined_forms(Seq::empty(), read_all_forms(s, p0)) =~~= read_all_forms(s, p0));
        }
        loop
            invariant
                self.wf(),
                self.source@ == s,
                s == old(self).source_spec(),
                p0 == old(self).position_spec(),
                read_all_forms(s, p0) == joined_forms(data_of(forms@), read_all_forms(s, self.position as int)),
            decreases s.len() - self.position,
        {
            let ghost here = self.position as int;
            let ghost before = forms@;
            match self.read() {
                Err(e) => {
                    return Err(e);
                },
                Ok(None) => {
                    proof {
                        assert(data_of(forms@) + Seq::<Datum>::empty() =~= data_of(forms@));
                    }
                    return Ok(forms);
                },
                Ok(Some(v)) => {
                    forms.push(v);
                    proof {
                        assert(forms@.drop_last() =~= before);
                        assert(data_of(forms@) == data_of(before).push(datum_of_last(forms@)));
                        match read_all_forms(s, self.position as int) {
                            Ok(ds) => {
                                assert(data_of(before) + (seq![datum_of_last(forms@)] + ds) =~= data_of(forms@) + ds);
                            },
                            Err(e) => {},
                        }
                    }
                },
            }
        }
    }
}

/// The value of the last item.
pub open spec fn datum_of_last(s: Seq<Value>) -> Datum {
    s.last().view()
}

fn is_delimiter_exec(b: u8) -> (r: bool)
    ensures
        r == is_delimiter(b),
{
    b == 0x20 || b == 0x09 || b == 0x0A || b == 0x0C || b == 0x0D || b == 0x28 || b == 0x29 || b == 0x5B || b == 0x5D || b == 0x3B
}

/// What `parse_one` gives for source bytes `s`.
pub open spec fn parse_one_spec(s: Seq<u8>) -> Result<Datum, Seq<char>> {
    let (res, at) = read_form(s, 0);
    match res {
        ReadResult::Fail(e) => Err(e),
        ReadResult::Eof => Err("empty expression"@),
        ReadResult::Form(d) => {
            let q = skip_trivia(s, at);
            if q < s.len() {
                let rest = s.skip(q);
                let shown = if valid_utf8(rest) { decode_utf8(rest) } else { "?"@ };
                Err("unexpected text after expression: "@ + debug_text(shown))
            } else {
                Ok(d)
            }
        },
    }
}

/// Parse a single expression, rejecting trailing input.
pub fn parse_one(source: &str) -> (r: Result<Value, String>)
    ensures
        match parse_one_spec(vstd::utf8::encode_utf8(source@)) {
            Ok(d) => r matches Ok(v) && v.view() == d,
            Err(e) => r matches Err(m) && m@ == e,
        },
{
    let mut reader = Reader::new(source);
    let value = match reader.read() {
        Err(e) => {
            return Err(e);
        },
        Ok(None) => {
            return Err(to_string("empty expression"));
        },
        Ok(Some(v)) => v,
    };
    reader.skip_trivia();
    if reader.position < reader.source.len() {
        let rest = vstd::slice::slice_subrange(reader.source, reader.position, reader.source.len());
        proof {
            assert(rest@ =~= reader.source@.skip(reader.position as int));
        }
        let shown = match utf8(rest) {
            Some(t) => t,
            None => {
                proof {
                    reveal_strlit("?");
                }
                "?"
            },
        };
        let mut out: Vec<char> = Vec::new();
        push_str(&mut out, "unexpected text after expression: ");
        let quoted = debug_str(shown);
        push_str(&mut out, quoted.as_str());
        return Err(string_of(out.as_slice()));
    }
    Ok(value)
}

} // verus!
