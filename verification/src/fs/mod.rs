//! HALCYON's filesystem: a RAM store seeded from the tar initrd.
//!
//! Files live entirely in memory and vanish at power-off. There is no block
//! device write path at all, so booting on a real machine cannot touch what
//! is on that machine's disks.
//!
//! Files are kept in a vector ordered by path, no path twice; the abstract
//! view is the map from path to contents and initrd flag.

pub mod tar;

use vstd::prelude::*;

verus! {

use crate::text::{chars_of, push_char, string_of};
use crate::fs::tar::{walk, member_path};

/// Code-point order on paths, which is also the byte order of their UTF-8.
pub open spec fn lex_lt(a: Seq<char>, b: Seq<char>) -> bool
    decreases a.len(),
{
    if a.len() == 0 {
        b.len() > 0
    } else if b.len() == 0 {
        false
    } else if a[0] != b[0] {
        (a[0] as int) < (b[0] as int)
    } else {
        lex_lt(a.drop_first(), b.drop_first())
    }
}

pub proof fn lemma_lex_irreflexive(a: Seq<char>)
    ensures
        !lex_lt(a, a),
    decreases a.len(),
{
    if a.len() > 0 {
        lemma_lex_irreflexive(a.drop_first());
    }
}

pub proof fn lemma_lex_total(a: Seq<char>, b: Seq<char>)
    ensures
        a != b ==> lex_lt(a, b) || lex_lt(b, a),
    decreases a.len(),
{
    if a.len() > 0 && b.len() > 0 && a[0] == b[0] {
        lemma_lex_total(a.drop_first(), b.drop_first());
        if a.drop_first() == b.drop_first() {
            assert(a =~= seq![a[0]] + a.drop_first());
            assert(b =~= seq![b[0]] + b.drop_first());
        }
    }
    if a.len() == 0 && b.len() == 0 {
        assert(a =~= b);
    }
}

pub proof fn lemma_lex_asymmetric(a: Seq<char>, b: Seq<char>)
    ensures
        lex_lt(a, b) ==> !lex_lt(b, a),
    decreases a.len(),
{
    if a.len() > 0 && b.len() > 0 && a[0] == b[0] {
        lemma_lex_asymmetric(a.drop_first(), b.drop_first());
    }
}

pub proof fn lemma_lex_transitive(a: Seq<char>, b: Seq<char>, c: Seq<char>)
    ensures
        lex_lt(a, b) && lex_lt(b, c) ==> lex_lt(a, c),
    decreases a.len(),
{
    if a.len() > 0 && b.len() > 0 && c.len() > 0 {
        lemma_lex_transitive(a.drop_first(), b.drop_first(), c.drop_first());
    }
}

/// `a@` sorts before `b@`.
pub fn path_less(a: &str, b: &str) -> (r: bool)
    ensures
        r == lex_lt(a@, b@),
{
    let la = a.unicode_len();
    let lb = b.unicode_len();
    let mut i: usize = 0;
    proof {
        assert(a@.skip(0) =~= a@);
        assert(b@.skip(0) =~= b@);
    }
    while i < la && i < lb
        invariant
            la == a@.len(),
            lb == b@.len(),
            i <= la,
            i <= lb,
            lex_lt(a@, b@) == lex_lt(a@.skip(i as int), b@.skip(i as int)),
        decreases la - i,
    {
        let ca = a.get_char(i);
        let cb = b.get_char(i);
        if ca != cb {
            return (ca as u32) < (cb as u32);
        }
        proof {
            assert(a@.skip(i as int).drop_first() =~= a@.skip(i as int + 1));
            assert(b@.skip(i as int).drop_first() =~= b@.skip(i as int + 1));
        }
        i += 1;
    }
    i == la && i < lb
}

/// `a` and `b` hold the same characters.
pub fn same_text(a: &str, b: &str) -> (r: bool)
    ensures
        r == (a@ == b@),
{
    let r = !path_less(a, b) && !path_less(b, a);
    proof {
        lemma_lex_total(a@, b@);
        lemma_lex_irreflexive(a@);
    }
    r
}

// --- paths ---

/// `p` cut at every '/', as `str::split` does: "a//b" gives "a", "", "b".
pub open spec fn split_slash(p: Seq<char>) -> Seq<Seq<char>>
    decreases p.len(),
{
    if p.len() == 0 {
        seq![Seq::<char>::empty()]
    } else {
        let rest = split_slash(p.drop_last());
        if p.last() == '/' {
            rest.push(Seq::<char>::empty())
        } else {
            rest.update(rest.len() - 1, rest.last().push(p.last()))
        }
    }
}

/// A path component that names something: neither empty nor ".".
pub open spec fn named(part: Seq<char>) -> bool {
    part.len() > 0 && part != seq!['.']
}

/// The components of `parts` that name something, in order.
pub open spec fn kept(parts: Seq<Seq<char>>) -> Seq<Seq<char>>
    decreases parts.len(),
{
    if parts.len() == 0 {
        Seq::<Seq<char>>::empty()
    } else if named(parts.last()) {
        kept(parts.drop_last()).push(parts.last())
    } else {
        kept(parts.drop_last())
    }
}

/// "/" followed by the components joined with "/".
pub open spec fn joined(parts: Seq<Seq<char>>) -> Seq<char>
    decreases parts.len(),
{
    if parts.len() == 0 {
        seq!['/']
    } else if parts.len() == 1 {
        seq!['/'] + parts[0]
    } else {
        joined(parts.drop_last()) + seq!['/'] + parts.last()
    }
}

/// The canonical form of a path: `a//b` collapsed, `.` dropped, no
/// trailing slash, and a leading one.
pub open spec fn norm_path(p: Seq<char>) -> Seq<char> {
    joined(kept(split_slash(p)))
}

proof fn lemma_split_nonempty(p: Seq<char>)
    ensures
        split_slash(p).len() >= 1,
    decreases p.len(),
{
    if p.len() > 0 {
        lemma_split_nonempty(p.drop_last());
    }
}

proof fn lemma_joined_shape(parts: Seq<Seq<char>>)
    requires
        forall|i: int| 0 <= i < parts.len() ==> named(#[trigger] parts[i]),
    ensures
        joined(parts).len() >= 1,
        joined(parts)[0] == '/',
        parts.len() > 0 ==> joined(parts).last() != '/' || parts.last().last() == '/',
        (joined(parts).len() == 1) == (parts.len() == 0),
    decreases parts.len(),
{
    if parts.len() > 1 {
        lemma_joined_shape(parts.drop_last());
    }
}

proof fn lemma_kept_named(parts: Seq<Seq<char>>)
    ensures
        forall|i: int| 0 <= i < kept(parts).len() ==> named(#[trigger] kept(parts)[i]),
    decreases parts.len(),
{
    if parts.len() > 0 {
        let d = parts.drop_last();
        lemma_kept_named(d);
        assert forall|i: int| 0 <= i < kept(parts).len() implies named(#[trigger] kept(parts)[i]) by {
            if named(parts.last()) {
                if i < kept(d).len() {
                    assert(kept(parts)[i] == kept(d)[i]);
                }
            } else {
                assert(kept(parts)[i] == kept(d)[i]);
            }
        }
    }
}

/// Close the component `part`: append it to `result` when it names
/// something.
fn flush_part(result: &mut Vec<char>, part: &Vec<char>, Ghost(done): Ghost<Seq<Seq<char>>>)
    requires
        old(result)@ == joined(kept(done)),
    ensures
        final(result)@ == joined(kept(done.push(part@))),
{
    let ghost parts = done.push(part@);
    proof {
        assert(parts.drop_last() =~= done);
    }
    let is_dot = part.len() == 1 && part[0] == '.';
    if part.len() > 0 && !is_dot {
        proof {
            lemma_kept_named(done);
            lemma_joined_shape(kept(done));
            assert(named(part@)) by {
                if part@ == seq!['.'] {
                    assert(part@[0] == '.');
                }
            }
        }
        if result.len() != 1 {
            result.push('/');
        }
        let mut k: usize = 0;
        let ghost mid = result@;
        while k < part.len()
            invariant
                k <= part@.len(),
                result@ == mid + part@.take(k as int),
            decreases part@.len() - k,
        {
            result.push(part[k]);
            k += 1;
            proof {
                assert(result@ =~= mid + part@.take(k as int));
            }
        }
        proof {
            assert(part@.take(part@.len() as int) =~= part@);
            let kd = kept(done);
            assert(kept(parts) == kd.push(part@));
            if kd.len() == 0 {
                assert(mid =~= seq!['/']);
                assert(joined(kd.push(part@)) == seq!['/'] + kd.push(part@)[0]);
                assert(result@ =~= joined(kept(parts)));
            } else {
                assert(kd.push(part@).drop_last() =~= kd);
                assert(result@ =~= joined(kept(parts)));
            }
        }
    } else {
        proof {
            assert(!named(part@)) by {
                if part@.len() > 0 {
                    assert(part@ =~= seq!['.']);
                }
            }
            assert(kept(parts) == kept(done));
        }
    }
}

/// Collapse `a//b`, strip a trailing slash, and force a leading one.
pub fn normalise(path: &str) -> (r: String)
    ensures
        r@ == norm_path(path@),
{
    let chars = chars_of(path);
    let n = chars.len();
    let mut result: Vec<char> = Vec::new();
    result.push('/');
    let mut part: Vec<char> = Vec::new();
    let mut i: usize = 0;
    proof {
        assert(chars@.take(0) =~= Seq::<char>::empty());
        assert(result@ =~= joined(Seq::<Seq<char>>::empty()));
    }
    while i < n
        invariant
            n == chars@.len(),
            i <= n,
            ({
                let parts = split_slash(chars@.take(i as int));
                &&& part@ == parts.last()
                &&& result@ == joined(kept(parts.drop_last()))
            }),
        decreases n - i,
    {
        let ghost parts = split_slash(chars@.take(i as int));
        proof {
            lemma_split_nonempty(chars@.take(i as int));
            let next = chars@.take(i as int + 1);
            assert(next.drop_last() =~= chars@.take(i as int));
        }
        if chars[i] == '/' {
            flush_part(&mut result, &part, Ghost(parts.drop_last()));
            part = Vec::new();
            proof {
                let next = chars@.take(i as int + 1);
                assert(parts =~= parts.drop_last().push(parts.last()));
                assert(split_slash(next) == parts.push(Seq::<char>::empty()));
                assert(split_slash(next).drop_last() =~= parts);
                assert(part@ =~= Seq::<char>::empty());
            }
        } else {
            part.push(chars[i]);
            proof {
                let next = chars@.take(i as int + 1);
                assert(split_slash(next) == parts.update(parts.len() - 1, parts.last().push(chars@[i as int])));
                assert(split_slash(next).drop_last() =~= parts.drop_last());
            }
        }
        i += 1;
    }
    let ghost parts = split_slash(chars@.take(n as int));
    proof {
        lemma_split_nonempty(chars@.take(n as int));
        assert(parts =~= parts.drop_last().push(parts.last()));
        assert(chars@.take(n as int) =~= path@);
    }
    flush_part(&mut result, &part, Ghost(parts.drop_last()));
    string_of(result.as_slice())
}

// --- the store ---

/// A file: its bytes, and whether it came from the initrd.
pub struct File {
    pub data: Vec<u8>,
    /// Came from the initrd, so it cannot be overwritten in place.
    pub from_initrd: bool,
}

/// What a file holds, as plain values.
pub type FileView = (Seq<u8>, bool);

pub open spec fn file_view(f: &File) -> FileView {
    (f.data@, f.from_initrd)
}

/// The map from path to file that a list of entries describes.
pub open spec fn map_of(s: Seq<(Seq<char>, FileView)>) -> Map<Seq<char>, FileView> {
    Map::new(
        |k: Seq<char>| exists|i: int| 0 <= i < s.len() && (#[trigger] s[i]).0 == k,
        |k: Seq<char>| s[choose|i: int| 0 <= i < s.len() && (#[trigger] s[i]).0 == k].1,
    )
}

/// Entries in strictly increasing path order.
pub open spec fn sorted(s: Seq<(Seq<char>, FileView)>) -> bool {
    forall|i: int, j: int| #![trigger s[i], s[j]] 0 <= i < j < s.len() ==> lex_lt(s[i].0, s[j].0)
}

proof fn lemma_map_at(s: Seq<(Seq<char>, FileView)>, i: int)
    requires
        sorted(s),
        0 <= i < s.len(),
    ensures
        map_of(s).dom().contains(s[i].0),
        map_of(s)[s[i].0] == s[i].1,
{
    let k = s[i].0;
    assert(exists|j: int| 0 <= j < s.len() && (#[trigger] s[j]).0 == k);
    let j = choose|j: int| 0 <= j < s.len() && (#[trigger] s[j]).0 == k;
    lemma_lex_irreflexive(k);
    if j < i {
        assert(lex_lt(s[j].0, s[i].0));
    } else if j > i {
        assert(lex_lt(s[i].0, s[j].0));
    }
}

proof fn lemma_map_absent(s: Seq<(Seq<char>, FileView)>, k: Seq<char>)
    requires
        forall|i: int| 0 <= i < s.len() ==> (#[trigger] s[i]).0 != k,
    ensures
        !map_of(s).dom().contains(k),
{
}

/// HALCYON's file store.
pub struct FileSystem {
    files: Vec<(String, File)>,
}

impl FileSystem {
    /// The entries, in path order.
    pub closed spec fn entries(&self) -> Seq<(Seq<char>, FileView)> {
        self.files@.map_values(|e: (String, File)| (e.0@, file_view(&e.1)))
    }

    /// Path to file.
    pub closed spec fn view(&self) -> Map<Seq<char>, FileView> {
        map_of(self.entries())
    }

    pub closed spec fn wf(&self) -> bool {
        sorted(self.entries())
    }

    pub proof fn lemma_view(&self, i: int)
        requires
            self.wf(),
            0 <= i < self.entries().len(),
        ensures
            self.view().dom().contains(self.entries()[i].0),
            self.view()[self.entries()[i].0] == self.entries()[i].1,
    {
        lemma_map_at(self.entries(), i);
    }

    /// An empty store.
    pub fn new() -> (fs: FileSystem)
        ensures
            fs.wf(),
            fs.entries().len() == 0,
            fs.view() == Map::<Seq<char>, FileView>::empty(),
    {
        let fs = FileSystem { files: Vec::new() };
        proof {
            assert(fs.view() =~= Map::<Seq<char>, FileView>::empty());
        }
        fs
    }

    /// Where `key` is or would go: the first entry not before it, and
    /// whether that entry is `key` itself.
    fn find(&self, key: &str) -> (r: (usize, bool))
        requires
            self.wf(),
        ensures
            r.0 <= self.entries().len(),
            forall|i: int| 0 <= i < r.0 ==> lex_lt((#[trigger] self.entries()[i]).0, key@),
            forall|i: int| r.0 <= i < self.entries().len() ==> !lex_lt((#[trigger] self.entries()[i]).0, key@),
            r.1 <==> (r.0 < self.entries().len() && self.entries()[r.0 as int].0 == key@),
            r.1 <==> self.view().dom().contains(key@),
            !r.1 ==> forall|i: int| r.0 <= i < self.entries().len() ==> lex_lt(key@, (#[trigger] self.entries()[i]).0),
    {
        let ghost e = self.entries();
        let n = self.files.len();
        let mut p: usize = 0;
        while p < n && path_less(self.files[p].0.as_str(), key)
            invariant
                n == e.len(),
                e == self.entries(),
                p <= n,
                forall|i: int| 0 <= i < p ==> lex_lt((#[trigger] e[i]).0, key@),
            decreases n - p,
        {
            p += 1;
        }
        proof {
            assert forall|i: int| p <= i < n implies !lex_lt((#[trigger] e[i]).0, key@) by {
                if i > p {
                    assert(lex_lt(e[p as int].0, e[i].0));
                    if lex_lt(e[i].0, key@) {
                        lemma_lex_transitive(e[p as int].0, e[i].0, key@);
                    }
                }
            }
        }
        let found = p < n && !path_less(key, self.files[p].0.as_str());
        proof {
            if p < n {
                assert(e[p as int].0 == self.files@[p as int].0@);
                lemma_lex_total(key@, e[p as int].0);
            }
            if found {
                lemma_map_at(e, p as int);
            } else {
                assert forall|i: int| p <= i < n implies lex_lt(key@, (#[trigger] e[i]).0) by {
                    if i > p {
                        assert(lex_lt(e[p as int].0, e[i].0));
                        lemma_lex_transitive(key@, e[p as int].0, e[i].0);
                    }
                }
                assert forall|i: int| 0 <= i < n implies (#[trigger] e[i]).0 != key@ by {
                    if i < p {
                        lemma_lex_irreflexive(key@);
                    } else {
                        lemma_lex_irreflexive(key@);
                    }
                }
                lemma_map_absent(e, key@);
            }
        }
        (p, found)
    }
}

proof fn lemma_map_replace(s: Seq<(Seq<char>, FileView)>, p: int, v: FileView)
    requires
        sorted(s),
        0 <= p < s.len(),
    ensures
        sorted(s.update(p, (s[p].0, v))),
        map_of(s.update(p, (s[p].0, v))) == map_of(s).insert(s[p].0, v),
{
    let t = s.update(p, (s[p].0, v));
    assert forall|i: int, j: int| #![trigger t[i], t[j]] 0 <= i < j < t.len() implies lex_lt(t[i].0, t[j].0) by {
        assert(t[i].0 == s[i].0 && t[j].0 == s[j].0);
    }
    let m = map_of(s).insert(s[p].0, v);
    assert forall|k: Seq<char>| #[trigger] map_of(t).dom().contains(k) <==> m.dom().contains(k) by {
        if map_of(t).dom().contains(k) {
            let i = choose|i: int| 0 <= i < t.len() && (#[trigger] t[i]).0 == k;
            assert(s[i].0 == k);
        }
        if map_of(s).dom().contains(k) {
            let i = choose|i: int| 0 <= i < s.len() && (#[trigger] s[i]).0 == k;
            assert(t[i].0 == k);
        }
        if k == s[p].0 {
            assert(t[p].0 == k);
        }
    }
    assert forall|k: Seq<char>| map_of(t).dom().contains(k) implies #[trigger] map_of(t)[k] == m[k] by {
        let i = choose|i: int| 0 <= i < t.len() && (#[trigger] t[i]).0 == k;
        lemma_map_at(t, i);
        if i != p {
            lemma_map_at(s, i);
            assert(t[i] == s[i]);
            lemma_lex_irreflexive(k);
            if i < p {
                assert(lex_lt(s[i].0, s[p].0));
            } else {
                assert(lex_lt(s[p].0, s[i].0));
            }
        }
    }
    assert(map_of(t) =~= m);
}

proof fn lemma_map_insert(s: Seq<(Seq<char>, FileView)>, p: int, k: Seq<char>, v: FileView)
    requires
        sorted(s),
        0 <= p <= s.len(),
        forall|i: int| 0 <= i < p ==> lex_lt((#[trigger] s[i]).0, k),
        forall|i: int| p <= i < s.len() ==> lex_lt(k, (#[trigger] s[i]).0),
    ensures
        sorted(s.insert(p, (k, v))),
        map_of(s.insert(p, (k, v))) == map_of(s).insert(k, v),
{
    let t = s.insert(p, (k, v));
    assert forall|i: int, j: int| #![trigger t[i], t[j]] 0 <= i < j < t.len() implies lex_lt(t[i].0, t[j].0) by {
        if i < p && j == p {
        } else if i < p && j > p {
            assert(t[j] == s[j - 1]);
            lemma_lex_transitive(s[i].0, k, s[j - 1].0);
        } else if i == p {
            assert(t[j] == s[j - 1]);
        } else if i < p {
            assert(t[i] == s[i] && t[j] == s[j]);
        } else {
            assert(t[i] == s[i - 1] && t[j] == s[j - 1]);
        }
    }
    let m = map_of(s).insert(k, v);
    assert forall|q: Seq<char>| #[trigger] map_of(t).dom().contains(q) <==> m.dom().contains(q) by {
        if map_of(t).dom().contains(q) {
            let i = choose|i: int| 0 <= i < t.len() && (#[trigger] t[i]).0 == q;
            if i < p {
                assert(s[i].0 == q);
            } else if i > p {
                assert(s[i - 1].0 == q);
            }
        }
        if map_of(s).dom().contains(q) {
            let i = choose|i: int| 0 <= i < s.len() && (#[trigger] s[i]).0 == q;
            if i < p {
                assert(t[i].0 == q);
            } else {
                assert(t[i + 1].0 == q);
            }
        }
        if q == k {
            assert(t[p].0 == q);
        }
    }
    assert forall|q: Seq<char>| map_of(t).dom().contains(q) implies #[trigger] map_of(t)[q] == m[q] by {
        let i = choose|i: int| 0 <= i < t.len() && (#[trigger] t[i]).0 == q;
        lemma_map_at(t, i);
        if i < p {
            lemma_map_at(s, i);
            lemma_lex_irreflexive(k);
        } else if i > p {
            lemma_map_at(s, i - 1);
            lemma_lex_irreflexive(k);
        }
    }
    assert(map_of(t) =~= m);
}

proof fn lemma_map_remove(s: Seq<(Seq<char>, FileView)>, p: int)
    requires
        sorted(s),
        0 <= p < s.len(),
    ensures
        sorted(s.remove(p)),
        map_of(s.remove(p)) == map_of(s).remove(s[p].0),
{
    let t = s.remove(p);
    assert forall|i: int, j: int| #![trigger t[i], t[j]] 0 <= i < j < t.len() implies lex_lt(t[i].0, t[j].0) by {
        let si = if i < p { i } else { i + 1 };
        let sj = if j < p { j } else { j + 1 };
        assert(t[i] == s[si] && t[j] == s[sj]);
    }
    let m = map_of(s).remove(s[p].0);
    assert forall|q: Seq<char>| #[trigger] map_of(t).dom().contains(q) <==> m.dom().contains(q) by {
        if map_of(t).dom().contains(q) {
            let i = choose|i: int| 0 <= i < t.len() && (#[trigger] t[i]).0 == q;
            let si = if i < p { i } else { i + 1 };
            assert(t[i] == s[si]);
            lemma_lex_irreflexive(q);
            if si < p {
                assert(lex_lt(s[si].0, s[p].0));
            } else {
                assert(lex_lt(s[p].0, s[si].0));
            }
        }
        if m.dom().contains(q) {
            let i = choose|i: int| 0 <= i < s.len() && (#[trigger] s[i]).0 == q;
            if i < p {
                assert(t[i].0 == q);
            } else {
                assert(t[i - 1].0 == q);
            }
        }
    }
    assert forall|q: Seq<char>| map_of(t).dom().contains(q) implies #[trigger] map_of(t)[q] == m[q] by {
        let i = choose|i: int| 0 <= i < t.len() && (#[trigger] t[i]).0 == q;
        lemma_map_at(t, i);
        let si = if i < p { i } else { i + 1 };
        assert(t[i] == s[si]);
        lemma_map_at(s, si);
    }
    assert(map_of(t) =~= m);
}

/// The path "/".
pub open spec fn root_path() -> Seq<char> {
    seq!['/']
}

impl FileSystem {
    /// Store `file` under the exact path `key`, replacing what was there.
    fn put(&mut self, key: String, file: File)
        requires
            old(self).wf(),
        ensures
            final(self).wf(),
            final(self).view() == old(self).view().insert(key@, file_view(&file)),
            final(self).entries().len() <= old(self).entries().len() + 1,
    {
        let (p, found) = self.find(key.as_str());
        let ghost e = self.entries();
        let ghost fv = file_view(&file);
        let ghost k = key@;
        if found {
            self.files.set(p, (key, file));
            proof {
                assert(self.entries() =~= e.update(p as int, (e[p as int].0, fv)));
                lemma_map_replace(e, p as int, fv);
            }
        } else {
            self.files.insert(p, (key, file));
            proof {
                assert(self.entries() =~= e.insert(p as int, (k, fv)));
                lemma_map_insert(e, p as int, k, fv);
            }
        }
    }

    /// The file at `path`, if there is one.
    pub fn read(&self, path: &str) -> (r: Option<&File>)
        requires
            self.wf(),
        ensures
            r is Some <==> self.view().dom().contains(norm_path(path@)),
            r matches Some(f) ==> file_view(f) == self.view()[norm_path(path@)],
    {
        let key = normalise(path);
        let (p, found) = self.find(key.as_str());
        if found {
            proof {
                self.lemma_view(p as int);
            }
            Some(&self.files[p].1)
        } else {
            None
        }
    }

    /// Create or replace the file at `path`. Refused for the root.
    pub fn write(&mut self, path: &str, data: Vec<u8>) -> (r: Result<(), &'static str>)
        requires
            old(self).wf(),
        ensures
            final(self).wf(),
            r is Err <==> norm_path(path@) == root_path(),
            r is Ok ==> final(self).view() == old(self).view().insert(norm_path(path@), (data@, false)),
            r is Err ==> final(self).view() == old(self).view() && final(self).entries() == old(self).entries(),
            r matches Err(e) ==> e@ == "cannot write to the root"@,
    {
        let key = normalise(path);
        if key.unicode_len() == 1 && key.as_str().get_char(0) == '/' {
            proof {
                assert(key@ =~= root_path());
            }
            return Err("cannot write to the root");
        }
        proof {
            if key@ == root_path() {
                assert(key@[0] == '/');
            }
        }
        self.put(key, File { data, from_initrd: false });
        Ok(())
    }

    /// Add `data` to the end of the file at `path`, creating it if need be.
    pub fn append(&mut self, path: &str, data: &[u8]) -> (r: Result<(), &'static str>)
        requires
            old(self).wf(),
        ensures
            final(self).wf(),
            ({
                let k = norm_path(path@);
                if old(self).view().dom().contains(k) {
                    &&& r is Ok
                    &&& final(self).view() == old(self).view().insert(k, (old(self).view()[k].0 + data@, false))
                } else if k == root_path() {
                    &&& r is Err
                    &&& final(self).view() == old(self).view()
                } else {
                    &&& r is Ok
                    &&& final(self).view() == old(self).view().insert(k, (data@, false))
                }
            }),
    {
        let key = normalise(path);
        let (p, found) = self.find(key.as_str());
        let ghost e = self.entries();
        if found {
            let (name, mut file) = self.files.remove(p);
            let ghost old_data = file.data@;
            let mut k: usize = 0;
            while k < data.len()
                invariant
                    k <= data@.len(),
                    file.data@ == old_data + data@.take(k as int),
                decreases data@.len() - k,
            {
                file.data.push(data[k]);
                k += 1;
                proof {
                    assert(file.data@ =~= old_data + data@.take(k as int));
                }
            }
            proof {
                assert(data@.take(data@.len() as int) =~= data@);
            }
            file.from_initrd = false;
            let ghost fv = file_view(&file);
            self.files.insert(p, (name, file));
            proof {
                assert(self.entries() =~= e.update(p as int, (e[p as int].0, fv)));
                lemma_map_at(e, p as int);
                lemma_map_replace(e, p as int, fv);
            }
            Ok(())
        } else {
            let mut bytes: Vec<u8> = Vec::new();
            let mut k: usize = 0;
            while k < data.len()
                invariant
                    k <= data@.len(),
                    bytes@ == data@.take(k as int),
                decreases data@.len() - k,
            {
                bytes.push(data[k]);
                k += 1;
                proof {
                    assert(bytes@ =~= data@.take(k as int));
                }
            }
            proof {
                assert(data@.take(data@.len() as int) =~= data@);
            }
            if key.unicode_len() == 1 && key.as_str().get_char(0) == '/' {
                proof {
                    assert(key@ =~= root_path());
                }
                return Err("cannot write to the root");
            }
            proof {
                if key@ == root_path() {
                    assert(key@[0] == '/');
                }
            }
            self.put(key, File { data: bytes, from_initrd: false });
            Ok(())
        }
    }

    /// Delete the file at `path`.
    pub fn remove(&mut self, path: &str) -> (r: Result<(), &'static str>)
        requires
            old(self).wf(),
        ensures
            final(self).wf(),
            r is Ok <==> old(self).view().dom().contains(norm_path(path@)),
            final(self).view() == old(self).view().remove(norm_path(path@)),
            r matches Err(e) ==> e@ == "no such file"@,
    {
        let key = normalise(path);
        let (p, found) = self.find(key.as_str());
        let ghost e = self.entries();
        if found {
            self.files.remove(p);
            proof {
                assert(self.entries() =~= e.remove(p as int));
                lemma_map_remove(e, p as int);
            }
            Ok(())
        } else {
            proof {
                assert(self.view() =~= self.view().remove(key@));
            }
            Err("no such file")
        }
    }

    /// Whether a file exists at `path`.
    pub fn file_exists(&self, path: &str) -> (r: bool)
        requires
            self.wf(),
        ensures
            r == self.view().dom().contains(norm_path(path@)),
    {
        let key = normalise(path);
        let (_, found) = self.find(key.as_str());
        found
    }

    /// Number of files.
    pub fn count(&self) -> (r: usize)
        ensures
            r == self.entries().len(),
    {
        self.files.len()
    }
}

/// A path that does not end in '/' or "." has a last component, so it is
/// not the root.
pub proof fn lemma_named_tail(p: Seq<char>)
    requires
        p.len() > 0,
        p.last() != '/',
        p.last() != '.',
    ensures
        norm_path(p) != root_path(),
{
    let parts = split_slash(p);
    lemma_split_nonempty(p.drop_last());
    let rest = split_slash(p.drop_last());
    let lastp = rest.last().push(p.last());
    assert(parts.last() == lastp);
    assert(named(lastp)) by {
        if lastp == seq!['.'] {
            assert(lastp.last() == '.');
        }
    }
    assert(kept(parts).len() > 0);
    lemma_kept_named(parts);
    lemma_joined_shape(kept(parts));
}

/// A listing row: path, size, initrd flag.
pub open spec fn row(e: (Seq<char>, FileView)) -> (Seq<char>, nat, bool) {
    (e.0, e.1.0.len(), e.1.1)
}

pub open spec fn row_view(r: (String, usize, bool)) -> (Seq<char>, nat, bool) {
    (r.0@, r.1 as nat, r.2)
}

/// `p` is a prefix of `k`.
pub open spec fn has_prefix(k: Seq<char>, p: Seq<char>) -> bool {
    p.len() <= k.len() && k.take(p.len() as int) == p
}

/// The rows of the entries whose path starts with `p`, in order.
pub open spec fn listing(e: Seq<(Seq<char>, FileView)>, p: Seq<char>) -> Seq<(Seq<char>, nat, bool)>
    decreases e.len(),
{
    if e.len() == 0 {
        Seq::empty()
    } else if has_prefix(e.last().0, p) {
        listing(e.drop_last(), p).push(row(e.last()))
    } else {
        listing(e.drop_last(), p)
    }
}

/// The prefix that `list_dir` matches: the directory's path with a
/// trailing slash.
pub open spec fn dir_prefix(d: Seq<char>) -> Seq<char> {
    let n = norm_path(d);
    if n.last() == '/' { n } else { n.push('/') }
}

/// Bytes held by all the entries.
pub open spec fn bytes_of(e: Seq<(Seq<char>, FileView)>) -> int
    decreases e.len(),
{
    if e.len() == 0 { 0 } else { bytes_of(e.drop_last()) + e.last().1.0.len() }
}

proof fn lemma_bytes_prefix(e: Seq<(Seq<char>, FileView)>, i: int)
    requires
        0 <= i < e.len(),
    ensures
        bytes_of(e.take(i + 1)) == bytes_of(e.take(i)) + e[i].1.0.len(),
        bytes_of(e.take(i + 1)) <= bytes_of(e),
    decreases e.len(),
{
    assert(e.take(i + 1).drop_last() =~= e.take(i));
    if i + 1 < e.len() {
        lemma_bytes_prefix(e.drop_last(), i);
        assert(e.drop_last().take(i + 1) =~= e.take(i + 1));
        assert(e.drop_last().take(i) =~= e.take(i));
    } else {
        assert(e.take(i + 1) =~= e);
    }
}

fn starts_with(k: &str, p: &Vec<char>) -> (r: bool)
    ensures
        r == has_prefix(k@, p@),
{
    let n = k.unicode_len();
    if p.len() > n {
        return false;
    }
    let mut i: usize = 0;
    while i < p.len()
        invariant
            n == k@.len(),
            p@.len() <= n,
            i <= p@.len(),
            k@.take(i as int) == p@.take(i as int),
        decreases p@.len() - i,
    {
        if k.get_char(i) != p[i] {
            proof {
                assert(k@.take(p@.len() as int)[i as int] == k@[i as int]);
            }
            return false;
        }
        i += 1;
        proof {
            assert(k@.take(i as int) =~= p@.take(i as int));
        }
    }
    proof {
        assert(p@.take(p@.len() as int) =~= p@);
    }
    true
}

/// The text of the notes file a fresh boot starts with.
pub open spec fn notes_text() -> Seq<char> {
    "Scratch file. The editor saves here.\n\nNothing in HALCYON is written to disk -- this\nlives in RAM and is gone at power-off.\n"@
}

/// Characters as bytes, one each (for ASCII text).
pub open spec fn ascii_bytes(s: Seq<char>) -> Seq<u8> {
    s.map_values(|c: char| c as u8)
}

/// The file map after loading the archive members `w` of `a` into `v`.
pub open spec fn mounted(v: Map<Seq<char>, FileView>, w: Seq<(Seq<char>, int, int)>, a: Seq<u8>) -> Map<Seq<char>, FileView>
    decreases w.len(),
{
    if w.len() == 0 {
        v
    } else {
        let m = mounted(v, w.drop_last(), a);
        match member_path(w.last().0) {
            Some(p) => m.insert(p, (a.subrange(w.last().1, w.last().2), true)),
            None => m,
        }
    }
}

/// How many of the members `w` name a file.
pub open spec fn mounted_count(w: Seq<(Seq<char>, int, int)>) -> nat
    decreases w.len(),
{
    if w.len() == 0 {
        0
    } else {
        mounted_count(w.drop_last()) + if member_path(w.last().0) is Some { 1nat } else { 0nat }
    }
}

impl FileSystem {
    /// Every file as path, size and initrd flag, sorted by path.
    pub fn list(&self) -> (r: Vec<(String, usize, bool)>)
        requires
            self.wf(),
        ensures
            r@.map_values(|x: (String, usize, bool)| row_view(x)) == self.entries().map_values(|e: (Seq<char>, FileView)| row(e)),
            forall|i: int, j: int| 0 <= i < j < r@.len() ==> lex_lt(#[trigger] r@[i].0@, #[trigger] r@[j].0@),
    {
        let ghost e = self.entries();
        let mut out: Vec<(String, usize, bool)> = Vec::new();
        let n = self.files.len();
        let mut i: usize = 0;
        while i < n
            invariant
                n == e.len(),
                e == self.entries(),
                i <= n,
                out@.len() == i,
                forall|j: int| 0 <= j < i ==> row_view(#[trigger] out@[j]) == row(e[j]),
            decreases n - i,
        {
            let entry = &self.files[i];
            out.push((entry.0.clone(), entry.1.data.len(), entry.1.from_initrd));
            i += 1;
        }
        proof {
            assert(out@.map_values(|x: (String, usize, bool)| row_view(x)) =~= e.map_values(|e: (Seq<char>, FileView)| row(e)));
            assert forall|i: int, j: int| 0 <= i < j < out@.len() implies lex_lt(#[trigger] out@[i].0@, #[trigger] out@[j].0@) by {
                assert(row_view(out@[i]) == row(e[i]));
                assert(row_view(out@[j]) == row(e[j]));
                assert(lex_lt(e[i].0, e[j].0));
            }
        }
        out
    }

    /// The files directly or indirectly inside `directory`, in path order.
    pub fn list_dir(&self, directory: &str) -> (r: Vec<(String, usize, bool)>)
        requires
            self.wf(),
        ensures
            r@.map_values(|x: (String, usize, bool)| row_view(x)) == listing(self.entries(), dir_prefix(directory@)),
    {
        let norm = normalise(directory);
        let mut prefix = chars_of(norm.as_str());
        proof {
            lemma_kept_named(split_slash(directory@));
            lemma_joined_shape(kept(split_slash(directory@)));
        }
        let last = prefix.len() - 1;
        if prefix[last] != '/' {
            prefix.push('/');
        }
        let ghost e = self.entries();
        let ghost p = dir_prefix(directory@);
        proof {
            assert(prefix@ =~= p);
        }
        let mut out: Vec<(String, usize, bool)> = Vec::new();
        let n = self.files.len();
        let mut i: usize = 0;
        proof {
            assert(e.take(0) =~= Seq::<(Seq<char>, FileView)>::empty());
            assert(out@.map_values(|x: (String, usize, bool)| row_view(x)) =~= listing(e.take(0), p));
        }
        while i < n
            invariant
                n == e.len(),
                e == self.entries(),
                prefix@ == p,
                i <= n,
                out@.map_values(|x: (String, usize, bool)| row_view(x)) == listing(e.take(i as int), p),
            decreases n - i,
        {
            let entry = &self.files[i];
            let ghost before = out@;
            proof {
                assert(e.take(i as int + 1).drop_last() =~= e.take(i as int));
                assert(e[i as int].0 == entry.0@);
            }
            if starts_with(entry.0.as_str(), &prefix) {
                out.push((entry.0.clone(), entry.1.data.len(), entry.1.from_initrd));
                proof {
                    assert(out@.map_values(|x: (String, usize, bool)| row_view(x)) =~=
                        before.map_values(|x: (String, usize, bool)| row_view(x)).push(row(e[i as int])));
                }
            }
            i += 1;
        }
        proof {
            assert(e.take(n as int) =~= e);
        }
        out
    }

    /// Bytes held by all files together.
    pub fn total_bytes(&self) -> (r: usize)
        requires
            bytes_of(self.entries()) <= usize::MAX,
        ensures
            r == bytes_of(self.entries()),
    {
        let ghost e = self.entries();
        let n = self.files.len();
        let mut total: usize = 0;
        let mut i: usize = 0;
        proof {
            assert(e.take(0) =~= Seq::<(Seq<char>, FileView)>::empty());
        }
        while i < n
            invariant
                n == e.len(),
                e == self.entries(),
                i <= n,
                bytes_of(e) <= usize::MAX,
                total == bytes_of(e.take(i as int)),
            decreases n - i,
        {
            proof {
                lemma_bytes_prefix(e, i as int);
            }
            total = total + self.files[i].1.data.len();
            i += 1;
        }
        proof {
            assert(e.take(n as int) =~= e);
        }
        total
    }
}

/// Make sure the notes file HALCYON expects exists, so a fresh boot is not
/// an empty machine.
pub fn seed_defaults(fs: &mut FileSystem)
    requires
        old(fs).wf(),
    ensures
        final(fs).wf(),
        ({
            let k = norm_path("/home/notes.txt"@);
            final(fs).view() == if old(fs).view().dom().contains(k) {
                old(fs).view()
            } else {
                old(fs).view().insert(k, (ascii_bytes(notes_text()), false))
            }
        }),
{
    let path = "/home/notes.txt";
    if !fs.file_exists(path) {
        let text = "Scratch file. The editor saves here.\n\nNothing in HALCYON is written to disk -- this\nlives in RAM and is gone at power-off.\n";
        let chars = chars_of(text);
        let mut bytes: Vec<u8> = Vec::new();
        let mut i: usize = 0;
        while i < chars.len()
            invariant
                i <= chars@.len(),
                bytes@ == ascii_bytes(chars@.take(i as int)),
            decreases chars@.len() - i,
        {
            bytes.push(chars[i] as u8);
            i += 1;
            proof {
                assert(bytes@ =~= ascii_bytes(chars@.take(i as int)));
            }
        }
        proof {
            assert(chars@.take(chars@.len() as int) =~= chars@);
            reveal_strlit("/home/notes.txt");
            reveal_strlit("Scratch file. The editor saves here.\n\nNothing in HALCYON is written to disk -- this\nlives in RAM and is gone at power-off.\n");
            lemma_named_tail(path@);
        }
        let _ = fs.write(path, bytes);
    }
}

/// Load every regular file of a tar archive into the store, marked as
/// coming from the initrd. Returns how many were loaded.
pub fn mount_initrd(fs: &mut FileSystem, archive: &[u8]) -> (loaded: usize)
    requires
        old(fs).wf(),
    ensures
        final(fs).wf(),
        final(fs).view() == mounted(old(fs).view(), walk(archive@, 0), archive@),
        loaded == mounted_count(walk(archive@, 0)),
{
    let members = crate::fs::tar::entries(archive);
    let ghost w = walk(archive@, 0);
    let ghost v0 = fs.view();
    let n = members.len();
    let mut loaded: usize = 0;
    let mut i: usize = 0;
    proof {
        assert(w.take(0) =~= Seq::<(Seq<char>, int, int)>::empty());
    }
    while i < n
        invariant
            n == w.len(),
            members@.len() == n,
            forall|k: int| 0 <= k < n ==> {
                let m = #[trigger] w[k];
                &&& members@[k].name@ == m.0
                &&& members@[k].data@ == archive@.subrange(m.1, m.2)
            },
            i <= n,
            fs.wf(),
            fs.view() == mounted(v0, w.take(i as int), archive@),
            loaded == mounted_count(w.take(i as int)),
            loaded <= i,
        decreases n - i,
    {
        proof {
            assert(w.take(i as int + 1).drop_last() =~= w.take(i as int));
            assert(w.take(i as int + 1).last() == w[i as int]);
        }
        let member = &members[i];
        match crate::fs::tar::normalise(member.name) {
            Some(path) => {
                let data = vstd::slice::slice_to_vec(member.data);
                fs.put(path, File { data, from_initrd: true });
                loaded += 1;
            },
            None => {},
        }
        i += 1;
    }
    proof {
        assert(w.take(n as int) =~= w);
    }
    loaded
}

/// No '/' in `x`.
pub open spec fn slash_free(x: Seq<char>) -> bool {
    forall|j: int| 0 <= j < x.len() ==> x[j] != '/'
}

proof fn lemma_split_slash_free(p: Seq<char>)
    ensures
        forall|i: int| 0 <= i < split_slash(p).len() ==> slash_free(#[trigger] split_slash(p)[i]),
    decreases p.len(),
{
    if p.len() > 0 {
        lemma_split_slash_free(p.drop_last());
        lemma_split_nonempty(p.drop_last());
        let rest = split_slash(p.drop_last());
        assert forall|i: int| 0 <= i < split_slash(p).len() implies slash_free(#[trigger] split_slash(p)[i]) by {
            if i < rest.len() - 1 {
                assert(split_slash(p)[i] == rest[i]);
            } else if i == rest.len() - 1 {
                if p.last() != '/' {
                    assert(split_slash(p)[i] == rest.last().push(p.last()));
                    assert(slash_free(rest[i]));
                } else {
                    assert(split_slash(p)[i] == rest[i]);
                }
            }
        }
    }
}

proof fn lemma_kept_slash_free(parts: Seq<Seq<char>>)
    requires
        forall|i: int| 0 <= i < parts.len() ==> slash_free(#[trigger] parts[i]),
    ensures
        forall|i: int| 0 <= i < kept(parts).len() ==> slash_free(#[trigger] kept(parts)[i]),
    decreases parts.len(),
{
    if parts.len() > 0 {
        let d = parts.drop_last();
        assert forall|i: int| 0 <= i < d.len() implies slash_free(#[trigger] d[i]) by {
            assert(d[i] == parts[i]);
        }
        lemma_kept_slash_free(d);
        assert forall|i: int| 0 <= i < kept(parts).len() implies slash_free(#[trigger] kept(parts)[i]) by {
            if named(parts.last()) && i == kept(d).len() {
                assert(kept(parts)[i] == parts.last());
            } else {
                assert(kept(parts)[i] == kept(d)[i]);
            }
        }
    }
}

/// Cutting `a`, a slash and a slash-free `b` gives the pieces of `a` and
/// then `b`.
proof fn lemma_split_append(a: Seq<char>, b: Seq<char>)
    requires
        slash_free(b),
    ensures
        split_slash(a + seq!['/'] + b) == split_slash(a).push(b),
    decreases b.len(),
{
    let s = a + seq!['/'] + b;
    if b.len() == 0 {
        assert(s.drop_last() =~= a);
        assert(s.last() == '/');
        assert(b =~= Seq::<char>::empty());
    } else {
        assert(b[b.len() - 1] != '/');
        let b0 = b.drop_last();
        assert(slash_free(b0));
        lemma_split_append(a, b0);
        assert(s.drop_last() =~= a + seq!['/'] + b0);
        assert(s.last() == b.last());
        assert(b0.push(b.last()) =~= b);
        let r = split_slash(a).push(b0);
        assert(r.update(r.len() - 1, r.last().push(b.last())) =~= split_slash(a).push(b));
    }
}

proof fn lemma_kept_of_joined(k: Seq<Seq<char>>)
    requires
        forall|i: int| 0 <= i < k.len() ==> named(#[trigger] k[i]) && slash_free(k[i]),
    ensures
        kept(split_slash(joined(k))) == k,
    decreases k.len(),
{
    let e = Seq::<char>::empty();
    let none = Seq::<Seq<char>>::empty();
    assert(split_slash(e) == seq![e]);
    assert(!named(e));
    assert(seq![e].drop_last() =~= none);
    assert(seq![e].last() == e);
    assert(kept(seq![e]) == kept(none));
    assert(kept(seq![e]) == none);
    if k.len() == 0 {
        let j = seq!['/'];
        assert(j.drop_last() =~= e);
        assert(j.last() == '/');
        assert(split_slash(j) == seq![e].push(e));
        assert(seq![e].push(e) =~= seq![e, e]);
        assert(seq![e, e].drop_last() =~= seq![e]);
        assert(seq![e, e].last() == e);
        assert(kept(seq![e, e]) == kept(seq![e]));
        assert(kept(seq![e, e]) =~= k);
    } else if k.len() == 1 {
        assert(joined(k) =~= e + seq!['/'] + k[0]);
        lemma_split_append(e, k[0]);
        assert(split_slash(e).push(k[0]) =~= seq![e, k[0]]);
        assert(seq![e, k[0]].drop_last() =~= seq![e]);
        assert(seq![e, k[0]].last() == k[0]);
        assert(named(k[0]));
        assert(kept(seq![e, k[0]]) == kept(seq![e]).push(k[0]));
        assert(kept(seq![e, k[0]]) =~= k);
    } else {
        let d = k.drop_last();
        lemma_kept_of_joined(d);
        lemma_split_append(joined(d), k.last());
        let parts = split_slash(joined(d)).push(k.last());
        assert(parts.drop_last() =~= split_slash(joined(d)));
        assert(d.push(k.last()) =~= k);
    }
}

/// Normalising a normalised path changes nothing.
pub proof fn law_normalise_idempotent(p: Seq<char>)
    ensures
        norm_path(norm_path(p)) == norm_path(p),
{
    let k = kept(split_slash(p));
    lemma_split_slash_free(p);
    lemma_kept_slash_free(split_slash(p));
    lemma_kept_named(split_slash(p));
    lemma_kept_of_joined(k);
}

/// After a successful write, reading the same path gives the data back,
/// and every other path is as it was.
pub proof fn law_read_after_write(before: Map<Seq<char>, FileView>, after: Map<Seq<char>, FileView>, path: Seq<char>, data: Seq<u8>, other: Seq<char>)
    requires
        after == before.insert(norm_path(path), (data, false)),
        norm_path(other) != norm_path(path),
    ensures
        after.dom().contains(norm_path(path)),
        after[norm_path(path)] == (data, false),
        after.dom().contains(norm_path(other)) == before.dom().contains(norm_path(other)),
        after.dom().contains(norm_path(other)) ==> after[norm_path(other)] == before[norm_path(other)],
{
}

/// After a remove, the path no longer exists, and other paths are as they were.
pub proof fn law_remove_then_absent(before: Map<Seq<char>, FileView>, after: Map<Seq<char>, FileView>, path: Seq<char>, other: Seq<char>)
    requires
        after == before.remove(norm_path(path)),
        norm_path(other) != norm_path(path),
    ensures
        !after.dom().contains(norm_path(path)),
        after.dom().contains(norm_path(other)) == before.dom().contains(norm_path(other)),
{
}

/// Listing a directory shows exactly the files under it: every row listed
/// is a file whose path starts with the directory's prefix, and every such
/// file is listed, in store order, with its size.
pub proof fn law_listing_exact(e: Seq<(Seq<char>, FileView)>, p: Seq<char>)
    ensures
        forall|j: int| 0 <= j < listing(e, p).len() ==> has_prefix(#[trigger] listing(e, p)[j].0, p)
            && exists|i: int| 0 <= i < e.len() && row(e[i]) == listing(e, p)[j],
        forall|i: int| 0 <= i < e.len() && has_prefix(#[trigger] e[i].0, p) ==> listing(e, p).contains(row(e[i])),
        listing(e, p).len() <= e.len(),
    decreases e.len(),
{
    if e.len() > 0 {
        let d = e.drop_last();
        law_listing_exact(d, p);
        let l = listing(e, p);
        let ld = listing(d, p);
        assert forall|j: int| 0 <= j < l.len() implies has_prefix(#[trigger] l[j].0, p)
            && exists|i: int| 0 <= i < e.len() && row(e[i]) == l[j] by {
            if j < ld.len() {
                assert(l[j] == ld[j]);
                assert(has_prefix(ld[j].0, p));
                let i = choose|i: int| 0 <= i < d.len() && row(d[i]) == ld[j];
                assert(e[i] == d[i]);
            } else {
                assert(row(e[e.len() - 1]) == l[j]);
            }
        }
        assert forall|i: int| 0 <= i < e.len() && has_prefix(#[trigger] e[i].0, p) implies l.contains(row(e[i])) by {
            if i < d.len() {
                assert(e[i] == d[i]);
                assert(has_prefix(d[i].0, p));
                assert(ld.contains(row(d[i])));
                let j = choose|j: int| 0 <= j < ld.len() && ld[j] == row(d[i]);
                assert(l[j] == ld[j]);
            } else {
                assert(l[l.len() - 1] == row(e[i]));
            }
        }
    }
}

/// Listing the whole store (the empty prefix) shows every file.
pub proof fn law_listing_everything(e: Seq<(Seq<char>, FileView)>)
    ensures
        listing(e, Seq::empty()) == e.map_values(|x: (Seq<char>, FileView)| row(x)),
    decreases e.len(),
{
    if e.len() > 0 {
        law_listing_everything(e.drop_last());
        assert(has_prefix(e.last().0, Seq::<char>::empty())) by {
            assert(e.last().0.take(0) =~= Seq::<char>::empty());
        }
        assert(e.map_values(|x: (Seq<char>, FileView)| row(x)) =~=
            e.drop_last().map_values(|x: (Seq<char>, FileView)| row(x)).push(row(e.last())));
    } else {
        assert(e.map_values(|x: (Seq<char>, FileView)| row(x)) =~= Seq::<(Seq<char>, nat, bool)>::empty());
    }
}

} // verus!
