//! Kernel heap: an address-sorted free list with coalescing.
//!
//! Every allocation is rounded up to a 16-byte multiple and aligned to at
//! least 16 bytes, so any padding left over when honouring a larger
//! alignment is itself a multiple of 16: either nothing, or a block big
//! enough to go back on the free list. Nothing leaks.
//!
//! The free list is a vector of `(address, size)` blocks kept in address
//! order with neighbours merged. Mapping fresh pages is the caller's job:
//! `growth_for` says how much to map and `extend` hands the pages over.

use vstd::prelude::*;
use vstd::arithmetic::power2::{pow2, lemma_pow2_pos, lemma_pow2_adds, lemma2_to64};
use vstd::arithmetic::div_mod::lemma_mod_multiples_basic;

verus! {

use crate::mm::frame::{align_up, align_up_spec, is_power_of_two};

/// Smallest block the heap hands out or keeps.
pub const MIN_BLOCK: u64 = 16;
/// Virtual address of the first heap byte.
pub const HEAP_BASE: u64 = 0xFFFF_A000_0000_0000;
/// What the heap maps when it first starts.
pub const HEAP_INITIAL: u64 = 0x80_0000;
/// The most the heap ever maps.
pub const HEAP_MAX: u64 = 0x2000_0000;

/// Address `a` lies in block `b`.
pub open spec fn in_block(b: (u64, u64), a: int) -> bool {
    b.0 <= a < b.0 + b.1
}

/// Some block of `s` holds address `a`.
pub open spec fn covers(s: Seq<(u64, u64)>, a: int) -> bool {
    exists|i: int| 0 <= i < s.len() && #[trigger] in_block(s[i], a)
}

/// A well-formed free list: blocks of whole 16-byte units at 16-byte
/// addresses, in address order, neither overlapping nor touching.
pub open spec fn list_wf(s: Seq<(u64, u64)>) -> bool {
    &&& forall|i: int| 0 <= i < s.len() ==> {
        &&& (#[trigger] s[i]).1 >= 16
        &&& s[i].1 % 16 == 0
        &&& s[i].0 % 16 == 0
        &&& s[i].0 + s[i].1 <= u64::MAX
    }
    &&& forall|i: int, j: int| #![trigger s[i], s[j]] 0 <= i < j < s.len() ==> s[i].0 + s[i].1 < s[j].0
}

/// Bytes held by the blocks of `s`.
pub open spec fn free_total(s: Seq<(u64, u64)>) -> int
    decreases s.len(),
{
    if s.len() == 0 {
        0
    } else {
        free_total(s.drop_last()) + s.last().1
    }
}

/// Size of the largest block of `s` (zero for none).
pub open spec fn largest(s: Seq<(u64, u64)>) -> int
    decreases s.len(),
{
    if s.len() == 0 {
        0
    } else {
        let rest = largest(s.drop_last());
        if s.last().1 > rest { s.last().1 as int } else { rest }
    }
}

proof fn lemma_total_concat(a: Seq<(u64, u64)>, b: Seq<(u64, u64)>)
    ensures
        free_total(a + b) == free_total(a) + free_total(b),
    decreases b.len(),
{
    if b.len() == 0 {
        assert(a + b =~= a);
    } else {
        lemma_total_concat(a, b.drop_last());
        assert((a + b).drop_last() =~= a + b.drop_last());
    }
}

proof fn lemma_total_single(x: (u64, u64))
    ensures
        free_total(seq![x]) == x.1,
{
    let e = Seq::<(u64, u64)>::empty();
    assert(seq![x].drop_last() =~= e);
    assert(free_total(e) == 0);
    assert(seq![x].last() == x);
}

proof fn lemma_total_split(s: Seq<(u64, u64)>, i: int)
    requires
        0 <= i < s.len(),
    ensures
        free_total(s) == free_total(s.take(i)) + s[i].1 + free_total(s.skip(i + 1)),
{
    assert(s =~= s.take(i) + seq![s[i]] + s.skip(i + 1));
    lemma_total_concat(s.take(i) + seq![s[i]], s.skip(i + 1));
    lemma_total_concat(s.take(i), seq![s[i]]);
    lemma_total_single(s[i]);
}

proof fn lemma_total_update(s: Seq<(u64, u64)>, i: int, x: (u64, u64))
    requires
        0 <= i < s.len(),
    ensures
        free_total(s.update(i, x)) == free_total(s) - s[i].1 + x.1,
{
    let t = s.update(i, x);
    lemma_total_split(s, i);
    lemma_total_split(t, i);
    assert(t.take(i) =~= s.take(i));
    assert(t.skip(i + 1) =~= s.skip(i + 1));
}

proof fn lemma_total_insert(s: Seq<(u64, u64)>, i: int, x: (u64, u64))
    requires
        0 <= i <= s.len(),
    ensures
        free_total(s.insert(i, x)) == free_total(s) + x.1,
{
    let t = s.insert(i, x);
    lemma_total_split(t, i);
    assert(t.take(i) =~= s.take(i));
    assert(t.skip(i + 1) =~= s.skip(i));
    assert(s =~= s.take(i) + s.skip(i));
    lemma_total_concat(s.take(i), s.skip(i));
}

proof fn lemma_total_remove(s: Seq<(u64, u64)>, i: int)
    requires
        0 <= i < s.len(),
    ensures
        free_total(s.remove(i)) == free_total(s) - s[i].1,
{
    let t = s.remove(i);
    lemma_total_split(s, i);
    assert(t =~= s.take(i) + s.skip(i + 1));
    lemma_total_concat(s.take(i), s.skip(i + 1));
}

/// The blocks of a well-formed list fit below the end of its last block.
proof fn lemma_total_bound(s: Seq<(u64, u64)>)
    requires
        list_wf(s),
    ensures
        s.len() > 0 ==> free_total(s) <= s.last().0 + s.last().1,
        free_total(s) >= 0,
    decreases s.len(),
{
    if s.len() > 0 {
        let t = s.drop_last();
        assert(list_wf(t)) by {
            assert forall|i: int, j: int| #![trigger t[i], t[j]] 0 <= i < j < t.len() implies t[i].0 + t[i].1 < t[j].0 by {
                assert(s[i] == t[i] && s[j] == t[j]);
            }
            assert forall|i: int| 0 <= i < t.len() implies (#[trigger] t[i]).1 >= 16 by {
                assert(s[i] == t[i]);
            }
        }
        lemma_total_bound(t);
        if t.len() > 0 {
            assert(s[t.len() - 1] == t.last());
        }
    }
}

proof fn lemma_block_covers(s: Seq<(u64, u64)>, k: int, a: int)
    requires
        0 <= k < s.len(),
        in_block(s[k], a),
    ensures
        covers(s, a),
{
}

/// Blocks of a list that covers nothing of [addr, addr + size) lie wholly
/// before or wholly after that range.
proof fn lemma_disjoint(s: Seq<(u64, u64)>, addr: int, size: int, k: int)
    requires
        0 <= k < s.len(),
        size > 0,
        s[k].1 > 0,
        forall|a: int| addr <= a < addr + size ==> !covers(s, a),
    ensures
        s[k].0 + s[k].1 <= addr || addr + size <= s[k].0,
{
    if s[k].0 < addr && s[k].0 + s[k].1 > addr {
        lemma_block_covers(s, k, addr);
    }
    if addr <= s[k].0 < addr + size {
        if s[k].1 > 0 {
            lemma_block_covers(s, k, s[k].0 as int);
        }
    }
}

/// Every block of `s` ends at or below `bound` when nothing at or above
/// `bound` is covered.
pub proof fn lemma_blocks_below(s: Seq<(u64, u64)>, bound: int)
    requires
        list_wf(s),
        forall|a: int| #[trigger] covers(s, a) ==> a < bound,
    ensures
        forall|i: int| 0 <= i < s.len() ==> (#[trigger] s[i]).0 + s[i].1 <= bound,
{
    assert forall|i: int| 0 <= i < s.len() implies (#[trigger] s[i]).0 + s[i].1 <= bound by {
        lemma_block_covers(s, i, s[i].0 + s[i].1 - 1);
    }
}

/// Put [addr, addr + size) on the free list, merging it with a neighbour
/// that it touches on either side.
fn insert_free(free: &mut Vec<(u64, u64)>, addr: u64, size: u64)
    requires
        list_wf(old(free)@),
        size >= 16,
        size % 16 == 0,
        addr % 16 == 0,
        addr + size <= u64::MAX,
        forall|a: int| addr <= a < addr + size ==> !covers(old(free)@, a),
    ensures
        inserted(old(free)@, final(free)@, addr, size),
{
    let ghost s = free@;
    let n = free.len();
    let mut p: usize = 0;
    while p < n && free[p].0 < addr
        invariant
            n == free@.len(),
            free@ == s,
            p <= n,
            forall|k: int| 0 <= k < p ==> (#[trigger] s[k]).0 < addr,
        decreases n - p,
    {
        p += 1;
    }
    proof {
        assert forall|k: int| 0 <= k < p implies (#[trigger] s[k]).0 + s[k].1 <= addr by {
            lemma_disjoint(s, addr as int, size as int, k);
        }
        assert forall|k: int| p <= k < n implies addr + size <= (#[trigger] s[k]).0 by {
            lemma_disjoint(s, addr as int, size as int, k);
            if k > p {
                assert(s[p as int].1 > 0);
                assert(s[p as int].0 < s[k].0);
            }
        }
    }
    let merge_prev = p > 0 && free[p - 1].0 + free[p - 1].1 == addr;
    let merge_next = p < n && addr + size == free[p].0;
    if merge_prev && merge_next {
        let prev = free[p - 1];
        let next = free[p];
        free.set(p - 1, (prev.0, prev.1 + size + next.1));
        free.remove(p);
        proof {
            lemma_merge_both(s, p as int, addr, size);
        }
    } else if merge_prev {
        let prev = free[p - 1];
        free.set(p - 1, (prev.0, prev.1 + size));
        proof {
            lemma_merge_prev(s, p as int, addr, size);
        }
    } else if merge_next {
        let next = free[p];
        free.set(p, (addr, size + next.1));
        proof {
            lemma_merge_next(s, p as int, addr, size);
        }
    } else {
        free.insert(p, (addr, size));
        proof {
            lemma_insert_new(s, p as int, addr, size);
        }
    }
}

/// [addr, addr + size) fits between blocks `p - 1` and `p` of `s`.
pub open spec fn slot(s: Seq<(u64, u64)>, p: int, addr: u64, size: u64) -> bool {
    &&& list_wf(s)
    &&& size >= 16
    &&& size % 16 == 0
    &&& addr % 16 == 0
    &&& addr + size <= u64::MAX
    &&& 0 <= p <= s.len()
    &&& forall|k: int| 0 <= k < p ==> (#[trigger] s[k]).0 + s[k].1 <= addr
    &&& forall|k: int| p <= k < s.len() ==> addr + size <= (#[trigger] s[k]).0
}

/// What inserting into slot `p` is owed: a well-formed list that covers
/// the old addresses and the new range, with `size` more bytes.
pub open spec fn inserted(s: Seq<(u64, u64)>, t: Seq<(u64, u64)>, addr: u64, size: u64) -> bool {
    &&& list_wf(t)
    &&& forall|a: int| #[trigger] covers(t, a) <==> (covers(s, a) || addr <= a < addr + size)
    &&& free_total(t) == free_total(s) + size
    &&& t.len() <= s.len() + 1
}

proof fn lemma_merge_both(s: Seq<(u64, u64)>, p: int, addr: u64, size: u64)
    requires
        slot(s, p, addr, size),
        0 < p < s.len(),
        s[p - 1].0 + s[p - 1].1 == addr,
        addr + size == s[p].0,
    ensures
        ({
            let merged = (s[p - 1].0, (s[p - 1].1 + size + s[p].1) as u64);
            inserted(s, s.update(p - 1, merged).remove(p), addr, size)
        }),
{
    let merged = (s[p - 1].0, (s[p - 1].1 + size + s[p].1) as u64);
    let s1 = s.update(p - 1, merged);
    let t = s1.remove(p);
    lemma_total_update(s, p - 1, merged);
    lemma_total_remove(s1, p);
    assert forall|i: int, j: int| #![trigger t[i], t[j]] 0 <= i < j < t.len() implies t[i].0 + t[i].1 < t[j].0 by {
        let si = if i < p { i } else { i + 1 };
        let sj = if j < p { j } else { j + 1 };
        if i == p - 1 {
            assert(t[i] == merged);
            assert(t[j] == s[sj]);
            assert(s[p].0 + s[p].1 < s[sj].0);
        } else {
            assert(t[i] == s[si]);
            if j == p - 1 {
                assert(t[j] == merged);
                assert(s[si].0 + s[si].1 < s[p - 1].0);
            } else {
                assert(t[j] == s[sj]);
            }
        }
    }
    assert forall|i: int| 0 <= i < t.len() implies {
        &&& (#[trigger] t[i]).1 >= 16
        &&& t[i].1 % 16 == 0
        &&& t[i].0 % 16 == 0
        &&& t[i].0 + t[i].1 <= u64::MAX
    } by {
        if i != p - 1 {
            let si = if i < p { i } else { i + 1 };
            assert(t[i] == s[si]);
        }
    }
    assert forall|a: int| #[trigger] covers(t, a) <==> (covers(s, a) || addr <= a < addr + size) by {
        if covers(t, a) {
            let i = choose|i: int| 0 <= i < t.len() && #[trigger] in_block(t[i], a);
            if i == p - 1 {
                if a < addr {
                    lemma_block_covers(s, p - 1, a);
                } else if a >= addr + size {
                    lemma_block_covers(s, p, a);
                }
            } else if i < p - 1 {
                assert(t[i] == s[i]);
                lemma_block_covers(s, i, a);
            } else {
                assert(t[i] == s[i + 1]);
                lemma_block_covers(s, i + 1, a);
            }
        }
        if covers(s, a) {
            let i = choose|i: int| 0 <= i < s.len() && #[trigger] in_block(s[i], a);
            if i == p - 1 || i == p {
                lemma_block_covers(t, p - 1, a);
            } else if i < p - 1 {
                assert(t[i] == s[i]);
                lemma_block_covers(t, i, a);
            } else {
                assert(t[i - 1] == s[i]);
                lemma_block_covers(t, i - 1, a);
            }
        }
        if addr <= a < addr + size {
            lemma_block_covers(t, p - 1, a);
        }
    }
}

proof fn lemma_merge_prev(s: Seq<(u64, u64)>, p: int, addr: u64, size: u64)
    requires
        slot(s, p, addr, size),
        0 < p,
        s[p - 1].0 + s[p - 1].1 == addr,
        !(p < s.len() && addr + size == s[p].0),
    ensures
        inserted(s, s.update(p - 1, (s[p - 1].0, (s[p - 1].1 + size) as u64)), addr, size),
{
    let merged = (s[p - 1].0, (s[p - 1].1 + size) as u64);
    let t = s.update(p - 1, merged);
    lemma_total_update(s, p - 1, merged);
    assert forall|i: int, j: int| #![trigger t[i], t[j]] 0 <= i < j < t.len() implies t[i].0 + t[i].1 < t[j].0 by {
        if i == p - 1 {
            assert(t[j] == s[j]);
            assert(addr + size <= s[p].0);
            if j > p {
                assert(s[p].0 < s[j].0);
            }
        } else if j == p - 1 {
            assert(t[i] == s[i]);
        } else {
            assert(t[i] == s[i] && t[j] == s[j]);
        }
    }
    assert forall|a: int| #[trigger] covers(t, a) <==> (covers(s, a) || addr <= a < addr + size) by {
        if covers(t, a) {
            let i = choose|i: int| 0 <= i < t.len() && #[trigger] in_block(t[i], a);
            if i == p - 1 {
                if a < addr {
                    lemma_block_covers(s, i, a);
                }
            } else {
                lemma_block_covers(s, i, a);
            }
        }
        if covers(s, a) {
            let i = choose|i: int| 0 <= i < s.len() && #[trigger] in_block(s[i], a);
            lemma_block_covers(t, i, a);
        }
        if addr <= a < addr + size {
            lemma_block_covers(t, p - 1, a);
        }
    }
}

proof fn lemma_merge_next(s: Seq<(u64, u64)>, p: int, addr: u64, size: u64)
    requires
        slot(s, p, addr, size),
        p < s.len(),
        addr + size == s[p].0,
        !(p > 0 && s[p - 1].0 + s[p - 1].1 == addr),
    ensures
        inserted(s, s.update(p, (addr, (size + s[p].1) as u64)), addr, size),
{
    let merged = (addr, (size + s[p].1) as u64);
    let t = s.update(p, merged);
    lemma_total_update(s, p, merged);
    assert forall|i: int, j: int| #![trigger t[i], t[j]] 0 <= i < j < t.len() implies t[i].0 + t[i].1 < t[j].0 by {
        if j == p {
            assert(t[i] == s[i]);
            if i < p - 1 {
                assert(s[i].0 + s[i].1 < s[p - 1].0);
            }
        } else if i == p {
            assert(t[j] == s[j]);
        } else {
            assert(t[i] == s[i] && t[j] == s[j]);
        }
    }
    assert forall|a: int| #[trigger] covers(t, a) <==> (covers(s, a) || addr <= a < addr + size) by {
        if covers(t, a) {
            let i = choose|i: int| 0 <= i < t.len() && #[trigger] in_block(t[i], a);
            if i == p {
                if a >= addr + size {
                    lemma_block_covers(s, i, a);
                }
            } else {
                lemma_block_covers(s, i, a);
            }
        }
        if covers(s, a) {
            let i = choose|i: int| 0 <= i < s.len() && #[trigger] in_block(s[i], a);
            lemma_block_covers(t, i, a);
        }
        if addr <= a < addr + size {
            lemma_block_covers(t, p, a);
        }
    }
}

proof fn lemma_insert_new(s: Seq<(u64, u64)>, p: int, addr: u64, size: u64)
    requires
        slot(s, p, addr, size),
        !(p < s.len() && addr + size == s[p].0),
        !(p > 0 && s[p - 1].0 + s[p - 1].1 == addr),
    ensures
        inserted(s, s.insert(p, (addr, size)), addr, size),
{
    let t = s.insert(p, (addr, size));
    lemma_total_insert(s, p, (addr, size));
    assert forall|i: int, j: int| #![trigger t[i], t[j]] 0 <= i < j < t.len() implies t[i].0 + t[i].1 < t[j].0 by {
        let si = if i < p { i } else { i - 1 };
        let sj = if j < p { j } else { j - 1 };
        if i == p {
            assert(t[j] == s[sj]);
            assert(addr + size <= s[p].0);
            if sj > p {
                assert(s[p].0 < s[sj].0);
            }
        } else if j == p {
            assert(t[i] == s[si]);
            if i < p - 1 {
                assert(s[i].0 + s[i].1 < s[p - 1].0);
            }
        } else {
            assert(t[i] == s[si] && t[j] == s[sj]);
        }
    }
    assert forall|i: int| 0 <= i < t.len() implies {
        &&& (#[trigger] t[i]).1 >= 16
        &&& t[i].1 % 16 == 0
        &&& t[i].0 % 16 == 0
        &&& t[i].0 + t[i].1 <= u64::MAX
    } by {
        if i != p {
            let si = if i < p { i } else { i - 1 };
            assert(t[i] == s[si]);
        }
    }
    assert forall|a: int| #[trigger] covers(t, a) <==> (covers(s, a) || addr <= a < addr + size) by {
        if covers(t, a) {
            let i = choose|i: int| 0 <= i < t.len() && #[trigger] in_block(t[i], a);
            if i < p {
                lemma_block_covers(s, i, a);
            } else if i > p {
                assert(t[i] == s[i - 1]);
                lemma_block_covers(s, i - 1, a);
            }
        }
        if covers(s, a) {
            let i = choose|i: int| 0 <= i < s.len() && #[trigger] in_block(s[i], a);
            if i < p {
                lemma_block_covers(t, i, a);
            } else {
                assert(t[i + 1] == s[i]);
                lemma_block_covers(t, i + 1, a);
            }
        }
        if addr <= a < addr + size {
            lemma_block_covers(t, p, a);
        }
    }
}


/// A power of two of at least 16 is a multiple of 16.
proof fn lemma_align_multiple(align: u64)
    requires
        is_power_of_two(align),
        align >= 16,
    ensures
        align % 16 == 0,
{
    let n = choose|n: nat| n < 64 && align == pow2(n);
    lemma2_to64();
    if n < 4 {
        assert(n == 0 || n == 1 || n == 2 || n == 3);
    }
    let m = (n - 4) as nat;
    lemma_pow2_adds(4, m);
    assert(4 + m == n);
    lemma_mod_multiples_basic(pow2(m) as int, 16);
}

/// Rounding past the top of the address space stays past it.
proof fn lemma_align_past_top(start: u64, align: u64)
    requires
        is_power_of_two(align),
        start + align - 1 > u64::MAX,
    ensures
        align_up_spec(start as int, align as int) > u64::MAX,
{
    let n = choose|n: nat| n < 64 && align == pow2(n);
    let m = (64 - n) as nat;
    lemma_pow2_adds(n, m);
    lemma_pow2_pos(n);
    lemma_pow2_pos(m);
    lemma2_to64();
    let top = pow2(64) as int;
    assert(top == u64::MAX + 1) by {
        vstd::arithmetic::power2::lemma2_to64_rest();
    }
    let x = start + align - 1;
    let k = pow2(m) as int;
    let a = align as int;
    assert(top == a * k);
    assert((x / a) * a >= top) by (nonlinear_arith)
        requires
            x >= top,
            top == a * k,
            a > 0,
            k > 0,
    {
        assert(x / a >= k) by {
            vstd::arithmetic::div_mod::lemma_div_is_ordered(a * k, x, a);
            vstd::arithmetic::div_mod::lemma_div_by_multiple(k, a);
            assert(a * k == k * a);
        }
    }
}

/// Block `b` can serve `size` bytes at an `align` boundary.
pub open spec fn fits(b: (u64, u64), size: int, align: int) -> bool {
    align_up_spec(b.0 as int, align) + size <= b.0 + b.1
}

proof fn lemma_one_block(s: Seq<(u64, u64)>, i: int, j: int, a: int)
    requires
        list_wf(s),
        0 <= i < s.len(),
        0 <= j < s.len(),
        in_block(s[i], a),
        in_block(s[j], a),
    ensures
        i == j,
{
    if i < j {
        assert(s[i].0 + s[i].1 < s[j].0);
    } else if j < i {
        assert(s[j].0 + s[j].1 < s[i].0);
    }
}

proof fn lemma_remove_block(s: Seq<(u64, u64)>, i: int)
    requires
        list_wf(s),
        0 <= i < s.len(),
    ensures
        list_wf(s.remove(i)),
        forall|a: int| #[trigger] covers(s.remove(i), a) <==> (covers(s, a) && !in_block(s[i], a)),
        free_total(s.remove(i)) == free_total(s) - s[i].1,
{
    let t = s.remove(i);
    lemma_total_remove(s, i);
    assert forall|x: int, y: int| #![trigger t[x], t[y]] 0 <= x < y < t.len() implies t[x].0 + t[x].1 < t[y].0 by {
        let sx = if x < i { x } else { x + 1 };
        let sy = if y < i { y } else { y + 1 };
        assert(t[x] == s[sx] && t[y] == s[sy]);
    }
    assert forall|x: int| 0 <= x < t.len() implies {
        &&& (#[trigger] t[x]).1 >= 16
        &&& t[x].1 % 16 == 0
        &&& t[x].0 % 16 == 0
        &&& t[x].0 + t[x].1 <= u64::MAX
    } by {
        let sx = if x < i { x } else { x + 1 };
        assert(t[x] == s[sx]);
    }
    assert forall|a: int| #[trigger] covers(t, a) <==> (covers(s, a) && !in_block(s[i], a)) by {
        if covers(t, a) {
            let x = choose|x: int| 0 <= x < t.len() && #[trigger] in_block(t[x], a);
            let sx = if x < i { x } else { x + 1 };
            assert(t[x] == s[sx]);
            lemma_block_covers(s, sx, a);
            if in_block(s[i], a) {
                lemma_one_block(s, i, sx, a);
            }
        }
        if covers(s, a) && !in_block(s[i], a) {
            let x = choose|x: int| 0 <= x < s.len() && #[trigger] in_block(s[x], a);
            if x < i {
                lemma_block_covers(t, x, a);
            } else {
                assert(x != i);
                assert(t[x - 1] == s[x]);
                lemma_block_covers(t, x - 1, a);
            }
        }
    }
}

/// Carve `size` bytes at an `align` boundary out of the first block that
/// has room, giving the cut-off ends back to the list.
fn take_free(free: &mut Vec<(u64, u64)>, size: u64, align: u64) -> (r: Option<u64>)
    requires
        list_wf(old(free)@),
        size >= 16,
        size % 16 == 0,
        is_power_of_two(align),
        align >= 16,
    ensures
        match r {
            None => {
                &&& final(free)@ == old(free)@
                &&& forall|i: int| 0 <= i < old(free)@.len() ==> !fits(#[trigger] old(free)@[i], size as int, align as int)
            },
            Some(p) => {
                &&& exists|i: int| 0 <= i < old(free)@.len() && fits(#[trigger] old(free)@[i], size as int, align as int)
                    && p == align_up_spec(old(free)@[i].0 as int, align as int)
                    && forall|j: int| 0 <= j < i ==> !fits(#[trigger] old(free)@[j], size as int, align as int)
                &&& p % align == 0
                &&& p + size <= u64::MAX
                &&& list_wf(final(free)@)
                &&& forall|a: int| #[trigger] covers(final(free)@, a) <==> (covers(old(free)@, a) && !(p <= a < p + size))
                &&& forall|a: int| p <= a < p + size ==> covers(old(free)@, a)
                &&& free_total(final(free)@) == free_total(old(free)@) - size
            },
        },
{
    let ghost s = free@;
    proof {
        lemma_align_multiple(align);
    }
    let n = free.len();
    let mut i: usize = 0;
    while i < n
        invariant
            n == free@.len(),
            free@ == s,
            s == old(free)@,
            i <= n,
            list_wf(s),
            size >= 16,
            size % 16 == 0,
            is_power_of_two(align),
            align % 16 == 0,
            align >= 16,
            forall|j: int| 0 <= j < i ==> !fits(#[trigger] s[j], size as int, align as int),
        decreases n - i,
    {
        let start = free[i].0;
        let region = free[i].1;
        if start <= u64::MAX - (align - 1) {
            let aligned = align_up(start, align);
            let front = aligned - start;
            if front <= region && size <= region - front {
                let back = region - front - size;
                let ghost b = s[i as int];
                proof {
                    assert(fits(b, size as int, align as int));
                    assert(aligned % 16 == 0) by (nonlinear_arith)
                        requires
                            aligned % align == 0,
                            align % 16 == 0,
                            align > 0,
                    {
                        let q = aligned / align;
                        let m = align / 16;
                        assert(aligned == q * align);
                        assert(align == m * 16);
                        assert(aligned == (q * m) * 16);
                    }
                    lemma_remove_block(s, i as int);
                }
                free.remove(i);
                let ghost t0 = free@;
                if front > 0 {
                    proof {
                        assert forall|a: int| start <= a < start + front implies !covers(t0, a) by {
                            assert(in_block(b, a));
                        }
                    }
                    insert_free(free, start, front);
                }
                let ghost t1 = free@;
                proof {
                    assert forall|a: int| #[trigger] covers(t1, a) <==> (covers(t0, a) || start <= a < aligned) by {
                    }
                }
                if back > 0 {
                    proof {
                        assert forall|a: int| aligned + size <= a < aligned + size + back implies !covers(t1, a) by {
                            assert(in_block(b, a));
                        }
                    }
                    insert_free(free, aligned + size, back);
                }
                proof {
                    let t2 = free@;
                    assert forall|a: int| #[trigger] covers(t2, a) <==> (covers(s, a) && !(aligned <= a < aligned + size)) by {
                        if in_block(b, a) {
                            lemma_block_covers(s, i as int, a);
                        }
                    }
                    assert forall|a: int| aligned <= a < aligned + size implies covers(s, a) by {
                        lemma_block_covers(s, i as int, a);
                    }
                    assert(fits(s[i as int], size as int, align as int));
                }
                return Some(aligned);
            }
        } else {
            proof {
                lemma_align_past_top(start, align);
            }
        }
        i += 1;
    }
    None
}

/// Size and alignment an allocation is served with: both at least 16,
/// the size rounded up to a multiple of 16.
pub open spec fn normalised_size(size: int) -> int {
    let s = if size > 16 { size } else { 16 };
    ((s + 15) / 16) * 16
}

pub open spec fn normalised_align(align: int) -> int {
    if align > 16 { align } else { 16 }
}

/// The size and alignment an allocation of `size` bytes at `align` is
/// served with.
pub fn normalise(size: usize, align: usize) -> (r: (usize, usize))
    requires
        size <= usize::MAX - 15,
    ensures
        r.0 == normalised_size(size as int),
        r.1 == normalised_align(align as int),
        r.0 % 16 == 0,
        r.0 >= 16,
        r.0 >= size,
{
    let align = if align > MIN_BLOCK as usize { align } else { MIN_BLOCK as usize };
    let size = if size > MIN_BLOCK as usize { size } else { MIN_BLOCK as usize };
    let rounded = (size + 15) & !15usize;
    proof {
        assert(((size + 15) as usize) & !15usize == ((size + 15) as usize) - ((size + 15) as usize) % 16) by (bit_vector);
    }
    (rounded, align)
}

/// `p` doubled until it reaches `x`.
pub open spec fn doubled_to(x: int, p: int) -> int
    decreases (if x > p { x - p } else { 0 }),
{
    if p >= x || p <= 0 {
        p
    } else {
        doubled_to(x, 2 * p)
    }
}

/// Counters the heap reports.
#[derive(Clone, Copy)]
pub struct HeapStats {
    pub mapped: u64,
    pub allocated: usize,
    pub free_bytes: usize,
    pub free_blocks: usize,
    pub largest_free: usize,
    pub live_allocations: usize,
    pub total_allocations: u64,
}

/// The kernel heap.
pub struct Heap {
    free: Vec<(u64, u64)>,
    /// Virtual address just past the last mapped heap byte.
    brk: u64,
    mapped: u64,
    allocated: usize,
    live_allocations: usize,
    total_allocations: u64,
}

impl Heap {
    pub closed spec fn blocks(&self) -> Seq<(u64, u64)> {
        self.free@
    }

    pub closed spec fn brk_spec(&self) -> u64 {
        self.brk
    }

    pub closed spec fn mapped_spec(&self) -> u64 {
        self.mapped
    }

    pub closed spec fn allocated_spec(&self) -> usize {
        self.allocated
    }

    pub closed spec fn live_spec(&self) -> usize {
        self.live_allocations
    }

    pub closed spec fn total_spec(&self) -> u64 {
        self.total_allocations
    }

    /// The heap's invariant: a well-formed free list inside the mapped
    /// window [HEAP_BASE, brk), whose bytes and the allocated bytes add up
    /// to what is mapped.
    pub closed spec fn wf(&self) -> bool {
        &&& list_wf(self.free@)
        &&& self.mapped <= HEAP_MAX
        &&& self.mapped % 16 == 0
        &&& self.brk == HEAP_BASE + self.mapped
        &&& forall|a: int| #[trigger] covers(self.free@, a) ==> HEAP_BASE <= a < self.brk
        &&& free_total(self.free@) + self.allocated == self.mapped
    }

    pub proof fn lemma_wf(&self)
        requires
            self.wf(),
        ensures
            list_wf(self.blocks()),
            free_total(self.blocks()) + self.allocated_spec() == self.mapped_spec(),
            self.mapped_spec() <= HEAP_MAX,
            self.brk_spec() == HEAP_BASE + self.mapped_spec(),
            forall|a: int| #[trigger] covers(self.blocks(), a) ==> HEAP_BASE <= a < self.brk_spec(),
            free_total(self.blocks()) >= 0,
    {
        lemma_total_bound(self.free@);
    }

    /// An empty heap: nothing mapped yet.
    pub fn new() -> (h: Heap)
        ensures
            h.wf(),
            h.blocks().len() == 0,
            h.brk_spec() == HEAP_BASE,
            h.mapped_spec() == 0,
            h.allocated_spec() == 0,
            h.live_spec() == 0,
            h.total_spec() == 0,
    {
        Heap {
            free: Vec::new(),
            brk: HEAP_BASE,
            mapped: 0,
            allocated: 0,
            live_allocations: 0,
            total_allocations: 0,
        }
    }

    /// How much to map so that a request of `at_least` bytes fits: the
    /// initial heap size doubled until it covers the request, or `None`
    /// when that would take the heap past `HEAP_MAX`.
    pub fn grow_step(&self, at_least: u64) -> (r: Option<u64>)
        requires
            self.wf(),
        ensures
            ({
                let x = if at_least > HEAP_INITIAL { at_least as int } else { HEAP_INITIAL as int };
                let step = doubled_to(x, HEAP_INITIAL as int);
                &&& r is Some <==> step <= HEAP_MAX - self.mapped_spec()
                &&& r is Some ==> r->0 == step
            }),
            r is Some ==> r->0 % 16 == 0 && r->0 >= 16,
    {
        if at_least > HEAP_MAX {
            proof {
                lemma_doubled_at_least(at_least as int, HEAP_INITIAL as int);
            }
            return None;
        }
        let x = if at_least > HEAP_INITIAL { at_least } else { HEAP_INITIAL };
        let mut step: u64 = HEAP_INITIAL;
        while step < x
            invariant
                x <= HEAP_MAX,
                HEAP_INITIAL <= step <= 2 * HEAP_MAX,
                step % 16 == 0,
                doubled_to(x as int, step as int) == doubled_to(x as int, HEAP_INITIAL as int),
            decreases 2 * HEAP_MAX - step,
        {
            step = step * 2;
        }
        if step > HEAP_MAX - self.mapped {
            None
        } else {
            Some(step)
        }
    }

    /// Hand the heap `step` freshly mapped bytes at its current end.
    pub fn extend(&mut self, step: u64)
        requires
            old(self).wf(),
            step >= 16,
            step % 16 == 0,
            old(self).mapped_spec() + step <= HEAP_MAX,
        ensures
            final(self).wf(),
            final(self).mapped_spec() == old(self).mapped_spec() + step,
            final(self).brk_spec() == old(self).brk_spec() + step,
            forall|a: int| #[trigger] covers(final(self).blocks(), a) <==> (covers(old(self).blocks(), a)
                || old(self).brk_spec() <= a < old(self).brk_spec() + step),
            final(self).allocated_spec() == old(self).allocated_spec(),
            final(self).live_spec() == old(self).live_spec(),
            final(self).total_spec() == old(self).total_spec(),
    {
        let start = self.brk;
        proof {
            assert(HEAP_BASE % 16 == 0);
        }
        insert_free(&mut self.free, start, step);
        self.brk = self.brk + step;
        self.mapped = self.mapped + step;
    }
}

proof fn lemma_doubled_at_least(x: int, p: int)
    requires
        p > 0,
    ensures
        doubled_to(x, p) >= x,
        doubled_to(x, p) >= p,
    decreases (if x > p { x - p } else { 0 }),
{
    if p < x {
        lemma_doubled_at_least(x, 2 * p);
    }
}


proof fn lemma_total_nonneg(s: Seq<(u64, u64)>)
    ensures
        free_total(s) >= 0,
    decreases s.len(),
{
    if s.len() > 0 {
        lemma_total_nonneg(s.drop_last());
    }
}

proof fn lemma_total_prefix(s: Seq<(u64, u64)>, i: int)
    requires
        0 <= i < s.len(),
    ensures
        free_total(s.take(i + 1)) == free_total(s.take(i)) + s[i].1,
        largest(s.take(i + 1)) == if s[i].1 > largest(s.take(i)) { s[i].1 as int } else { largest(s.take(i)) },
        free_total(s.take(i + 1)) <= free_total(s),
{
    assert(s.take(i + 1).drop_last() =~= s.take(i));
    assert(s =~= s.take(i + 1) + s.skip(i + 1));
    lemma_total_concat(s.take(i + 1), s.skip(i + 1));
    lemma_total_nonneg(s.skip(i + 1));
}

proof fn lemma_pow2_sixteen(align: u64)
    requires
        is_power_of_two(align),
    ensures
        is_power_of_two(if align > 16 { align } else { 16u64 }),
{
    lemma2_to64();
    assert(pow2(4) == 16);
}

impl Heap {
    /// Serve `size` bytes at an `align` boundary from the free list. `None`
    /// when no free block has room; the heap is then unchanged and the
    /// caller may map more with `grow_step` and `extend` and try again.
    pub fn allocate(&mut self, size: usize, align: usize) -> (r: Option<u64>)
        requires
            old(self).wf(),
            size <= usize::MAX - 15,
            is_power_of_two(align as u64),
            old(self).live_spec() < usize::MAX,
            old(self).total_spec() < u64::MAX,
        ensures
            final(self).wf(),
            final(self).mapped_spec() == old(self).mapped_spec(),
            final(self).brk_spec() == old(self).brk_spec(),
            ({
                let ns = normalised_size(size as int);
                let na = normalised_align(align as int);
                match r {
                    None => {
                        &&& final(self).blocks() == old(self).blocks()
                        &&& final(self).allocated_spec() == old(self).allocated_spec()
                        &&& final(self).live_spec() == old(self).live_spec()
                        &&& final(self).total_spec() == old(self).total_spec()
                        &&& forall|i: int| 0 <= i < old(self).blocks().len() ==> !fits(#[trigger] old(self).blocks()[i], ns, na)
                    },
                    Some(p) => {
                        &&& exists|i: int| 0 <= i < old(self).blocks().len() && fits(#[trigger] old(self).blocks()[i], ns, na)
                            && p == align_up_spec(old(self).blocks()[i].0 as int, na)
                            && forall|j: int| 0 <= j < i ==> !fits(#[trigger] old(self).blocks()[j], ns, na)
                        &&& (p as int) % na == 0
                        &&& forall|a: int| p <= a < p + ns ==> covers(old(self).blocks(), a)
                        &&& forall|a: int| #[trigger] covers(final(self).blocks(), a) <==> (covers(old(self).blocks(), a) && !(p <= a < p + ns))
                        &&& final(self).allocated_spec() == old(self).allocated_spec() + ns
                        &&& final(self).live_spec() == old(self).live_spec() + 1
                        &&& final(self).total_spec() == old(self).total_spec() + 1
                    },
                }
            }),
    {
        let (ns, na) = normalise(size, align);
        proof {
            lemma_pow2_sixteen(align as u64);
        }
        let r = take_free(&mut self.free, ns as u64, na as u64);
        match r {
            None => None,
            Some(p) => {
                proof {
                    lemma_total_bound(self.free@);
                }
                self.allocated = self.allocated + ns;
                self.live_allocations = self.live_allocations + 1;
                self.total_allocations = self.total_allocations + 1;
                Some(p)
            },
        }
    }

    /// Give back the `size` bytes at `addr` that `allocate` handed out. A
    /// null address is ignored.
    pub fn release(&mut self, addr: u64, size: usize)
        requires
            old(self).wf(),
            size <= usize::MAX - 15,
            addr != 0 ==> {
                let ns = normalised_size(size as int);
                &&& ns <= old(self).allocated_spec()
                &&& old(self).live_spec() >= 1
                &&& addr % 16 == 0
                &&& HEAP_BASE <= addr
                &&& addr + ns <= old(self).brk_spec()
                &&& forall|a: int| addr <= a < addr + ns ==> !covers(old(self).blocks(), a)
            },
        ensures
            final(self).wf(),
            addr == 0 ==> final(self).blocks() == old(self).blocks() && final(self).allocated_spec() == old(self).allocated_spec()
                && final(self).live_spec() == old(self).live_spec(),
            addr != 0 ==> {
                let ns = normalised_size(size as int);
                &&& forall|a: int| #[trigger] covers(final(self).blocks(), a) <==> (covers(old(self).blocks(), a) || addr <= a < addr + ns)
                &&& final(self).allocated_spec() == old(self).allocated_spec() - ns
                &&& final(self).live_spec() == old(self).live_spec() - 1
            },
            final(self).total_spec() == old(self).total_spec(),
            final(self).mapped_spec() == old(self).mapped_spec(),
            final(self).brk_spec() == old(self).brk_spec(),
    {
        if addr == 0 {
            return;
        }
        let (ns, _) = normalise(size, 16);
        proof {
            assert forall|a: int| addr <= a < addr + ns implies !covers(self.free@, a) by {
                assert(!covers(old(self).blocks(), a));
            }
        }
        self.allocated = self.allocated - ns;
        self.live_allocations = self.live_allocations - 1;
        insert_free(&mut self.free, addr, ns as u64);
    }

    /// The heap's counters, with the free list walked for its byte count,
    /// block count and largest block.
    pub fn stats(&self) -> (st: HeapStats)
        requires
            self.wf(),
        ensures
            st.mapped == self.mapped_spec(),
            st.allocated == self.allocated_spec(),
            st.free_bytes == free_total(self.blocks()),
            st.free_blocks == self.blocks().len(),
            st.largest_free == largest(self.blocks()),
            st.live_allocations == self.live_spec(),
            st.total_allocations == self.total_spec(),
    {
        let ghost s = self.free@;
        proof {
            lemma_total_nonneg(s);
        }
        let n = self.free.len();
        let mut free_bytes: usize = 0;
        let mut biggest: usize = 0;
        let mut i: usize = 0;
        while i < n
            invariant
                n == s.len(),
                self.free@ == s,
                self.wf(),
                i <= n,
                free_bytes == free_total(s.take(i as int)),
                biggest == largest(s.take(i as int)),
                biggest <= free_total(s.take(i as int)),
                free_total(s) <= HEAP_MAX,
            decreases n - i,
        {
            proof {
                lemma_total_prefix(s, i as int);
                lemma_total_nonneg(s.take(i as int));
            }
            let size = self.free[i].1 as usize;
            free_bytes = free_bytes + size;
            if size > biggest {
                biggest = size;
            }
            i += 1;
        }
        proof {
            assert(s.take(n as int) =~= s);
        }
        HeapStats {
            mapped: self.mapped,
            allocated: self.allocated,
            free_bytes,
            free_blocks: n,
            largest_free: biggest,
            live_allocations: self.live_allocations,
            total_allocations: self.total_allocations,
        }
    }
}

/// Every byte the heap has mapped is either on the free list or handed
/// out: the free bytes and the allocated bytes add up to what is mapped.
pub proof fn law_heap_conservation(h: &Heap)
    requires
        h.wf(),
    ensures
        free_total(h.blocks()) + h.allocated_spec() == h.mapped_spec(),
        free_total(h.blocks()) >= 0,
{
    h.lemma_wf();
}

/// Allocating and then releasing the same block gives the free list its
/// old addresses back and the counters their old values (but for the
/// running total of allocations).
pub proof fn law_allocate_release_roundtrip(before: Heap, between: Heap, after: Heap, p: u64, ns: int)
    requires
        before.wf(),
        forall|a: int| p <= a < p + ns ==> covers(before.blocks(), a),
        forall|a: int| #[trigger] covers(between.blocks(), a) <==> (covers(before.blocks(), a) && !(p <= a < p + ns)),
        between.allocated_spec() == before.allocated_spec() + ns,
        between.live_spec() == before.live_spec() + 1,
        forall|a: int| #[trigger] covers(after.blocks(), a) <==> (covers(between.blocks(), a) || p <= a < p + ns),
        after.allocated_spec() == between.allocated_spec() - ns,
        after.live_spec() == between.live_spec() - 1,
    ensures
        forall|a: int| #[trigger] covers(after.blocks(), a) <==> covers(before.blocks(), a),
        after.allocated_spec() == before.allocated_spec(),
        after.live_spec() == before.live_spec(),
{
    assert forall|a: int| #[trigger] covers(after.blocks(), a) <==> covers(before.blocks(), a) by {
        if covers(after.blocks(), a) {
            if !(p <= a < p + ns) {
                assert(covers(between.blocks(), a));
            }
        }
        if covers(before.blocks(), a) {
            if !(p <= a < p + ns) {
                assert(covers(between.blocks(), a));
            }
        }
    }
}

/// What the heap hands out is aligned as asked, and at least to 16 bytes.
pub proof fn law_allocation_aligned(p: u64, align: usize)
    requires
        is_power_of_two(align as u64),
        (p as int) % normalised_align(align as int) == 0,
    ensures
        p % 16 == 0,
        p % (align as u64) == 0,
{
    lemma_pow2_sixteen(align as u64);
    let na = normalised_align(align as int);
    lemma_align_multiple(na as u64);
    assert(p % 16 == 0) by (nonlinear_arith)
        requires
            (p as int) % na == 0,
            na % 16 == 0,
            na > 0,
    {
        let q = (p as int) / na;
        let m = na / 16;
        assert(p == q * na);
        assert(na == m * 16);
        assert(p == (q * m) * 16);
    }
    if align <= 16 {
        let n = choose|n: nat| n < 64 && align as u64 == pow2(n);
        lemma2_to64();
        if n > 4 {
            vstd::arithmetic::power2::lemma_pow2_strictly_increases(4, n);
        }
        assert(n <= 4);
        assert(align == 1 || align == 2 || align == 4 || align == 8 || align == 16);
    }
}

} // verus!
