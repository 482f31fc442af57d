//! Dirty-page bookkeeping: the dense per-slot page bitmap filled from the
//! per-vCPU dirty ring at every pause boundary, iterated in ascending
//! order (the snapshot manifest order depends on it).

use crate::kvm::KvmError;
use crate::text::{decimal_string, hex_string, spec_decimal, spec_hex};
use vstd::prelude::*;

verus! {

/// 4 KiB pages.
pub const PAGE_SIZE: u64 = 4096;

/// Ring entry flag: KVM published this entry.
pub const DIRTY_GFN_F_DIRTY: u32 = 1;

/// Ring entry flag: userspace harvested this entry.
pub const DIRTY_GFN_F_RESET: u32 = 2;

/// Counters of one pause-boundary drain.
#[derive(Clone, Copy, Debug, Default, PartialEq, Eq, Structural)]
pub struct HarvestStats {
    pub harvested: u32,
    /// Entries the kernel re-armed.
    pub reset: u32,
}

/// Number of set marks.
pub open spec fn count_marks(m: Seq<bool>) -> nat
    decreases m.len(),
{
    if m.len() == 0 {
        0
    } else {
        count_marks(m.drop_last()) + if m.last() {
            1nat
        } else {
            0nat
        }
    }
}

/// The marked indices below `n`, ascending.
pub open spec fn marked_indices(m: Seq<bool>, n: int) -> Seq<u64>
    decreases n,
{
    if n <= 0 {
        Seq::empty()
    } else if m[n - 1] {
        marked_indices(m, n - 1).push((n - 1) as u64)
    } else {
        marked_indices(m, n - 1)
    }
}

pub open spec fn word_bit(w: u64, b: int) -> bool {
    w & (1u64 << (b as u64)) != 0
}

/// Dense page-index bitmap accumulated since the last snapshot. Page
/// indices past the end of RAM are refused.
#[derive(Clone, Debug)]
pub struct DirtyPageSet {
    bits: Vec<u64>,
    pages: u64,
    set_count: u64,
}

impl DirtyPageSet {
    /// One mark per page of guest RAM.
    pub closed spec fn marks(&self) -> Seq<bool> {
        Seq::new(self.pages as nat, |i: int| word_bit(self.bits@[i / 64], i % 64))
    }

    pub closed spec fn spec_pages(&self) -> u64 {
        self.pages
    }

    /// The bitmap is sized for its pages, the bits past the last page are
    /// clear and the count is the number of marks.
    pub closed spec fn wf(&self) -> bool {
        &&& self.bits@.len() == (self.pages as int + 63) / 64
        &&& forall|i: int|
            self.pages <= i < 64 * self.bits@.len() ==> !word_bit(#[trigger] self.bits@[i / 64], i % 64)
        &&& self.set_count == count_marks(self.marks())
    }

    /// An empty set for `mem_bytes` of RAM: one mark per started page.
    pub fn new(mem_bytes: u64) -> (r: Self)
        requires
            ((mem_bytes as int + 4095) / 4096 + 63) / 64 <= usize::MAX,
        ensures
            r.wf(),
            r.spec_pages() == (mem_bytes as int + 4095) / 4096,
            r.marks() == Seq::new(r.spec_pages() as nat, |i: int| false),
    {
        let pages = mem_bytes / PAGE_SIZE + if mem_bytes % PAGE_SIZE != 0 {
            1u64
        } else {
            0u64
        };
        proof {
            lemma_ceil_div(mem_bytes as int, 4096);
            lemma_ceil_div(pages as int, 64);
        }
        let words = (pages / 64 + if pages % 64 != 0 {
            1u64
        } else {
            0u64
        }) as usize;
        let mut bits: Vec<u64> = Vec::new();
        let mut i: usize = 0;
        while i < words
            invariant
                i <= words,
                bits@.len() == i,
                forall|t: int| 0 <= t < i ==> #[trigger] bits@[t] == 0,
            decreases words - i,
        {
            bits.push(0);
            i = i + 1;
        }
        let r = DirtyPageSet { bits, pages, set_count: 0 };
        assert(forall|b: int| 0 <= b < 64 ==> !word_bit(0u64, b)) by {
            assert(forall|b: u64| b < 64 ==> #[trigger] (0u64 & (1u64 << b)) == 0) by (bit_vector);
        }
        assert forall|i: int| 0 <= i < pages implies #[trigger] r.bits@[i / 64] == 0 by {
            lemma_word_index(i, pages as int);
        }
        assert(r.marks() =~= Seq::new(r.spec_pages() as nat, |i: int| false));
        proof {
            lemma_count_all_false(r.spec_pages() as nat);
        }
        r
    }

    /// Mark `page_idx`; `Ok(true)` if it was not marked before. A page past
    /// the end of RAM is a loud error.
    pub fn insert(&mut self, page_idx: u64) -> (r: Result<bool, KvmError>)
        requires
            old(self).wf(),
        ensures
            final(self).wf(),
            final(self).spec_pages() == old(self).spec_pages(),
            page_idx >= old(self).spec_pages() ==> (r matches Err(KvmError::Memory(m)) && m@
                == "dirty gfn "@ + "0x"@ + spec_hex(page_idx as nat) + " beyond guest RAM ("@
                + spec_decimal(old(self).spec_pages() as nat) + " pages)"@) && final(self).marks()
                == old(self).marks(),
            page_idx < old(self).spec_pages() ==> r == Ok::<bool, KvmError>(
                !old(self).marks()[page_idx as int],
            ) && final(self).marks() == old(self).marks().update(page_idx as int, true),
            page_idx < old(self).spec_pages() ==> count_marks(final(self).marks()) == count_marks(
                old(self).marks(),
            ) + if old(self).marks()[page_idx as int] {
                0int
            } else {
                1int
            },
            page_idx >= old(self).spec_pages() ==> count_marks(final(self).marks())
                == count_marks(old(self).marks()),
    {
        if page_idx >= self.pages {
            let m = String::from_str("dirty gfn ").concat(hex_string(page_idx).as_str()).concat(
                " beyond guest RAM (",
            ).concat(decimal_string(self.pages).as_str()).concat(" pages)");
            return Err(KvmError::Memory(m));
        }
        let ghost old_marks = self.marks();
        proof {
            lemma_word_index(page_idx as int, self.pages as int);
            lemma_count_bound(old_marks.update(page_idx as int, true));
        }
        let _nwords = self.bits.len();
        let word = (page_idx / 64) as usize;
        let bit = page_idx % 64;
        let newly = self.bits[word] & (1u64 << bit) == 0;
        let w = self.bits[word];
        let nw = w | (1u64 << bit);
        proof {
            assert forall|b: int| 0 <= b < 64 implies (#[trigger] word_bit(nw, b)) == (word_bit(w, b)
                || b == bit) by {
                let bb = b as u64;
                assert(((w | (1u64 << bit)) & (1u64 << bb) != 0) == ((w & (1u64 << bb) != 0) || bb
                    == bit)) by (bit_vector)
                    requires
                        bb < 64,
                        bit < 64,
                ;
            }
        }
        self.bits.set(word, nw);
        proof {
            assert(self.marks() =~= old_marks.update(page_idx as int, true)) by {
                assert forall|i: int| 0 <= i < self.pages implies #[trigger] self.marks()[i]
                    == old_marks.update(page_idx as int, true)[i] by {
                    lemma_word_index(i, self.pages as int);
                    if i / 64 == word as int {
                        assert(word_bit(nw, i % 64) == (word_bit(w, i % 64) || i % 64 == bit));
                    }
                }
            }
            assert forall|i: int|
                self.pages <= i < 64 * self.bits@.len() implies !word_bit(
                #[trigger] self.bits@[i / 64],
                i % 64,
            ) by {
                if i / 64 == word as int {
                    assert(word_bit(nw, i % 64) == (word_bit(w, i % 64) || i % 64 == bit));
                }
            }
            if newly {
                lemma_count_set(old_marks, page_idx as int);
            } else {
                assert(old_marks[page_idx as int]);
                assert(old_marks.update(page_idx as int, true) =~= old_marks);
            }
            lemma_count_bound(old_marks);
        }
        if newly {
            self.set_count = self.set_count + 1;
        }
        Ok(newly)
    }

    pub fn contains(&self, page_idx: u64) -> (r: bool)
        requires
            self.wf(),
        ensures
            r == (page_idx < self.spec_pages() && self.marks()[page_idx as int]),
    {
        if page_idx >= self.pages {
            return false;
        }
        proof {
            lemma_word_index(page_idx as int, self.pages as int);
        }
        let _nwords = self.bits.len();
        let word = (page_idx / 64) as usize;
        self.bits[word] & (1u64 << (page_idx % 64)) != 0
    }

    /// The number of marked pages.
    pub fn len(&self) -> (r: u64)
        requires
            self.wf(),
        ensures
            r == count_marks(self.marks()),
    {
        self.set_count
    }

    pub fn is_empty(&self) -> (r: bool)
        requires
            self.wf(),
        ensures
            r == (count_marks(self.marks()) == 0),
    {
        self.set_count == 0
    }

    /// The number of pages the set covers.
    pub fn pages(&self) -> (r: u64)
        ensures
            r == self.spec_pages(),
    {
        self.pages
    }

    /// Unmark every page (after a successful snapshot).
    pub fn clear(&mut self)
        requires
            old(self).wf(),
        ensures
            final(self).wf(),
            final(self).spec_pages() == old(self).spec_pages(),
            final(self).marks() == Seq::new(old(self).spec_pages() as nat, |i: int| false),
    {
        let n = self.bits.len();
        let mut i: usize = 0;
        while i < n
            invariant
                n == self.bits@.len(),
                self.pages == old(self).pages,
                n == (self.pages as int + 63) / 64,
                i <= n,
                forall|t: int| 0 <= t < i ==> #[trigger] self.bits@[t] == 0,
            decreases n - i,
        {
            self.bits.set(i, 0);
            i = i + 1;
        }
        self.set_count = 0;
        assert(forall|b: int| 0 <= b < 64 ==> !word_bit(0u64, b)) by {
            assert(forall|b: u64| b < 64 ==> #[trigger] (0u64 & (1u64 << b)) == 0) by (bit_vector);
        }
        assert forall|i: int| 0 <= i < self.pages implies #[trigger] self.bits@[i / 64] == 0 by {
            lemma_word_index(i, self.pages as int);
        }
        assert(self.marks() =~= Seq::new(self.pages as nat, |i: int| false));
        proof {
            lemma_count_all_false(self.pages as nat);
        }
    }

    /// The marked page indices, ascending: the manifest order.
    pub fn iter(&self) -> (r: Vec<u64>)
        requires
            self.wf(),
        ensures
            r@ == marked_indices(self.marks(), self.spec_pages() as int),
            r@.len() == count_marks(self.marks()),
    {
        proof {
            lemma_marked_indices_len(self.marks(), self.spec_pages() as int);
            assert(self.marks().subrange(0, self.spec_pages() as int) =~= self.marks());
        }
        let mut out: Vec<u64> = Vec::new();
        let mut i: u64 = 0;
        while i < self.pages
            invariant
                self.wf(),
                i <= self.pages,
                out@ == marked_indices(self.marks(), i as int),
            decreases self.pages - i,
        {
            if self.contains(i) {
                out.push(i);
            }
            i = i + 1;
        }
        out
    }
}

/// A set has one mark per page it covers.
pub proof fn lemma_marks_cover_pages(s: DirtyPageSet)
    ensures
        s.marks().len() == s.spec_pages(),
{
}

/// The listing below `n` has one entry per mark below `n`.
proof fn lemma_marked_indices_len(m: Seq<bool>, n: int)
    requires
        0 <= n <= m.len(),
    ensures
        marked_indices(m, n).len() == count_marks(m.subrange(0, n)),
    decreases n,
{
    if n > 0 {
        lemma_marked_indices_len(m, n - 1);
        assert(m.subrange(0, n).drop_last() =~= m.subrange(0, n - 1));
    } else {
        assert(m.subrange(0, 0).len() == 0);
    }
}

proof fn lemma_word_index(i: int, pages: int)
    requires
        0 <= i < pages,
    ensures
        0 <= i / 64 < (pages + 63) / 64,
        0 <= i % 64 < 64,
{
    assert(0 <= i / 64 < (pages + 63) / 64) by (nonlinear_arith)
        requires
            0 <= i < pages,
    ;
}

proof fn lemma_ceil_div(x: int, d: int)
    requires
        x >= 0,
        d > 0,
    ensures
        x / d + (if x % d != 0 {
            1int
        } else {
            0int
        }) == (x + d - 1) / d,
{
    assert(x / d + (if x % d != 0 {
        1int
    } else {
        0int
    }) == (x + d - 1) / d) by (nonlinear_arith)
        requires
            x >= 0,
            d > 0,
    ;
}

proof fn lemma_count_all_false(n: nat)
    ensures
        count_marks(Seq::new(n, |i: int| false)) == 0,
    decreases n,
{
    if n > 0 {
        assert(Seq::new(n, |i: int| false).drop_last() =~= Seq::new((n - 1) as nat, |i: int| false));
        lemma_count_all_false((n - 1) as nat);
    }
}

proof fn lemma_count_bound(m: Seq<bool>)
    ensures
        count_marks(m) <= m.len(),
    decreases m.len(),
{
    if m.len() > 0 {
        lemma_count_bound(m.drop_last());
    }
}

proof fn lemma_count_set(m: Seq<bool>, i: int)
    requires
        0 <= i < m.len(),
        !m[i],
    ensures
        count_marks(m.update(i, true)) == count_marks(m) + 1,
    decreases m.len(),
{
    if i < m.len() - 1 {
        assert(m.update(i, true).drop_last() =~= m.drop_last().update(i, true));
        lemma_count_set(m.drop_last(), i);
    } else {
        assert(m.update(i, true).drop_last() =~= m.drop_last());
    }
}

/// The sorted-and-exact property of the iteration order: the listed pages
/// strictly ascend and are exactly the marked ones.
pub proof fn lemma_marked_indices_exact(m: Seq<bool>, n: int)
    requires
        0 <= n <= m.len(),
        n <= u64::MAX + 1,
    ensures
        forall|j: int, k: int|
            0 <= j < k < marked_indices(m, n).len() ==> #[trigger] marked_indices(m, n)[j]
                < #[trigger] marked_indices(m, n)[k],
        forall|j: int|
            0 <= j < marked_indices(m, n).len() ==> #[trigger] marked_indices(m, n)[j] < n && m[marked_indices(m, n)[j] as int],
        forall|i: int| 0 <= i < n && m[i] ==> #[trigger] marked_indices(m, n).contains(i as u64),
    decreases n,
{
    if n > 0 {
        lemma_marked_indices_exact(m, n - 1);
        let prev = marked_indices(m, n - 1);
        if m[n - 1] {
            assert(marked_indices(m, n)[prev.len() as int] == (n - 1) as u64);
            assert forall|i: int| 0 <= i < n && m[i] implies #[trigger] marked_indices(m, n).contains(
                i as u64,
            ) by {
                if i < n - 1 {
                    assert(prev.contains(i as u64));
                    let k = choose|k: int| 0 <= k < prev.len() && prev[k] == i as u64;
                    assert(marked_indices(m, n)[k] == i as u64);
                } else {
                    assert(marked_indices(m, n)[prev.len() as int] == i as u64);
                }
            }
        }
    }
}

/// One published ring entry folded into the set: an entry not flagged
/// DIRTY ends the drain (`Ok(false)`); a DIRTY entry of memslot 0 marks its
/// page (`Ok(true)`); any other memslot is a loud error.
pub fn harvest_entry(set: &mut DirtyPageSet, flags: u32, slot: u32, gfn: u64) -> (r: Result<
    bool,
    KvmError,
>)
    requires
        old(set).wf(),
    ensures
        final(set).wf(),
        final(set).spec_pages() == old(set).spec_pages(),
        flags & DIRTY_GFN_F_DIRTY == 0 ==> r == Ok::<bool, KvmError>(false) && final(set).marks()
            == old(set).marks(),
        flags & DIRTY_GFN_F_DIRTY != 0 && slot != 0 ==> (r matches Err(KvmError::Memory(m)) && m@
            == "dirty ring entry for unexpected memslot "@ + "0x"@ + spec_hex(slot as nat)
            + " (gfn "@ + "0x"@ + spec_hex(gfn as nat) + ")"@) && final(set).marks() == old(
            set,
        ).marks(),
        flags & DIRTY_GFN_F_DIRTY != 0 && slot == 0 && gfn >= old(set).spec_pages() ==> (r matches Err(
            KvmError::Memory(m),
        ) && m@ == "dirty gfn "@ + "0x"@ + spec_hex(gfn as nat) + " beyond guest RAM ("@
            + spec_decimal(old(set).spec_pages() as nat) + " pages)"@) && final(set).marks() == old(
            set,
        ).marks(),
        flags & DIRTY_GFN_F_DIRTY != 0 && slot == 0 && gfn < old(set).spec_pages() ==> r == Ok::<
            bool,
            KvmError,
        >(true) && final(set).marks() == old(set).marks().update(gfn as int, true),
{
    if flags & DIRTY_GFN_F_DIRTY == 0 {
        return Ok(false);
    }
    if slot != 0 {
        let m = String::from_str("dirty ring entry for unexpected memslot ").concat(
            hex_string(slot as u64).as_str(),
        ).concat(" (gfn ").concat(hex_string(gfn).as_str()).concat(")");
        return Err(KvmError::Memory(m));
    }
    match set.insert(gfn) {
        Ok(_) => Ok(true),
        Err(e) => Err(e),
    }
}

} // verus!
