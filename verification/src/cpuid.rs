//! The CPUID determinism mask: every host-dependent feature bit a guest
//! could observe (timers, entropy, thermal state, host placement, the
//! XSAVE family, the vPMU) is cleared, the KVM paravirt leaves are
//! removed, and the table is ordered by (function, index) for hashing.

use crate::config::{leaf_key_lt, leaves_bytes, CpuidLeaf};
use crate::digest::blake3_digest;
use vstd::multiset::Multiset;
use vstd::prelude::*;

verus! {

pub const L1_ECX_MONITOR: u32 = 0x8;
pub const L1_ECX_TSC_DEADLINE: u32 = 0x100_0000;
pub const L1_ECX_X2APIC: u32 = 0x20_0000;
pub const L1_ECX_PDCM: u32 = 0x8000;
pub const L1_ECX_RDRAND: u32 = 0x4000_0000;
pub const L1_ECX_FMA: u32 = 0x1000;
pub const L1_ECX_XSAVE: u32 = 0x400_0000;
pub const L1_ECX_OSXSAVE: u32 = 0x800_0000;
pub const L1_ECX_AVX: u32 = 0x1000_0000;
pub const L1_ECX_F16C: u32 = 0x2000_0000;
pub const L1_EDX_TSC: u32 = 0x10;
pub const L1_EDX_TM: u32 = 0x2000_0000;
pub const L1_EDX_ACPI: u32 = 0x40_0000;
pub const L7_EBX_RDSEED: u32 = 0x4_0000;
pub const L7_EBX_AVX2: u32 = 0x20;
/// AVX-512 F, DQ, IFMA, PF, ER, CD, BW, VL.
pub const L7_EBX_AVX512_GROUP: u32 = 0xd422_0000;
pub const L7_ECX_WAITPKG: u32 = 0x20;
pub const L7_EDX_ARCH_CAPABILITIES: u32 = 0x2000_0000;
pub const L8_1_EDX_RDTSCP: u32 = 0x800_0000;
pub const L8_7_EDX_INVTSC: u32 = 0x100;

/// Leaf 1 ECX bits the mask clears.
pub const L1_ECX_MASK: u32 = L1_ECX_MONITOR | L1_ECX_TSC_DEADLINE | L1_ECX_X2APIC | L1_ECX_PDCM
    | L1_ECX_RDRAND | L1_ECX_FMA | L1_ECX_XSAVE | L1_ECX_OSXSAVE | L1_ECX_AVX | L1_ECX_F16C;

/// Leaf 1 EDX bits the mask clears.
pub const L1_EDX_MASK: u32 = L1_EDX_TSC | L1_EDX_TM | L1_EDX_ACPI;

/// Leaf 7 subleaf 0 EBX bits the mask clears.
pub const L7_EBX_MASK: u32 = L7_EBX_RDSEED | L7_EBX_AVX2 | L7_EBX_AVX512_GROUP;

/// KVM paravirt leaves (kvmclock, async PF, steal time, PV EOI).
pub open spec fn is_paravirt(function: u32) -> bool {
    0x4000_0000 <= function < 0x4000_0100
}

/// Leaves zeroed whole: thermal, PMU, topology, XSAVE enumeration,
/// frequency and hybrid core type.
pub open spec fn zeroed_leaf(function: u32) -> bool {
    function == 6 || function == 0xA || function == 0xB || function == 0x1F || function == 0xD
        || function == 0x15 || function == 0x16 || function == 0x1A
}

/// One leaf under the mask.
pub open spec fn spec_mask_leaf(e: CpuidLeaf) -> CpuidLeaf {
    if e.function == 1 {
        CpuidLeaf {
            ecx: e.ecx & !L1_ECX_MASK,
            edx: e.edx & !L1_EDX_MASK,
            ebx: e.ebx & 0x00FF_FFFF,
            ..e
        }
    } else if zeroed_leaf(e.function) {
        CpuidLeaf { eax: 0, ebx: 0, ecx: 0, edx: 0, ..e }
    } else if e.function == 7 && e.index == 0 {
        CpuidLeaf {
            ebx: e.ebx & !L7_EBX_MASK,
            ecx: e.ecx & !L7_ECX_WAITPKG,
            edx: e.edx & !L7_EDX_ARCH_CAPABILITIES,
            ..e
        }
    } else if e.function == 0x8000_0001 {
        CpuidLeaf { edx: e.edx & !L8_1_EDX_RDTSCP, ..e }
    } else if e.function == 0x8000_0007 {
        CpuidLeaf { edx: e.edx & !L8_7_EDX_INVTSC, ..e }
    } else {
        e
    }
}

/// The masked table: paravirt leaves dropped, every other leaf masked, in
/// their input order.
pub open spec fn spec_masked(t: Seq<CpuidLeaf>) -> Seq<CpuidLeaf>
    decreases t.len(),
{
    if t.len() == 0 {
        Seq::empty()
    } else if is_paravirt(t.last().function) {
        spec_masked(t.drop_last())
    } else {
        spec_masked(t.drop_last()).push(spec_mask_leaf(t.last()))
    }
}

/// Apply the mask to one leaf.
pub fn mask_leaf(e: CpuidLeaf) -> (r: CpuidLeaf)
    ensures
        r == spec_mask_leaf(e),
{
    if e.function == 1 {
        CpuidLeaf {
            ecx: e.ecx & !L1_ECX_MASK,
            edx: e.edx & !L1_EDX_MASK,
            ebx: e.ebx & 0x00FF_FFFF,
            ..e
        }
    } else if e.function == 6 || e.function == 0xA || e.function == 0xB || e.function == 0x1F
        || e.function == 0xD || e.function == 0x15 || e.function == 0x16 || e.function == 0x1A {
        CpuidLeaf { eax: 0, ebx: 0, ecx: 0, edx: 0, ..e }
    } else if e.function == 7 && e.index == 0 {
        CpuidLeaf {
            ebx: e.ebx & !L7_EBX_MASK,
            ecx: e.ecx & !L7_ECX_WAITPKG,
            edx: e.edx & !L7_EDX_ARCH_CAPABILITIES,
            ..e
        }
    } else if e.function == 0x8000_0001 {
        CpuidLeaf { edx: e.edx & !L8_1_EDX_RDTSCP, ..e }
    } else if e.function == 0x8000_0007 {
        CpuidLeaf { edx: e.edx & !L8_7_EDX_INVTSC, ..e }
    } else {
        e
    }
}

/// Apply the mask to a table in place.
pub fn mask_in_place(leaves: &mut Vec<CpuidLeaf>)
    ensures
        final(leaves)@ == spec_masked(old(leaves)@),
{
    let src = leaves.clone();
    proof {
        assert(src@ == old(leaves)@);
    }
    let mut out: Vec<CpuidLeaf> = Vec::new();
    let mut i: usize = 0;
    assert(src@.subrange(0, 0) =~= Seq::<CpuidLeaf>::empty());
    while i < src.len()
        invariant
            i <= src@.len(),
            out@ == spec_masked(src@.subrange(0, i as int)),
        decreases src@.len() - i,
    {
        let e = src[i];
        proof {
            assert(src@.subrange(0, i + 1).drop_last() =~= src@.subrange(0, i as int));
        }
        if !(0x4000_0000 <= e.function && e.function < 0x4000_0100) {
            out.push(mask_leaf(e));
        }
        i = i + 1;
    }
    assert(src@.subrange(0, src@.len() as int) =~= src@);
    *leaves = out;
}

/// Leaves ordered by (function, index), ties kept.
pub open spec fn leaves_sorted(t: Seq<CpuidLeaf>) -> bool {
    forall|i: int, j: int| 0 <= i < j < t.len() ==> !leaf_key_lt(#[trigger] t[j], #[trigger] t[i])
}

/// The table ordered by (function, index): KVM's own entry order is not
/// part of machine behavior.
pub fn to_leaves(entries: &[CpuidLeaf]) -> (r: Vec<CpuidLeaf>)
    ensures
        stable_sort_of(r@, entries@),
        r@ == stably_sorted(entries@),
        r@.to_multiset() == entries@.to_multiset(),
{
    broadcast use vstd::seq_lib::to_multiset_insert;
    let mut out: Vec<CpuidLeaf> = Vec::new();
    let mut i: usize = 0;
    proof {
        assert(entries@.subrange(0, 0) =~= Seq::<CpuidLeaf>::empty());
        assert(out@ =~= Seq::<CpuidLeaf>::empty());
    }
    while i < entries.len()
        invariant
            i <= entries@.len(),
            leaves_sorted(out@),
            out@.to_multiset() == entries@.subrange(0, i as int).to_multiset(),
            forall|f: u32, k: u32|
                #[trigger] key_class(out@, f, k) == key_class(entries@.subrange(0, i as int), f, k),
        decreases entries@.len() - i,
    {
        let e = entries[i];
        let mut p: usize = 0;
        while p < out.len() && !leaf_lt_exec(&e, &out[p])
            invariant
                p <= out@.len(),
                forall|q: int| 0 <= q < p ==> !leaf_key_lt(e, #[trigger] out@[q]),
            decreases out@.len() - p,
        {
            p = p + 1;
        }
        proof {
            if p < out@.len() {
                assert(leaf_key_lt(e, out@[p as int]));
            }
        }
        let ghost before = out@;
        out.insert(p, e);
        proof {
            assert(out@ == before.insert(p as int, e));
            assert forall|a: int, b: int| 0 <= a < b < out@.len() implies !leaf_key_lt(
                #[trigger] out@[b],
                #[trigger] out@[a],
            ) by {
                if a < p && b == p {
                    assert(!leaf_key_lt(e, before[a]));
                } else if a == p && b > p {
                    assert(before[b - 1] == out@[b]);
                    if b - 1 > p {
                        assert(!leaf_key_lt(before[b - 1], before[p as int]));
                    }
                }
            }
            assert(entries@.subrange(0, i + 1) =~= entries@.subrange(0, i as int).push(e));
            vstd::seq_lib::to_multiset_build(entries@.subrange(0, i as int), e);
            vstd::seq_lib::to_multiset_insert(before, p as int, e);
            assert(out@.to_multiset() == entries@.subrange(0, i + 1).to_multiset());
            assert forall|f: u32, k: u32|
                #[trigger] key_class(out@, f, k) == key_class(entries@.subrange(0, i + 1), f, k) by {
                lemma_insert_keeps_classes(before, p as int, e, f, k);
                entries@.subrange(0, i as int).lemma_filter_push(e, has_key(f, k));
            }
        }
        i = i + 1;
    }
    assert(entries@.subrange(0, entries@.len() as int) =~= entries@);
    proof {
        lemma_stable_sort_unique(out@, stably_sorted(entries@), entries@);
    }
    out
}

fn leaf_lt_exec(a: &CpuidLeaf, b: &CpuidLeaf) -> (r: bool)
    ensures
        r == leaf_key_lt(*a, *b),
{
    a.function < b.function || (a.function == b.function && a.index < b.index)
}

/// No two entries of the table share a (function, index) key.
pub open spec fn unique_keys(m: Multiset<CpuidLeaf>) -> bool {
    forall|x: CpuidLeaf, y: CpuidLeaf|
        #![trigger m.count(x), m.count(y)]
        m.count(x) > 0 && m.count(y) > 0 && x.function == y.function && x.index == y.index ==> x == y
            && m.count(x) == 1
}

/// The table of `m` in (function, index) order.
pub open spec fn canonical_table(m: Multiset<CpuidLeaf>) -> Seq<CpuidLeaf> {
    choose|t: Seq<CpuidLeaf>| leaves_sorted(t) && t.to_multiset() == m
}

/// Whether a leaf carries the key (`f`, `i`).
pub open spec fn has_key(f: u32, i: u32) -> spec_fn(CpuidLeaf) -> bool {
    |x: CpuidLeaf| x.function == f && x.index == i
}

/// The leaves of `t` keyed (`f`, `i`), in their order in `t`.
pub open spec fn key_class(t: Seq<CpuidLeaf>, f: u32, i: u32) -> Seq<CpuidLeaf> {
    t.filter(has_key(f, i))
}

/// `t` is `s` stably sorted by (function, index): ordered by key, and the
/// leaves of each key appear in `t` exactly as, and in the order, they do
/// in `s`.
pub open spec fn stable_sort_of(t: Seq<CpuidLeaf>, s: Seq<CpuidLeaf>) -> bool {
    &&& leaves_sorted(t)
    &&& forall|f: u32, i: u32| #[trigger] key_class(t, f, i) == key_class(s, f, i)
}

/// The stable (function, index) ordering of `s`; unique by
/// `lemma_stable_sort_unique`.
pub open spec fn stably_sorted(s: Seq<CpuidLeaf>) -> Seq<CpuidLeaf> {
    choose|t: Seq<CpuidLeaf>| stable_sort_of(t, s)
}

proof fn lemma_sorted_same_classes_equal(t1: Seq<CpuidLeaf>, t2: Seq<CpuidLeaf>)
    requires
        leaves_sorted(t1),
        leaves_sorted(t2),
        forall|f: u32, i: u32| #[trigger] key_class(t1, f, i) == key_class(t2, f, i),
    ensures
        t1 == t2,
    decreases t1.len() + t2.len(),
{
    reveal(Seq::filter);
    if t1.len() == 0 && t2.len() == 0 {
        assert(t1 =~= t2);
    } else if t1.len() == 0 {
        let b = t2[0];
        t2.lemma_filter_contains(has_key(b.function, b.index), 0);
        assert(key_class(t1, b.function, b.index).len() == 0);
        assert(key_class(t2, b.function, b.index).len() > 0);
    } else if t2.len() == 0 {
        let a = t1[0];
        t1.lemma_filter_contains(has_key(a.function, a.index), 0);
        assert(key_class(t2, a.function, a.index).len() == 0);
        assert(key_class(t1, a.function, a.index).len() > 0);
    } else {
        let a = t1[0];
        let b = t2[0];
        // Each first leaf's key occurs in the other table, so neither key
        // is below the other.
        t1.lemma_filter_contains(has_key(a.function, a.index), 0);
        assert(key_class(t1, a.function, a.index) == key_class(t2, a.function, a.index));
        assert(key_class(t2, a.function, a.index).contains(a));
        t2.lemma_filter_contains_rev(has_key(a.function, a.index), a);
        let j = choose|j: int| 0 <= j < t2.len() && t2[j] == a;
        assert(!leaf_key_lt(a, b)) by {
            if j > 0 {
                assert(!leaf_key_lt(t2[j], t2[0]));
            }
        }
        t2.lemma_filter_contains(has_key(b.function, b.index), 0);
        assert(key_class(t1, b.function, b.index) == key_class(t2, b.function, b.index));
        assert(key_class(t1, b.function, b.index).contains(b));
        t1.lemma_filter_contains_rev(has_key(b.function, b.index), b);
        let k = choose|k: int| 0 <= k < t1.len() && t1[k] == b;
        assert(!leaf_key_lt(b, a)) by {
            if k > 0 {
                assert(!leaf_key_lt(t1[k], t1[0]));
            }
        }
        let r1 = t1.drop_first();
        let r2 = t2.drop_first();
        assert(t1 =~= seq![a] + r1);
        assert(t2 =~= seq![b] + r2);
        r1.lemma_filter_prepend(a, has_key(a.function, a.index));
        r2.lemma_filter_prepend(b, has_key(a.function, a.index));
        assert(key_class(t1, a.function, a.index)[0] == a);
        assert(key_class(t2, a.function, a.index)[0] == b);
        assert forall|f: u32, i: u32| #[trigger] key_class(r1, f, i) == key_class(r2, f, i) by {
            r1.lemma_filter_prepend(a, has_key(f, i));
            r2.lemma_filter_prepend(b, has_key(f, i));
            assert(key_class(t1, f, i) == key_class(t2, f, i));
            if f == a.function && i == a.index {
                assert(key_class(r1, f, i) =~= key_class(t1, f, i).drop_first());
                assert(key_class(r2, f, i) =~= key_class(t2, f, i).drop_first());
            } else {
                assert(key_class(r1, f, i) =~= key_class(t1, f, i));
                assert(key_class(r2, f, i) =~= key_class(t2, f, i));
            }
        }
        assert forall|p: int, q: int| 0 <= p < q < r1.len() implies !leaf_key_lt(
            #[trigger] r1[q],
            #[trigger] r1[p],
        ) by {
            assert(r1[q] == t1[q + 1] && r1[p] == t1[p + 1]);
        }
        assert forall|p: int, q: int| 0 <= p < q < r2.len() implies !leaf_key_lt(
            #[trigger] r2[q],
            #[trigger] r2[p],
        ) by {
            assert(r2[q] == t2[q + 1] && r2[p] == t2[p + 1]);
        }
        lemma_sorted_same_classes_equal(r1, r2);
    }
}

/// Inserting `e` in front of the first leaf keyed above it appends `e` to
/// its own key class and leaves every other class alone.
proof fn lemma_insert_keeps_classes(before: Seq<CpuidLeaf>, p: int, e: CpuidLeaf, f: u32, i: u32)
    requires
        leaves_sorted(before),
        0 <= p <= before.len(),
        p < before.len() ==> leaf_key_lt(e, before[p]),
    ensures
        key_class(before.insert(p, e), f, i) == if has_key(f, i)(e) {
            key_class(before, f, i).push(e)
        } else {
            key_class(before, f, i)
        },
{
    let pred = has_key(f, i);
    let head = before.take(p);
    let tail = before.skip(p);
    assert(before =~= head + tail);
    assert(before.insert(p, e) =~= head + (seq![e] + tail));
    Seq::filter_distributes_over_add(head, tail, pred);
    Seq::filter_distributes_over_add(head, seq![e] + tail, pred);
    tail.lemma_filter_prepend(e, pred);
    if pred(e) {
        if tail.filter(pred).len() > 0 {
            let x = tail.filter(pred)[0];
            tail.lemma_filter_pred(pred, 0);
            assert(tail.filter(pred).contains(x));
            tail.lemma_filter_contains_rev(pred, x);
            let m = choose|m: int| 0 <= m < tail.len() && tail[m] == x;
            assert(tail[m] == before[p + m]);
            if m > 0 {
                assert(!leaf_key_lt(before[p + m], before[p]));
            }
            assert(leaf_key_lt(e, x));
        }
        assert(tail.filter(pred) =~= Seq::<CpuidLeaf>::empty());
        assert(key_class(before.insert(p, e), f, i) =~= key_class(before, f, i).push(e));
    } else {
        assert(key_class(before.insert(p, e), f, i) =~= key_class(before, f, i));
    }
}

/// A stable sort has one outcome: two stable (function, index) orderings
/// of the same table are the same sequence.
pub proof fn lemma_stable_sort_unique(t1: Seq<CpuidLeaf>, t2: Seq<CpuidLeaf>, s: Seq<CpuidLeaf>)
    requires
        stable_sort_of(t1, s),
        stable_sort_of(t2, s),
    ensures
        t1 == t2,
{
    assert forall|f: u32, i: u32| #[trigger] key_class(t1, f, i) == key_class(t2, f, i) by {
        assert(key_class(t1, f, i) == key_class(s, f, i));
        assert(key_class(t2, f, i) == key_class(s, f, i));
    }
    lemma_sorted_same_classes_equal(t1, t2);
}

proof fn lemma_unique_keys_distinct(t: Seq<CpuidLeaf>, i: int, j: int)
    requires
        unique_keys(t.to_multiset()),
        0 <= i < j < t.len(),
    ensures
        t[i].function != t[j].function || t[i].index != t[j].index,
{
    broadcast use vstd::seq_lib::group_to_multiset_ensures;

    let m = t.to_multiset();
    if t[i].function == t[j].function && t[i].index == t[j].index {
        assert(t.contains(t[i]));
        assert(t.contains(t[j]));
        assert(m.count(t[i]) > 0 && m.count(t[j]) > 0);
        assert(t[i] == t[j] && m.count(t[i]) == 1);
        let r = t.remove(i);
        assert(r[j - 1] == t[j]);
        assert(r.contains(t[j]));
        assert(r.to_multiset() == m.remove(t[i]));
        assert(r.to_multiset().count(t[i]) == 0);
    }
}

proof fn lemma_sorted_permutation_unique(t1: Seq<CpuidLeaf>, t2: Seq<CpuidLeaf>)
    requires
        leaves_sorted(t1),
        leaves_sorted(t2),
        t1.to_multiset() == t2.to_multiset(),
        unique_keys(t1.to_multiset()),
    ensures
        t1 == t2,
    decreases t1.len(),
{
    broadcast use vstd::seq_lib::group_to_multiset_ensures;

    let m = t1.to_multiset();
    assert(t1.to_multiset().len() == t1.len());
    assert(t2.to_multiset().len() == t2.len());
    assert(t1.len() == t2.len());
    if t1.len() > 0 {
        let a = t1[0];
        let b = t2[0];
        assert(t2.contains(b));
        assert(t2.to_multiset().count(b) > 0);
        assert(t1.to_multiset().count(b) > 0);
        assert(t1.contains(b));
        let j = choose|j: int| 0 <= j < t1.len() && t1[j] == b;
        assert(t1.contains(a));
        assert(t1.to_multiset().count(a) > 0);
        assert(t2.to_multiset().count(a) > 0);
        assert(t2.contains(a));
        let k = choose|k: int| 0 <= k < t2.len() && t2[k] == a;
        if j > 0 {
            assert(!leaf_key_lt(t1[j], t1[0]));
        }
        if k > 0 {
            assert(!leaf_key_lt(t2[k], t2[0]));
        }
        assert(a.function == b.function && a.index == b.index);
        if j > 0 {
            lemma_unique_keys_distinct(t1, 0, j);
        }
        assert(a == b);
        let r1 = t1.remove(0);
        let r2 = t2.remove(0);
        assert(r1.to_multiset() == m.remove(a));
        assert(r2.to_multiset() == m.remove(a));
        assert forall|x: CpuidLeaf, y: CpuidLeaf|
            #![trigger r1.to_multiset().count(x), r1.to_multiset().count(y)]
            r1.to_multiset().count(x) > 0 && r1.to_multiset().count(y) > 0 && x.function
                == y.function && x.index == y.index implies x == y && r1.to_multiset().count(x)
            == 1 by {
            assert(m.count(x) > 0 && m.count(y) > 0);
        }
        assert forall|p: int, q: int| 0 <= p < q < r1.len() implies !leaf_key_lt(
            #[trigger] r1[q],
            #[trigger] r1[p],
        ) by {
            assert(r1[q] == t1[q + 1] && r1[p] == t1[p + 1]);
        }
        assert forall|p: int, q: int| 0 <= p < q < r2.len() implies !leaf_key_lt(
            #[trigger] r2[q],
            #[trigger] r2[p],
        ) by {
            assert(r2[q] == t2[q + 1] && r2[p] == t2[p + 1]);
        }
        lemma_sorted_permutation_unique(r1, r2);
        assert(t1 =~= seq![a] + r1);
        assert(t2 =~= seq![a] + r2);
    } else {
        assert(t1 =~= t2);
    }
}

/// Canonical hash of a CPUID table: the leaves stably ordered by
/// (function, index), then hashed over their canonical encoding. A table
/// whose keys are unique hashes by its entries alone, whatever their order.
pub fn cpuid_table_hash(entries: &[CpuidLeaf]) -> (r: [u8; 32])
    ensures
        r@ == blake3_digest(leaves_bytes(stably_sorted(entries@))),
        unique_keys(entries@.to_multiset()) ==> r@ == blake3_digest(
            leaves_bytes(canonical_table(entries@.to_multiset())),
        ),
{
    let leaves = to_leaves(entries);
    let r = crate::config::cpuid_leaves_hash(leaves.as_slice());
    proof {
        if unique_keys(entries@.to_multiset()) {
            let c = canonical_table(entries@.to_multiset());
            assert(leaves_sorted(c) && c.to_multiset() == entries@.to_multiset());
            lemma_sorted_permutation_unique(leaves@, c);
        }
    }
    r
}

/// The mask is idempotent on a leaf.
pub proof fn lemma_mask_leaf_idempotent(e: CpuidLeaf)
    ensures
        spec_mask_leaf(spec_mask_leaf(e)) == spec_mask_leaf(e),
{
    let (a, b, c) = (e.ebx, e.ecx, e.edx);
    assert((b & !L1_ECX_MASK) & !L1_ECX_MASK == b & !L1_ECX_MASK) by (bit_vector);
    assert((c & !L1_EDX_MASK) & !L1_EDX_MASK == c & !L1_EDX_MASK) by (bit_vector);
    assert((a & 0x00FF_FFFFu32) & 0x00FF_FFFFu32 == a & 0x00FF_FFFFu32) by (bit_vector);
    assert((a & !L7_EBX_MASK) & !L7_EBX_MASK == a & !L7_EBX_MASK) by (bit_vector);
    assert((b & !L7_ECX_WAITPKG) & !L7_ECX_WAITPKG == b & !L7_ECX_WAITPKG) by (bit_vector);
    assert((c & !L7_EDX_ARCH_CAPABILITIES) & !L7_EDX_ARCH_CAPABILITIES == c
        & !L7_EDX_ARCH_CAPABILITIES) by (bit_vector);
    assert((c & !L8_1_EDX_RDTSCP) & !L8_1_EDX_RDTSCP == c & !L8_1_EDX_RDTSCP) by (bit_vector);
    assert((c & !L8_7_EDX_INVTSC) & !L8_7_EDX_INVTSC == c & !L8_7_EDX_INVTSC) by (bit_vector);
}

/// Masking a masked table changes nothing: the mask is a fixed point, so
/// a masked table (and its hash) is stable under re-masking.
pub proof fn lemma_mask_idempotent(t: Seq<CpuidLeaf>)
    ensures
        spec_masked(spec_masked(t)) == spec_masked(t),
    decreases t.len(),
{
    if t.len() > 0 {
        lemma_mask_idempotent(t.drop_last());
        let m = spec_masked(t.drop_last());
        if !is_paravirt(t.last().function) {
            lemma_mask_leaf_idempotent(t.last());
            let x = spec_mask_leaf(t.last());
            assert(m.push(x).drop_last() =~= m);
            assert(spec_masked(m.push(x)) == spec_masked(m).push(spec_mask_leaf(x)));
        }
    }
}

/// `r` is `x` with the bits of `m` cleared and every other bit kept.
pub open spec fn cleared_only(r: u32, x: u32, m: u32) -> bool {
    r & m == 0 && r | m == x | m
}

/// No host-dependent bit survives the mask, and nothing else changes: leaf
/// 1 loses the listed ECX and EDX features and its APIC-ID byte; the
/// thermal, PMU, topology, XSAVE, frequency and hybrid leaves read all
/// zero; leaf 7 subleaf 0 loses RDSEED, AVX2, AVX-512, WAITPKG and
/// ARCH_CAPABILITIES; 0x8000_0001 loses RDTSCP and 0x8000_0007 the
/// invariant TSC; every other leaf passes unchanged, and no leaf changes
/// its function, index or flags.
pub proof fn lemma_mask_clears_host_bits(e: CpuidLeaf)
    ensures
        ({
            let r = spec_mask_leaf(e);
            &&& r.function == e.function && r.index == e.index && r.flags == e.flags
            &&& (e.function == 1 ==> {
                &&& cleared_only(r.ecx, e.ecx, L1_ECX_MASK)
                &&& cleared_only(r.edx, e.edx, L1_EDX_MASK)
                &&& cleared_only(r.ebx, e.ebx, 0xFF00_0000u32)
                &&& r.eax == e.eax
            })
            &&& (e.function == 6 || e.function == 0xA || e.function == 0xB || e.function == 0x1F
                || e.function == 0xD || e.function == 0x15 || e.function == 0x16 || e.function
                == 0x1A ==> r.eax == 0 && r.ebx == 0 && r.ecx == 0 && r.edx == 0)
            &&& (e.function == 7 && e.index == 0 ==> {
                &&& cleared_only(r.ebx, e.ebx, L7_EBX_MASK)
                &&& cleared_only(r.ecx, e.ecx, L7_ECX_WAITPKG)
                &&& cleared_only(r.edx, e.edx, L7_EDX_ARCH_CAPABILITIES)
                &&& r.eax == e.eax
            })
            &&& (e.function == 0x8000_0001 ==> {
                &&& cleared_only(r.edx, e.edx, L8_1_EDX_RDTSCP)
                &&& r.eax == e.eax && r.ebx == e.ebx && r.ecx == e.ecx
            })
            &&& (e.function == 0x8000_0007 ==> {
                &&& cleared_only(r.edx, e.edx, L8_7_EDX_INVTSC)
                &&& r.eax == e.eax && r.ebx == e.ebx && r.ecx == e.ecx
            })
            &&& (!(e.function == 1 || e.function == 6 || e.function == 0xA || e.function == 0xB
                || e.function == 0x1F || e.function == 0xD || e.function == 0x15 || e.function
                == 0x16 || e.function == 0x1A || (e.function == 7 && e.index == 0) || e.function
                == 0x8000_0001 || e.function == 0x8000_0007) ==> r == e)
        }),
{
    let (a, b, c) = (e.ebx, e.ecx, e.edx);
    assert(cleared_only(b & !L1_ECX_MASK, b, L1_ECX_MASK)) by (bit_vector);
    assert(cleared_only(c & !L1_EDX_MASK, c, L1_EDX_MASK)) by (bit_vector);
    assert(cleared_only(a & 0x00FF_FFFFu32, a, 0xFF00_0000u32)) by (bit_vector);
    assert(cleared_only(a & !L7_EBX_MASK, a, L7_EBX_MASK)) by (bit_vector);
    assert(cleared_only(b & !L7_ECX_WAITPKG, b, L7_ECX_WAITPKG)) by (bit_vector);
    assert(cleared_only(c & !L7_EDX_ARCH_CAPABILITIES, c, L7_EDX_ARCH_CAPABILITIES)) by (bit_vector);
    assert(cleared_only(c & !L8_1_EDX_RDTSCP, c, L8_1_EDX_RDTSCP)) by (bit_vector);
    assert(cleared_only(c & !L8_7_EDX_INVTSC, c, L8_7_EDX_INVTSC)) by (bit_vector);
}

/// The masked table drops exactly the KVM paravirt leaves
/// (0x4000_0000..0x4000_0100): none is left, none of the others is lost
/// (each appears masked), and the table never grows.
pub proof fn lemma_masked_table(t: Seq<CpuidLeaf>)
    ensures
        spec_masked(t).len() <= t.len(),
        forall|j: int|
            0 <= j < spec_masked(t).len() ==> !(0x4000_0000 <= #[trigger] spec_masked(t)[j].function
                < 0x4000_0100),
        forall|i: int|
            0 <= i < t.len() && !(0x4000_0000 <= t[i].function < 0x4000_0100) ==> spec_masked(
                t,
            ).contains(spec_mask_leaf(#[trigger] t[i])),
    decreases t.len(),
{
    if t.len() > 0 {
        let d = t.drop_last();
        lemma_masked_table(d);
        let m = spec_masked(d);
        assert forall|i: int|
            0 <= i < t.len() && !(0x4000_0000 <= t[i].function < 0x4000_0100) implies spec_masked(
            t,
        ).contains(spec_mask_leaf(#[trigger] t[i])) by {
            if i < t.len() - 1 {
                assert(d[i] == t[i]);
                assert(m.contains(spec_mask_leaf(d[i])));
                let j = choose|j: int| 0 <= j < m.len() && m[j] == spec_mask_leaf(d[i]);
                if !is_paravirt(t.last().function) {
                    assert(spec_masked(t)[j] == m[j]);
                }
            } else {
                assert(spec_masked(t)[m.len() as int] == spec_mask_leaf(t[i]));
            }
        }
        assert forall|j: int|
            0 <= j < spec_masked(t).len() implies !(0x4000_0000 <= #[trigger] spec_masked(t)[j].function
            < 0x4000_0100) by {
            if j < m.len() {
                assert(spec_masked(t)[j] == m[j]);
            } else {
                lemma_mask_clears_host_bits(t.last());
            }
        }
    }
}

} // verus!
