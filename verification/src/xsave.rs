//! XSAVE canonicalization: a pure byte transform that makes blob equality
//! coincide with equality of logical FPU/vector state.
//!
//! Standard-format XSAVE area: the legacy region `[0, 512)` holds x87 state
//! at `[0, 24)` and `[32, 160)` (component bit 0), MXCSR/MXCSR_MASK at
//! `[24, 32)` (not governed by any bit) and XMM0..15 at `[160, 416)`
//! (component bit 1); the XSAVE header `[512, 576)` holds XSTATE_BV at 512
//! and XCOMP_BV at 520; extended components (bits >= 2) sit at
//! CPUID(0xD)-enumerated offsets passed in as a table.
//!
//! Canonical form is all zero except: MXCSR always; the x87 area iff the
//! normalized bit 0 is set; the XMM area iff normalized bit 1 is set; each
//! extended area iff its normalized bit is set; the header with XSTATE_BV
//! normalized (a set bit whose area holds the init pattern becomes clear)
//! and XCOMP_BV zero.

use crate::codec::{le64, u64_at};
use vstd::prelude::*;

verus! {

/// One extended component (bit >= 2) from CPUID leaf 0xD enumeration.
#[derive(Clone, Copy, Debug, PartialEq, Eq, Structural)]
pub struct XsaveComponent {
    pub bit: u32,
    pub offset: usize,
    pub size: usize,
}

#[derive(Clone, Copy, Debug, PartialEq, Eq, Structural)]
pub enum XsaveError {
    /// Area shorter than legacy region plus header (576 bytes).
    TooShort { len: usize },
    /// An extended component's area falls outside the buffer.
    ComponentOutOfBounds { bit: u32 },
    /// XCOMP_BV bit 63 set: a compacted-format area.
    CompactedFormat,
}

pub const XSAVE_HEADER_OFFSET: usize = 512;

pub const XSAVE_MIN_LEN: usize = 576;

/// Extended components whose all-zero area is their init state.
pub const ZERO_INIT_BITS: u64 = 0xe4;

pub open spec fn all_zero(a: Seq<u8>, from: int, to: int) -> bool {
    forall|i: int| from <= i < to ==> #[trigger] a[i] == 0
}

/// The architectural x87 init pattern: FCW = 0x037F, everything else of
/// the x87 area zero.
pub open spec fn spec_x87_init(a: Seq<u8>) -> bool {
    &&& a[0] == 0x7f
    &&& a[1] == 0x03
    &&& all_zero(a, 2, 24)
    &&& all_zero(a, 32, 160)
}

pub open spec fn bit_set(v: u64, bit: u32) -> bool {
    v & (1u64 << bit) != 0
}

/// XSTATE_BV with the legacy bits normalized.
pub open spec fn legacy_canon_bv(a: Seq<u8>) -> u64 {
    let bv = u64_at(a, 512);
    let b0 = if bv & 1 != 0 && spec_x87_init(a) {
        bv & !1u64
    } else {
        bv
    };
    if bv & 2 != 0 && all_zero(a, 160, 416) {
        b0 & !2u64
    } else {
        b0
    }
}

/// Extended component `c` is set in `bv` but its area is the init pattern.
pub open spec fn ext_cleared(a: Seq<u8>, c: XsaveComponent, bv: u64) -> bool {
    &&& bit_set(bv, c.bit)
    &&& bit_set(ZERO_INIT_BITS, c.bit)
    &&& all_zero(a, c.offset as int, c.offset + c.size)
}

/// Extended component `c` is set in `bv` and its area is kept.
pub open spec fn ext_kept(a: Seq<u8>, c: XsaveComponent, bv: u64) -> bool {
    bit_set(bv, c.bit) && !ext_cleared(a, c, bv)
}

/// The normalized XSTATE_BV after the first `n` extended components.
pub open spec fn canon_bv_upto(a: Seq<u8>, ext: Seq<XsaveComponent>, n: int) -> u64
    decreases n,
{
    if n <= 0 {
        legacy_canon_bv(a)
    } else {
        let prev = canon_bv_upto(a, ext, n - 1);
        if ext_cleared(a, ext[n - 1], u64_at(a, 512)) {
            prev & !(1u64 << ext[n - 1].bit)
        } else {
            prev
        }
    }
}

pub open spec fn spec_canon_bv(a: Seq<u8>, ext: Seq<XsaveComponent>) -> u64 {
    canon_bv_upto(a, ext, ext.len() as int)
}

/// Byte `i` of the area survives canonicalization.
pub open spec fn kept_byte(a: Seq<u8>, ext: Seq<XsaveComponent>, i: int) -> bool {
    let cbv = spec_canon_bv(a, ext);
    ||| 24 <= i < 32
    ||| cbv & 1 != 0 && (0 <= i < 24 || 32 <= i < 160)
    ||| cbv & 2 != 0 && 160 <= i < 416
    ||| exists|j: int|
        0 <= j < ext.len() && ext_kept(a, #[trigger] ext[j], u64_at(a, 512)) && ext[j].offset <= i
            < ext[j].offset + ext[j].size
}

/// The canonical form of a well-formed area.
pub open spec fn spec_canonical(a: Seq<u8>, ext: Seq<XsaveComponent>) -> Seq<u8> {
    Seq::new(
        a.len(),
        |i: int|
            if 512 <= i < 520 {
                le64(spec_canon_bv(a, ext))[i - 512]
            } else if 520 <= i < 528 {
                0u8
            } else if kept_byte(a, ext, i) {
                a[i]
            } else {
                0u8
            },
    )
}

pub open spec fn ext_out_of_bounds(c: XsaveComponent, len: int) -> bool {
    c.offset + c.size > len
}

/// The bit of the first extended component from index `k` on whose area
/// ends past `len`.
pub open spec fn first_out_of_bounds(ext: Seq<XsaveComponent>, len: int, k: int) -> Option<u32>
    decreases ext.len() - k,
{
    if k < 0 || k >= ext.len() {
        None
    } else if ext_out_of_bounds(ext[k], len) {
        Some(ext[k].bit)
    } else {
        first_out_of_bounds(ext, len, k + 1)
    }
}

/// Why an area cannot be canonicalized, checked in order: its length, its
/// format, then the first extended component outside it.
pub open spec fn spec_xsave_error(a: Seq<u8>, ext: Seq<XsaveComponent>) -> Option<XsaveError> {
    if a.len() < XSAVE_MIN_LEN {
        Some(XsaveError::TooShort { len: a.len() as usize })
    } else if u64_at(a, 520) >> 63u64 != 0 {
        Some(XsaveError::CompactedFormat)
    } else {
        match first_out_of_bounds(ext, a.len() as int, 0) {
            Some(bit) => Some(XsaveError::ComponentOutOfBounds { bit }),
            None => None,
        }
    }
}

proof fn lemma_no_oob_means_in_bounds(ext: Seq<XsaveComponent>, len: int, k: int)
    requires
        0 <= k,
        first_out_of_bounds(ext, len, k) is None,
    ensures
        forall|t: int| k <= t < ext.len() ==> !ext_out_of_bounds(#[trigger] ext[t], len),
    decreases ext.len() - k,
{
    if k < ext.len() {
        lemma_no_oob_means_in_bounds(ext, len, k + 1);
    }
}

/// Extended components name bits 2..63.
pub open spec fn ext_bits_ok(ext: Seq<XsaveComponent>) -> bool {
    forall|j: int| 0 <= j < ext.len() ==> 2 <= #[trigger] ext[j].bit < 64
}

/// The components reached from index `k` on name admissible bits: each
/// reached component names a bit of 2 or more, and one inside the area
/// (whose bit is then tested) a bit below 64. The walk stops at the first
/// component outside the area, which is refused whatever its bit.
pub open spec fn reached_bits_ok(ext: Seq<XsaveComponent>, len: int, k: int) -> bool
    decreases ext.len() - k,
{
    if k < 0 || k >= ext.len() {
        true
    } else if ext[k].bit < 2 {
        false
    } else if ext_out_of_bounds(ext[k], len) {
        true
    } else {
        ext[k].bit < 64 && reached_bits_ok(ext, len, k + 1)
    }
}

/// A table whose components all name bits 2..63 meets `canonicalize`'s
/// precondition on every area.
pub proof fn lemma_bits_ok_reached(ext: Seq<XsaveComponent>, len: int, k: int)
    requires
        0 <= k,
        ext_bits_ok(ext),
    ensures
        reached_bits_ok(ext, len, k),
    decreases ext.len() - k,
{
    if k < ext.len() {
        lemma_bits_ok_reached(ext, len, k + 1);
    }
}

/// XSTATE_BV: the little-endian word at offset 512.
pub fn xstate_bv(area: &[u8]) -> (r: Result<u64, XsaveError>)
    ensures
        area@.len() < XSAVE_MIN_LEN ==> r == Err::<u64, XsaveError>(
            XsaveError::TooShort { len: area@.len() as usize },
        ),
        area@.len() >= XSAVE_MIN_LEN ==> r == Ok::<u64, XsaveError>(u64_at(area@, 512)),
{
    if area.len() < XSAVE_MIN_LEN {
        return Err(XsaveError::TooShort { len: area.len() });
    }
    Ok(crate::codec::read_le64(area, 512))
}

fn range_all_zero(a: &[u8], from: usize, to: usize) -> (r: bool)
    requires
        from <= to <= a@.len(),
    ensures
        r == all_zero(a@, from as int, to as int),
{
    let mut i = from;
    while i < to
        invariant
            from <= i <= to <= a@.len(),
            all_zero(a@, from as int, i as int),
        decreases to - i,
    {
        if a[i] != 0 {
            return false;
        }
        i = i + 1;
    }
    true
}

/// The x87 area holds the architectural init pattern.
fn is_x87_init(area: &[u8]) -> (r: bool)
    requires
        area@.len() >= 160,
    ensures
        r == spec_x87_init(area@),
{
    area[0] == 0x7f && area[1] == 0x03 && range_all_zero(area, 2, 24) && range_all_zero(
        area,
        32,
        160,
    )
}

/// Canonicalize `area` in place; on an error it is left untouched.
pub fn canonicalize(area: &mut [u8], extended: &[XsaveComponent]) -> (r: Result<(), XsaveError>)
    requires
        old(area)@.len() >= XSAVE_MIN_LEN && u64_at(old(area)@, 520) >> 63u64 == 0
            ==> reached_bits_ok(extended@, old(area)@.len() as int, 0),
    ensures
        match spec_xsave_error(old(area)@, extended@) {
            Some(e) => r == Err::<(), XsaveError>(e) && final(area)@ == old(area)@,
            None => r == Ok::<(), XsaveError>(()) && final(area)@ == spec_canonical(
                old(area)@,
                extended@,
            ),
        },
{
    let ghost a = area@;
    let n = area.len();
    let bv = match xstate_bv(area) {
        Ok(v) => v,
        Err(e) => return Err(e),
    };
    let xcomp_bv = crate::codec::read_le64(area, 520);
    if xcomp_bv >> 63u64 != 0 {
        return Err(XsaveError::CompactedFormat);
    }
    let mut canon_bv = bv;
    if bv & 1 != 0 && is_x87_init(area) {
        canon_bv = canon_bv & !1u64;
    }
    if bv & 2 != 0 && range_all_zero(area, 160, 416) {
        canon_bv = canon_bv & !2u64;
    }
    assert(canon_bv == canon_bv_upto(a, extended@, 0));
    let mut kept: Vec<bool> = Vec::new();
    let mut j: usize = 0;
    while j < extended.len()
        invariant
            a == area@,
            n == a.len(),
            n >= XSAVE_MIN_LEN,
            bv == u64_at(a, 512),
            u64_at(a, 520) >> 63u64 == 0,
            reached_bits_ok(extended@, n as int, j as int),
            forall|k: int| 0 <= k < j ==> 2 <= #[trigger] extended@[k].bit < 64,
            j <= extended@.len(),
            canon_bv == canon_bv_upto(a, extended@, j as int),
            first_out_of_bounds(extended@, n as int, 0) == first_out_of_bounds(
                extended@,
                n as int,
                j as int,
            ),
            forall|k: int| 0 <= k < j ==> !ext_out_of_bounds(#[trigger] extended@[k], n as int),
            kept@.len() == j,
            forall|k: int| 0 <= k < j ==> #[trigger] kept@[k] == ext_kept(a, extended@[k], bv),
        decreases extended@.len() - j,
    {
        let c = extended[j];
        if c.size > n || c.offset > n - c.size {
            return Err(XsaveError::ComponentOutOfBounds { bit: c.bit });
        }
        let end = c.offset + c.size;
        let mask = 1u64 << c.bit;
        let mut keep_it = false;
        if bv & mask != 0 {
            if ZERO_INIT_BITS & mask != 0 && range_all_zero(area, c.offset, end) {
                canon_bv = canon_bv & !mask;
            } else {
                keep_it = true;
            }
        }
        kept.push(keep_it);
        j = j + 1;
    }
    proof {
        lemma_no_oob_means_in_bounds(extended@, n as int, 0);
        assert(ext_bits_ok(extended@));
    }
    let cbv = canon_bv;
    let m = extended.len();
    let mut canon: Vec<u8> = Vec::new();
    let mut i: usize = 0;
    while i < n
        invariant
            a == area@,
            n == a.len(),
            n >= XSAVE_MIN_LEN,
            bv == u64_at(a, 512),
            cbv == spec_canon_bv(a, extended@),
            m == extended@.len(),
            kept@.len() == m,
            forall|k: int| 0 <= k < m ==> #[trigger] kept@[k] == ext_kept(a, extended@[k], bv),
            forall|k: int| 0 <= k < m ==> !ext_out_of_bounds(#[trigger] extended@[k], n as int),
            i <= n,
            canon@.len() == i,
            forall|t: int| 0 <= t < i ==> #[trigger] canon@[t] == spec_canonical(a, extended@)[t],
        decreases n - i,
    {
        let b: u8 = if 512 <= i && i < 520 {
            crate::codec::le64_byte(cbv, i - 512)
        } else if 520 <= i && i < 528 {
            0
        } else {
            let fixed = (24 <= i && i < 32) || (cbv & 1 != 0 && (i < 24 || (32 <= i && i < 160)))
                || (cbv & 2 != 0 && 160 <= i && i < 416);
            let mut in_ext = false;
            let mut q: usize = 0;
            while q < m
                invariant
                    m == extended@.len(),
                    kept@.len() == m,
                    q <= m,
                    forall|k: int| 0 <= k < m ==> #[trigger] kept@[k] == ext_kept(a, extended@[k], bv),
                    in_ext <==> exists|t: int|
                        0 <= t < q && ext_kept(a, #[trigger] extended@[t], bv)
                            && extended@[t].offset <= i < extended@[t].offset + extended@[t].size,
                decreases m - q,
            {
                let c = extended[q];
                if kept[q] && c.offset <= i && i - c.offset < c.size {
                    in_ext = true;
                }
                q = q + 1;
            }
            if fixed || in_ext {
                area[i]
            } else {
                0
            }
        };
        canon.push(b);
        i = i + 1;
    }
    let mut p: usize = 0;
    while p < n
        invariant
            n == area@.len(),
            n == canon@.len(),
            p <= n,
            forall|t: int| 0 <= t < n ==> #[trigger] canon@[t] == spec_canonical(a, extended@)[t],
            forall|t: int| 0 <= t < p ==> #[trigger] area@[t] == canon@[t],
        decreases n - p,
    {
        area[p] = canon[p];
        p = p + 1;
    }
    assert(area@ =~= spec_canonical(a, extended@));
    Ok(())
}


/// No two extended components name the same bit.
pub open spec fn ext_bits_distinct(ext: Seq<XsaveComponent>) -> bool {
    forall|j: int, k: int| 0 <= j < k < ext.len() ==> #[trigger] ext[j].bit != #[trigger] ext[k].bit
}

/// No extended component covers the header words XSTATE_BV and XCOMP_BV
/// (bytes 512..528), which canonicalization rewrites.
pub open spec fn ext_clear_of_header_words(ext: Seq<XsaveComponent>) -> bool {
    forall|j: int|
        0 <= j < ext.len() ==> #[trigger] ext[j].offset + ext[j].size <= 512 || ext[j].offset >= 528
}

proof fn lemma_bit_clear(x: u64, b: u32, c: u32)
    requires
        b < 64,
        c < 64,
    ensures
        bit_set(x & !(1u64 << c), b) == (bit_set(x, b) && b != c),
{
    assert((x & !(1u64 << c)) & (1u64 << b) != 0 <==> (x & (1u64 << b) != 0 && b != c))
        by (bit_vector)
        requires
            b < 64,
            c < 64,
    ;
}

proof fn lemma_legacy_bits(a: Seq<u8>, b: u32)
    requires
        b < 64,
    ensures
        b >= 2 ==> bit_set(legacy_canon_bv(a), b) == bit_set(u64_at(a, 512), b),
        b == 0 ==> bit_set(legacy_canon_bv(a), b) == (u64_at(a, 512) & 1 != 0 && !spec_x87_init(a)),
        b == 1 ==> bit_set(legacy_canon_bv(a), b) == (u64_at(a, 512) & 2 != 0 && !all_zero(
            a,
            160,
            416,
        )),
        legacy_canon_bv(a) & 1 != 0 <==> bit_set(legacy_canon_bv(a), 0),
        legacy_canon_bv(a) & 2 != 0 <==> bit_set(legacy_canon_bv(a), 1),
{
    let bv = u64_at(a, 512);
    assert(1u64 << 0u32 == 1u64) by (bit_vector);
    assert(1u64 << 1u32 == 2u64) by (bit_vector);
    let b0 = if bv & 1 != 0 && spec_x87_init(a) {
        bv & !1u64
    } else {
        bv
    };
    lemma_bit_clear(bv, b, 0);
    lemma_bit_clear(bv, 0, 0);
    lemma_bit_clear(bv, 1, 0);
    lemma_bit_clear(b0, b, 1);
    lemma_bit_clear(b0, 0, 1);
    lemma_bit_clear(b0, 1, 1);
}

proof fn lemma_canon_bits(a: Seq<u8>, ext: Seq<XsaveComponent>, n: int, b: u32)
    requires
        ext_bits_ok(ext),
        0 <= n <= ext.len(),
        b < 64,
    ensures
        bit_set(canon_bv_upto(a, ext, n), b) == (bit_set(legacy_canon_bv(a), b) && !(exists|t: int|
            0 <= t < n && #[trigger] ext[t].bit == b && ext_cleared(a, ext[t], u64_at(a, 512)))),
    decreases n,
{
    if n > 0 {
        lemma_canon_bits(a, ext, n - 1, b);
        let prev = canon_bv_upto(a, ext, n - 1);
        if ext_cleared(a, ext[n - 1], u64_at(a, 512)) {
            lemma_bit_clear(prev, b, ext[n - 1].bit);
        }
    }
}

proof fn lemma_upto_no_clear(a: Seq<u8>, ext: Seq<XsaveComponent>, n: int)
    requires
        0 <= n <= ext.len(),
        forall|t: int| 0 <= t < n ==> !ext_cleared(a, #[trigger] ext[t], u64_at(a, 512)),
    ensures
        canon_bv_upto(a, ext, n) == legacy_canon_bv(a),
    decreases n,
{
    if n > 0 {
        lemma_upto_no_clear(a, ext, n - 1);
    }
}

/// Canonicalization is idempotent: a canonical area is its own canonical
/// form (for a table of distinct components that leave the header words
/// alone).
pub proof fn lemma_canonical_idempotent(a: Seq<u8>, ext: Seq<XsaveComponent>)
    requires
        spec_xsave_error(a, ext) is None,
        ext_bits_ok(ext),
        ext_bits_distinct(ext),
        ext_clear_of_header_words(ext),
    ensures
        spec_xsave_error(spec_canonical(a, ext), ext) is None,
        spec_canonical(spec_canonical(a, ext), ext) == spec_canonical(a, ext),
{
    let c = spec_canonical(a, ext);
    let bv = u64_at(a, 512);
    let cbv = spec_canon_bv(a, ext);
    assert(1u64 << 0u32 == 1u64) by (bit_vector);
    assert(1u64 << 1u32 == 2u64) by (bit_vector);
    lemma_no_oob_means_in_bounds(ext, a.len() as int, 0);
    assert(c.subrange(512, 520) =~= le64(cbv));
    crate::codec::lemma_le64_roundtrip(cbv);
    let z = c.subrange(520, 528);
    let (z0, z1, z2, z3, z4, z5, z6, z7) = (z[0], z[1], z[2], z[3], z[4], z[5], z[6], z[7]);
    assert(z0 == 0 && z1 == 0 && z2 == 0 && z3 == 0 && z4 == 0 && z5 == 0 && z6 == 0 && z7 == 0);
    assert((z0 as u64) | ((z1 as u64) << 8u64) | ((z2 as u64) << 16u64) | ((z3 as u64) << 24u64)
        | ((z4 as u64) << 32u64) | ((z5 as u64) << 40u64) | ((z6 as u64) << 48u64) | ((
    z7 as u64) << 56u64) == 0) by (bit_vector)
        requires
            z0 == 0 && z1 == 0 && z2 == 0 && z3 == 0 && z4 == 0 && z5 == 0 && z6 == 0 && z7 == 0,
    ;
    assert(u64_at(c, 520) == 0);
    assert((0u64 >> 63u64) == 0) by (bit_vector);
    assert(first_out_of_bounds(ext, c.len() as int, 0) == first_out_of_bounds(ext, a.len() as int, 0));
    assert(u64_at(c, 512) == cbv);
    // Kept bytes are unchanged.
    assert forall|i: int| 0 <= i < a.len() && !(512 <= i < 528) && kept_byte(a, ext, i) implies c[i]
        == a[i] by {}
    // The legacy decisions are the same on the canonical area.
    lemma_legacy_bits(a, 0);
    lemma_legacy_bits(a, 1);
    lemma_canon_bits(a, ext, ext.len() as int, 0);
    lemma_canon_bits(a, ext, ext.len() as int, 1);
    lemma_legacy_bits(c, 0);
    lemma_legacy_bits(c, 1);
    // No extended component is cleared on the canonical area, and each is
    // kept there exactly when it was kept on the input area.
    assert forall|t: int| 0 <= t < ext.len() implies !ext_cleared(c, #[trigger] ext[t], cbv)
        && (ext_kept(c, ext[t], cbv) == ext_kept(a, ext[t], bv)) by {
        let b = ext[t].bit;
        lemma_canon_bits(a, ext, ext.len() as int, b);
        lemma_legacy_bits(a, b);
        assert(forall|i: int|
            ext[t].offset <= i < ext[t].offset + ext[t].size ==> #[trigger] c[i] == a[i]
                || !kept_byte(a, ext, i));
        if bit_set(cbv, b) {
            assert(!ext_cleared(a, ext[t], bv));
            assert(ext_kept(a, ext[t], bv));
            assert(forall|i: int|
                ext[t].offset <= i < ext[t].offset + ext[t].size ==> kept_byte(a, ext, i));
            assert(forall|i: int|
                ext[t].offset <= i < ext[t].offset + ext[t].size ==> #[trigger] c[i] == a[i]);
            assert(all_zero(c, ext[t].offset as int, ext[t].offset + ext[t].size) == all_zero(
                a,
                ext[t].offset as int,
                ext[t].offset + ext[t].size,
            ));
        } else {
            if ext_kept(a, ext[t], bv) {
                assert(bit_set(bv, b));
                assert(!(exists|k: int|
                    0 <= k < ext.len() && #[trigger] ext[k].bit == b && ext_cleared(a, ext[k], bv)))
                    by {
                    if exists|k: int|
                        0 <= k < ext.len() && #[trigger] ext[k].bit == b && ext_cleared(a, ext[k], bv) {
                        let k = choose|k: int|
                            0 <= k < ext.len() && #[trigger] ext[k].bit == b && ext_cleared(
                                a,
                                ext[k],
                                bv,
                            );
                        assert(k == t);
                    }
                }
            }
        }
    }
    lemma_upto_no_clear(c, ext, ext.len() as int);
    // The legacy bits survive unchanged.
    lemma_canon_bits(a, ext, ext.len() as int, 0);
    lemma_canon_bits(a, ext, ext.len() as int, 1);
    lemma_legacy_bits(a, 0);
    lemma_legacy_bits(a, 1);
    if cbv & 1 != 0 {
        assert(spec_x87_init(c) == spec_x87_init(a));
    }
    if cbv & 2 != 0 {
        assert(forall|i: int| 160 <= i < 416 ==> #[trigger] c[i] == a[i]);
        assert(all_zero(c, 160, 416) == all_zero(a, 160, 416));
    }
    assert(legacy_canon_bv(c) == cbv);
    assert(spec_canon_bv(c, ext) == cbv);
    assert forall|i: int| 0 <= i < a.len() implies kept_byte(c, ext, i) == kept_byte(a, ext, i) by {
        if kept_byte(a, ext, i) && !(24 <= i < 32) && !(cbv & 1 != 0 && (0 <= i < 24 || 32 <= i
            < 160)) && !(cbv & 2 != 0 && 160 <= i < 416) {
            let j = choose|j: int|
                0 <= j < ext.len() && ext_kept(a, #[trigger] ext[j], bv) && ext[j].offset <= i
                    < ext[j].offset + ext[j].size;
            assert(ext_kept(c, ext[j], cbv));
        }
        if kept_byte(c, ext, i) && !(24 <= i < 32) && !(cbv & 1 != 0 && (0 <= i < 24 || 32 <= i
            < 160)) && !(cbv & 2 != 0 && 160 <= i < 416) {
            let j = choose|j: int|
                0 <= j < ext.len() && ext_kept(c, #[trigger] ext[j], cbv) && ext[j].offset <= i
                    < ext[j].offset + ext[j].size;
            assert(ext_kept(a, ext[j], bv));
        }
    }
    assert(spec_canonical(c, ext) =~= c);
}


/// `core::arch::x86_64::__cpuid_count(0xD, subleaf)`: the CPUID
/// instruction for leaf 0xD (the XSAVE state enumeration) and `subleaf`,
/// as (EAX, EBX, ECX, EDX). What it returns depends on the machine;
/// nothing is stated of it.
#[verifier::external_body]
fn cpuid_leaf_d(subleaf: u32) -> (r: (u32, u32, u32, u32)) {
    let c = core::arch::x86_64::__cpuid_count(0xD, subleaf);
    (c.eax, c.ebx, c.ecx, c.edx)
}

/// XCR0's support mask from subleaf 0 of leaf 0xD: EDX is its high half,
/// EAX its low half.
pub open spec fn spec_leaf_d_support(eax: u32, edx: u32) -> u64 {
    (eax as u64) | ((edx as u64) << 32u64)
}

/// The support mask EDX:EAX.
pub fn leaf_d_support(eax: u32, edx: u32) -> (r: u64)
    ensures
        r == spec_leaf_d_support(eax, edx),
        r == eax as int + edx as int * 0x1_0000_0000,
{
    let r = (eax as u64) | ((edx as u64) << 32u64);
    assert((eax as u64) | ((edx as u64) << 32u64) == eax as u64 + (edx as u64) * 0x1_0000_0000u64)
        by (bit_vector);
    r
}

/// Bit `b` is an extended component (2..63) that XCR0 supports: its
/// subleaf is queried.
pub open spec fn is_query_bit(supported: u64, b: int) -> bool {
    2 <= b < 64 && supported & (1u64 << (b as u64)) != 0
}

/// The subleaves to query: every supported bit from 2 to 63, ascending.
pub fn leaf_d_queries(supported: u64) -> (r: Vec<u32>)
    ensures
        forall|j: int, k: int| 0 <= j < k < r@.len() ==> #[trigger] r@[j] < #[trigger] r@[k],
        forall|j: int| 0 <= j < r@.len() ==> is_query_bit(supported, #[trigger] r@[j] as int),
        forall|b: u32| is_query_bit(supported, b as int) ==> #[trigger] r@.contains(b),
{
    let mut out: Vec<u32> = Vec::new();
    let mut bit: u32 = 2;
    while bit < 64
        invariant
            2 <= bit <= 64,
            forall|j: int, k: int| 0 <= j < k < out@.len() ==> #[trigger] out@[j] < #[trigger] out@[k],
            forall|j: int| 0 <= j < out@.len() ==> is_query_bit(supported, #[trigger] out@[j] as int)
                && out@[j] < bit,
            forall|b: u32| b < bit && is_query_bit(supported, b as int) ==> #[trigger] out@.contains(b),
        decreases 64 - bit,
    {
        if supported & (1u64 << bit) != 0 {
            let ghost before = out@;
            out.push(bit);
            proof {
                assert forall|b: u32| b < bit + 1 && is_query_bit(supported, b as int) implies #[trigger] out@.contains(b) by {
                    if b < bit {
                        assert(before.contains(b));
                        let j = choose|j: int| 0 <= j < before.len() && before[j] == b;
                        assert(out@[j] == b);
                    } else {
                        assert(out@[before.len() as int] == b);
                    }
                }
            }
        }
        bit = bit + 1;
    }
    out
}

/// The component that subleaf `b` of CPUID leaf 0xD describes, when XCR0
/// supports bit `b` and the subleaf reports a nonzero size.
pub open spec fn leaf_d_component(supported: u64, subleaves: Seq<(u32, u32)>, b: int) -> Option<
    XsaveComponent,
> {
    if supported & (1u64 << (b as u64)) != 0 && subleaves[b].0 != 0 {
        Some(XsaveComponent { bit: b as u32, offset: subleaves[b].1 as usize, size: subleaves[b].0 as usize })
    } else {
        None
    }
}

/// The components of bits 2 up to (not including) `upto`, ascending.
pub open spec fn leaf_d_layout(supported: u64, subleaves: Seq<(u32, u32)>, upto: int) -> Seq<
    XsaveComponent,
>
    decreases upto,
{
    if upto <= 2 {
        Seq::empty()
    } else {
        let prev = leaf_d_layout(supported, subleaves, upto - 1);
        match leaf_d_component(supported, subleaves, upto - 1) {
            Some(c) => prev.push(c),
            None => prev,
        }
    }
}

proof fn lemma_leaf_d_layout_shape(supported: u64, subleaves: Seq<(u32, u32)>, upto: int)
    requires
        upto <= 64,
    ensures
        forall|j: int|
            0 <= j < leaf_d_layout(supported, subleaves, upto).len() ==> 2 <= #[trigger] leaf_d_layout(
                supported,
                subleaves,
                upto,
            )[j].bit < upto,
        forall|j: int, k: int|
            0 <= j < k < leaf_d_layout(supported, subleaves, upto).len() ==> #[trigger] leaf_d_layout(
                supported,
                subleaves,
                upto,
            )[j].bit < #[trigger] leaf_d_layout(supported, subleaves, upto)[k].bit,
        forall|j: int|
            0 <= j < leaf_d_layout(supported, subleaves, upto).len() ==> #[trigger] leaf_d_layout(
                supported,
                subleaves,
                upto,
            )[j].size > 0,
    decreases upto,
{
    if upto > 2 {
        lemma_leaf_d_layout_shape(supported, subleaves, upto - 1);
        let prev = leaf_d_layout(supported, subleaves, upto - 1);
        match leaf_d_component(supported, subleaves, upto - 1) {
            Some(c) => {
                assert(c.bit == upto - 1);
                assert(leaf_d_layout(supported, subleaves, upto) == prev.push(c));
            },
            None => {
                assert(leaf_d_layout(supported, subleaves, upto) == prev);
            },
        }
    }
}

/// The extended-component table that CPUID leaf 0xD describes: `supported`
/// is XCR0's support mask (EDX:EAX of subleaf 0) and `subleaves[b]` the
/// (EAX = size, EBX = offset) of subleaf `b`. Every supported bit from 2
/// to 63 whose size is nonzero gives a component, in ascending bit order.
pub fn layout_from_leaf_d(supported: u64, subleaves: &[(u32, u32)]) -> (r: Vec<XsaveComponent>)
    requires
        subleaves@.len() == 64,
    ensures
        r@ == leaf_d_layout(supported, subleaves@, 64),
        ext_bits_ok(r@),
        forall|j: int, k: int| 0 <= j < k < r@.len() ==> #[trigger] r@[j].bit < #[trigger] r@[k].bit,
        forall|j: int| 0 <= j < r@.len() ==> #[trigger] r@[j].size > 0,
{
    let mut out: Vec<XsaveComponent> = Vec::new();
    let mut bit: u32 = 2;
    while bit < 64
        invariant
            2 <= bit <= 64,
            subleaves@.len() == 64,
            out@ == leaf_d_layout(supported, subleaves@, bit as int),
        decreases 64 - bit,
    {
        let (eax, ebx) = subleaves[bit as usize];
        if supported & (1u64 << bit) != 0 && eax != 0 {
            out.push(XsaveComponent { bit, offset: ebx as usize, size: eax as usize });
        }
        bit = bit + 1;
    }
    proof {
        lemma_leaf_d_layout_shape(supported, subleaves@, 64);
    }
    out
}

/// The host's extended-component table: subleaf 0 of CPUID leaf 0xD gives
/// the support mask EDX:EAX, the subleaf of every supported bit from 2 to
/// 63 is read, and [`layout_from_leaf_d`] turns them into the table;
/// unsupported bits are not queried. What CPUID reports depends on the
/// machine, so the table is stated for whatever came back.
pub fn host_component_layout() -> (r: Vec<XsaveComponent>)
    ensures
        exists|eax0: u32, edx0: u32, subleaves: Seq<(u32, u32)>|
            {
                &&& subleaves.len() == 64
                &&& forall|b: int|
                    0 <= b < 64 && !is_query_bit(spec_leaf_d_support(eax0, edx0), b)
                        ==> #[trigger] subleaves[b] == (0u32, 0u32)
                &&& r@ == leaf_d_layout(spec_leaf_d_support(eax0, edx0), subleaves, 64)
            },
        ext_bits_ok(r@),
        forall|j: int, k: int| 0 <= j < k < r@.len() ==> #[trigger] r@[j].bit < #[trigger] r@[k].bit,
        forall|j: int| 0 <= j < r@.len() ==> #[trigger] r@[j].size > 0,
{
    let (eax0, _ebx0, _ecx0, edx0) = cpuid_leaf_d(0);
    let supported = leaf_d_support(eax0, edx0);
    let queries = leaf_d_queries(supported);
    let mut subleaves: Vec<(u32, u32)> = Vec::new();
    let mut b: usize = 0;
    while b < 64
        invariant
            b <= 64,
            subleaves@.len() == b,
            forall|t: int| 0 <= t < b ==> #[trigger] subleaves@[t] == (0u32, 0u32),
        decreases 64 - b,
    {
        subleaves.push((0, 0));
        b = b + 1;
    }
    let mut q: usize = 0;
    while q < queries.len()
        invariant
            q <= queries@.len(),
            subleaves@.len() == 64,
            forall|j: int| 0 <= j < queries@.len() ==> is_query_bit(supported, #[trigger] queries@[j] as int),
            forall|t: int| 0 <= t < 64 && !is_query_bit(supported, t) ==> #[trigger] subleaves@[t] == (0u32, 0u32),
        decreases queries@.len() - q,
    {
        let bit = queries[q];
        let (eax, ebx, _ecx, _edx) = cpuid_leaf_d(bit);
        subleaves.set(bit as usize, (eax, ebx));
        q = q + 1;
    }
    let r = layout_from_leaf_d(supported, subleaves.as_slice());
    assert(subleaves@.len() == 64 && r@ == leaf_d_layout(spec_leaf_d_support(eax0, edx0), subleaves@, 64));
    r
}

} // verus!
