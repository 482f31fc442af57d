//! The state-hash chain:
//!
//!   H_0   = BLAKE3("dh-statehash-v1" || machine_config_hash || base_snapshot_ref)
//!   H_i+1 = BLAKE3(H_i || le64(|vcpu blob|) || vcpu blob
//!                  || le64(|device sections|) || device sections
//!                  || for each page, ascending: le64(index) || 4096 bytes
//!                  || le64(icount) || le64(vns))
//!
//! The chain value, not just the last link, is the state hash: comparing
//! chains compares execution histories.
//!
//! The vCPU blob is the non-XSAVE register state serialized field by field,
//! little-endian (never raw structure memory: padding is not machine
//! state), with IA32_TSC in normalized form (vns).

use crate::codec::{le16, le32, le64, push_bytes, push_le16, push_le32, push_le64};

use crate::digest::{blake3_digest, blake3_hash};
use vstd::prelude::*;

pub mod vcpu_blob;

pub use vcpu_blob::{
    canonical_vcpu_blob, lemma_blob_vns_only_in_tsc_record, DebugRegisters, FpuRegisters,
    GeneralRegisters, PendingEvents,
    SystemRegisters,
};

verus! {

pub const PAGE_SIZE: usize = 4096;

/// `dh-statehash-v1`.
pub open spec fn chain_domain() -> Seq<u8> {
    seq![100u8, 104, 45, 115, 116, 97, 116, 101, 104, 97, 115, 104, 45, 118, 49]
}

/// The preimage of H_0.
pub open spec fn h0_preimage(machine_config_hash: Seq<u8>, base_snapshot_ref: Seq<u8>) -> Seq<u8> {
    chain_domain() + machine_config_hash + base_snapshot_ref
}

/// The page walk of one link: index then bytes, page after page.
pub open spec fn pages_bytes(pages: Seq<(u64, Seq<u8>)>) -> Seq<u8>
    decreases pages.len(),
{
    if pages.len() == 0 {
        Seq::empty()
    } else {
        pages_bytes(pages.drop_last()) + le64(pages.last().0) + pages.last().1
    }
}

/// The preimage of the link after `prev`.
pub open spec fn link_preimage(
    prev: Seq<u8>,
    vcpu_blob: Seq<u8>,
    device_sections: Seq<u8>,
    pages: Seq<(u64, Seq<u8>)>,
    icount: u64,
    vns: u64,
) -> Seq<u8> {
    prev + le64(vcpu_blob.len() as u64) + vcpu_blob + le64(device_sections.len() as u64)
        + device_sections + pages_bytes(pages) + le64(icount) + le64(vns)
}

/// Pages are whole and strictly ascending by index.
pub open spec fn pages_well_formed(pages: Seq<(u64, Seq<u8>)>) -> bool {
    &&& forall|i: int| 0 <= i < pages.len() ==> (#[trigger] pages[i]).1.len() == PAGE_SIZE
    &&& forall|i: int, j: int| 0 <= i < j < pages.len() ==> #[trigger] pages[i].0 < #[trigger] pages[j].0
}

/// The page list a caller passes, by value.
pub open spec fn pages_view(pages: Seq<(u64, &[u8])>) -> Seq<(u64, Seq<u8>)> {
    Seq::new(pages.len(), |i: int| (pages[i].0, pages[i].1@))
}

#[derive(Clone, Debug, PartialEq, Eq)]
pub struct StateHashChain {
    value: [u8; 32],
}

fn domain_vec() -> (r: Vec<u8>)
    ensures
        r@ == chain_domain(),
{
    let v = vec![100u8, 104, 45, 115, 116, 97, 116, 101, 104, 97, 115, 104, 45, 118, 49];
    assert(v@ =~= chain_domain());
    v
}

impl StateHashChain {
    /// The chain value (the state hash).
    pub closed spec fn spec_value(&self) -> Seq<u8> {
        self.value@
    }

    /// H_0 of a machine configuration and its base snapshot.
    pub fn new(machine_config_hash: &[u8; 32], base_snapshot_ref: &[u8; 32]) -> (r: Self)
        ensures
            r.spec_value() == blake3_digest(h0_preimage(machine_config_hash@, base_snapshot_ref@)),
    {
        let mut pre = domain_vec();
        push_bytes(&mut pre, machine_config_hash.as_slice());
        push_bytes(&mut pre, base_snapshot_ref.as_slice());
        StateHashChain { value: blake3_hash(pre.as_slice()) }
    }

    /// The chain value (the state hash).
    pub fn value(&self) -> (r: [u8; 32])
        ensures
            r@ == self.spec_value(),
    {
        self.value
    }

    /// Resume a chain from a checkpointed value: a restored or forked
    /// chain keeps its past.
    pub fn from_value(value: [u8; 32]) -> (r: Self)
        ensures
            r.spec_value() == value@,
    {
        StateHashChain { value }
    }

    /// Append one link from serialized parts. Pages must be whole (4096
    /// bytes) and come in strictly ascending index order.
    pub fn push_link(
        &mut self,
        vcpu_blob: &[u8],
        device_sections: &[u8],
        pages: &[(u64, &[u8])],
        icount: u64,
        vns: u64,
    )
        requires
            pages_well_formed(pages_view(pages@)),
        ensures
            final(self).spec_value() == blake3_digest(
                link_preimage(
                    old(self).spec_value(),
                    vcpu_blob@,
                    device_sections@,
                    pages_view(pages@),
                    icount,
                    vns,
                ),
            ),
    {
        let ghost pv = pages_view(pages@);
        let mut pre: Vec<u8> = Vec::new();
        push_bytes(&mut pre, self.value.as_slice());
        push_le64(&mut pre, vcpu_blob.len() as u64);
        push_bytes(&mut pre, vcpu_blob);
        push_le64(&mut pre, device_sections.len() as u64);
        push_bytes(&mut pre, device_sections);
        let ghost head = pre@;
        let mut k: usize = 0;
        assert(pv.subrange(0, 0) =~= Seq::<(u64, Seq<u8>)>::empty());
        while k < pages.len()
            invariant
                pv == pages_view(pages@),
                k <= pages@.len(),
                pre@ == head + pages_bytes(pv.subrange(0, k as int)),
            decreases pages@.len() - k,
        {
            let (idx, bytes) = pages[k];
            push_le64(&mut pre, idx);
            push_bytes(&mut pre, bytes);
            proof {
                assert(pv.subrange(0, k + 1).drop_last() =~= pv.subrange(0, k as int));
                assert(pre@ =~= head + pages_bytes(pv.subrange(0, k + 1)));
            }
            k = k + 1;
        }
        assert(pv.subrange(0, pv.len() as int) =~= pv);
        push_le64(&mut pre, icount);
        push_le64(&mut pre, vns);
        self.value = blake3_hash(pre.as_slice());
    }
}

/// One device's framed section: id, section version, length, bytes.
pub open spec fn device_frame(id: u16, version: u16, section: Seq<u8>) -> Seq<u8> {
    le16(id) + le16(version) + le32(section.len() as u32) + section
}

/// The device sections of a bus, framed in registration order.
pub open spec fn device_frames(devs: Seq<(u16, u16, Seq<u8>)>) -> Seq<u8>
    decreases devs.len(),
{
    if devs.len() == 0 {
        Seq::empty()
    } else {
        device_frames(devs.drop_last()) + device_frame(devs.last().0, devs.last().1, devs.last().2)
    }
}

pub open spec fn devices_view(devs: Seq<(u16, u16, Vec<u8>)>) -> Seq<(u16, u16, Seq<u8>)> {
    Seq::new(devs.len(), |i: int| (devs[i].0, devs[i].1, devs[i].2@))
}

/// Frame the device sections unambiguously: `(device id, section version,
/// length, bytes)` per device, in bus registration (base-address) order.
/// Each section is shorter than 4 GiB.
pub fn device_sections(devices: &[(u16, u16, Vec<u8>)]) -> (r: Vec<u8>)
    requires
        forall|i: int| 0 <= i < devices@.len() ==> (#[trigger] devices@[i]).2@.len() <= u32::MAX,
    ensures
        r@ == device_frames(devices_view(devices@)),
{
    let ghost dv = devices_view(devices@);
    let mut out: Vec<u8> = Vec::new();
    let mut k: usize = 0;
    assert(dv.subrange(0, 0) =~= Seq::<(u16, u16, Seq<u8>)>::empty());
    while k < devices.len()
        invariant
            dv == devices_view(devices@),
            forall|i: int| 0 <= i < devices@.len() ==> (#[trigger] devices@[i]).2@.len() <= u32::MAX,
            k <= devices@.len(),
            out@ == device_frames(dv.subrange(0, k as int)),
        decreases devices@.len() - k,
    {
        let (id, version, section) = &devices[k];
        push_le16(&mut out, *id);
        push_le16(&mut out, *version);
        push_le32(&mut out, section.len() as u32);
        push_bytes(&mut out, section.as_slice());
        proof {
            assert(dv.subrange(0, k + 1).drop_last() =~= dv.subrange(0, k as int));
            assert(out@ =~= device_frames(dv.subrange(0, k + 1)));
        }
        k = k + 1;
    }
    assert(dv.subrange(0, dv.len() as int) =~= dv);
    out
}

/// The length prefixes make a link's preimage unambiguous: two links after
/// the same value with equal preimages had the same vCPU blob, the same
/// device sections, the same page walk bytes and the same position.
#[verifier::spinoff_prover]
#[verifier::rlimit(40)]
pub proof fn lemma_link_preimage_unambiguous(
    prev: Seq<u8>,
    b1: Seq<u8>,
    d1: Seq<u8>,
    p1: Seq<(u64, Seq<u8>)>,
    i1: u64,
    n1: u64,
    b2: Seq<u8>,
    d2: Seq<u8>,
    p2: Seq<(u64, Seq<u8>)>,
    i2: u64,
    n2: u64,
)
    requires
        b1.len() <= u64::MAX,
        d1.len() <= u64::MAX,
        b2.len() <= u64::MAX,
        d2.len() <= u64::MAX,
        link_preimage(prev, b1, d1, p1, i1, n1) == link_preimage(prev, b2, d2, p2, i2, n2),
    ensures
        b1 == b2,
        d1 == d2,
        pages_bytes(p1) == pages_bytes(p2),
        i1 == i2,
        n1 == n2,
{
    let x = link_preimage(prev, b1, d1, p1, i1, n1);
    let y = link_preimage(prev, b2, d2, p2, i2, n2);
    let k = prev.len() as int;
    assert(x.subrange(k, k + 8) =~= le64(b1.len() as u64));
    assert(y.subrange(k, k + 8) =~= le64(b2.len() as u64));
    crate::codec::lemma_le64_injective(b1.len() as u64, b2.len() as u64);
    assert(b1.len() == b2.len());
    assert(x.subrange(k + 8, k + 8 + b1.len()) =~= b1);
    assert(y.subrange(k + 8, k + 8 + b2.len()) =~= b2);
    let k2 = k + 8 + b1.len();
    assert(x.subrange(k2, k2 + 8) =~= le64(d1.len() as u64));
    assert(y.subrange(k2, k2 + 8) =~= le64(d2.len() as u64));
    crate::codec::lemma_le64_injective(d1.len() as u64, d2.len() as u64);
    assert(d1.len() == d2.len());
    assert(x.subrange(k2 + 8, k2 + 8 + d1.len()) =~= d1);
    assert(y.subrange(k2 + 8, k2 + 8 + d2.len()) =~= d2);
    let k3 = k2 + 8 + d1.len();
    let e = x.len() as int;
    assert(x.subrange(e - 16, e - 8) =~= le64(i1));
    assert(y.subrange(e - 16, e - 8) =~= le64(i2));
    assert(x.subrange(e - 8, e) =~= le64(n1));
    assert(y.subrange(e - 8, e) =~= le64(n2));
    crate::codec::lemma_le64_injective(i1, i2);
    crate::codec::lemma_le64_injective(n1, n2);
    assert(x.subrange(k3, e - 16) =~= pages_bytes(p1));
    assert(y.subrange(k3, e - 16) =~= pages_bytes(p2));
}

} // verus!
