//! The canonical vCPU blob of a state-hash link: the non-XSAVE register
//! state serialized field by field, little-endian (never raw structure
//! memory: padding is not machine state), then the captured MSRs with
//! IA32_TSC in normalized form (vns).

use crate::boot::SegmentDescriptor;
use crate::codec::{le16, le32, le64, push_bytes, push_le16, push_le32, push_le64};
use crate::kvm::KvmError;
use crate::msr::{
    MSR_CSTAR, MSR_EFER, MSR_FS_BASE, MSR_GS_BASE, MSR_KERNEL_GS_BASE, MSR_LSTAR, MSR_PAT,
    MSR_SFMASK, MSR_SPEC_CTRL, MSR_STAR, MSR_SYSENTER_CS, MSR_SYSENTER_EIP, MSR_SYSENTER_ESP,
    MSR_TSC_AUX,
};
use crate::text::{decimal_string, hex_string, spec_decimal, spec_hex};
use vstd::prelude::*;

verus! {

/// The MSR capture list of the vCPU blob, in blob order. IA32_TSC is not
/// read: its normalized slot goes in before the last entry.
pub open spec fn msr_capture_list() -> Seq<u32> {
    seq![
        MSR_EFER,
        MSR_STAR,
        MSR_LSTAR,
        MSR_CSTAR,
        MSR_SFMASK,
        MSR_KERNEL_GS_BASE,
        MSR_FS_BASE,
        MSR_GS_BASE,
        MSR_SYSENTER_CS,
        MSR_SYSENTER_ESP,
        MSR_SYSENTER_EIP,
        MSR_PAT,
        MSR_TSC_AUX,
        MSR_SPEC_CTRL,
    ]
}

pub const MSR_CAPTURE_COUNT: usize = 14;

/// Position in the capture list before which the normalized IA32_TSC slot
/// is emitted (right after TSC_AUX).
pub const TSC_SLOT_AT: usize = 13;

/// IA32_TSC.
pub const MSR_IA32_TSC: u32 = 0x10;

/// The MSR capture list, to read in this order.
pub fn msr_capture_list_vec() -> (r: Vec<u32>)
    ensures
        r@ == msr_capture_list(),
{
    let v = vec![
        MSR_EFER,
        MSR_STAR,
        MSR_LSTAR,
        MSR_CSTAR,
        MSR_SFMASK,
        MSR_KERNEL_GS_BASE,
        MSR_FS_BASE,
        MSR_GS_BASE,
        MSR_SYSENTER_CS,
        MSR_SYSENTER_ESP,
        MSR_SYSENTER_EIP,
        MSR_PAT,
        MSR_TSC_AUX,
        MSR_SPEC_CTRL,
    ];
    assert(v@ =~= msr_capture_list());
    v
}

/// General-purpose registers, RIP and RFLAGS.
#[derive(Clone, Copy, Debug, PartialEq, Eq, Structural)]
pub struct GeneralRegisters {
    pub rax: u64,
    pub rbx: u64,
    pub rcx: u64,
    pub rdx: u64,
    pub rsi: u64,
    pub rdi: u64,
    pub rsp: u64,
    pub rbp: u64,
    pub r8: u64,
    pub r9: u64,
    pub r10: u64,
    pub r11: u64,
    pub r12: u64,
    pub r13: u64,
    pub r14: u64,
    pub r15: u64,
    pub rip: u64,
    pub rflags: u64,
}

/// Segment registers, descriptor tables and control registers.
#[derive(Clone, Copy, Debug, PartialEq, Eq)]
pub struct SystemRegisters {
    pub cs: SegmentDescriptor,
    pub ds: SegmentDescriptor,
    pub es: SegmentDescriptor,
    pub fs: SegmentDescriptor,
    pub gs: SegmentDescriptor,
    pub ss: SegmentDescriptor,
    pub tr: SegmentDescriptor,
    pub ldt: SegmentDescriptor,
    pub gdt_base: u64,
    pub gdt_limit: u16,
    pub idt_base: u64,
    pub idt_limit: u16,
    pub cr0: u64,
    pub cr2: u64,
    pub cr3: u64,
    pub cr4: u64,
    pub cr8: u64,
    pub efer: u64,
    pub apic_base: u64,
    pub interrupt_bitmap: [u64; 4],
}

/// x87/SSE state: the eight x87 registers and the sixteen XMM registers as
/// 16-byte rows, laid end to end.
#[derive(Clone, Copy, Debug, PartialEq, Eq)]
pub struct FpuRegisters {
    pub fpr: [u8; 128],
    pub fcw: u16,
    pub fsw: u16,
    pub ftwx: u8,
    pub last_opcode: u16,
    pub last_ip: u64,
    pub last_dp: u64,
    pub xmm: [u8; 256],
}

/// Pending exception, interrupt, NMI and SMI state.
#[derive(Clone, Copy, Debug, PartialEq, Eq, Structural)]
pub struct PendingEvents {
    pub exception_injected: u8,
    pub exception_nr: u8,
    pub exception_has_error_code: u8,
    pub exception_pending: u8,
    pub exception_error_code: u32,
    pub interrupt_injected: u8,
    pub interrupt_nr: u8,
    pub interrupt_soft: u8,
    pub interrupt_shadow: u8,
    pub nmi_injected: u8,
    pub nmi_pending: u8,
    pub nmi_masked: u8,
    pub sipi_vector: u32,
    pub flags: u32,
    pub smi_smm: u8,
    pub smi_pending: u8,
    pub smi_smm_inside_nmi: u8,
    pub smi_latched_init: u8,
    pub triple_fault_pending: u8,
}

/// Debug registers.
#[derive(Clone, Copy, Debug, PartialEq, Eq)]
pub struct DebugRegisters {
    pub db: [u64; 4],
    pub dr6: u64,
    pub dr7: u64,
    pub flags: u64,
}

pub open spec fn segment_bytes(s: SegmentDescriptor) -> Seq<u8> {
    le64(s.base) + le32(s.limit) + le16(s.selector) + seq![
        s.type_,
        s.present,
        s.dpl,
        s.db,
        s.s,
        s.l,
        s.g,
        s.avl,
        s.unusable,
    ]
}

pub open spec fn general_bytes(r: GeneralRegisters) -> Seq<u8> {
    le64(r.rax) + le64(r.rbx) + le64(r.rcx) + le64(r.rdx) + le64(r.rsi) + le64(r.rdi) + le64(r.rsp)
        + le64(r.rbp) + le64(r.r8) + le64(r.r9) + le64(r.r10) + le64(r.r11) + le64(r.r12) + le64(
        r.r13,
    ) + le64(r.r14) + le64(r.r15) + le64(r.rip) + le64(r.rflags)
}

pub open spec fn segments_bytes(s: SystemRegisters) -> Seq<u8> {
    segment_bytes(s.cs) + segment_bytes(s.ds) + segment_bytes(s.es) + segment_bytes(s.fs)
        + segment_bytes(s.gs) + segment_bytes(s.ss) + segment_bytes(s.tr) + segment_bytes(s.ldt)
}

pub open spec fn control_bytes(s: SystemRegisters) -> Seq<u8> {
    le64(s.gdt_base) + le16(s.gdt_limit) + le64(s.idt_base) + le16(s.idt_limit) + le64(s.cr0)
        + le64(s.cr2) + le64(s.cr3) + le64(s.cr4) + le64(s.cr8) + le64(s.efer) + le64(s.apic_base)
        + le64(s.interrupt_bitmap[0]) + le64(s.interrupt_bitmap[1]) + le64(s.interrupt_bitmap[2])
        + le64(s.interrupt_bitmap[3])
}

pub open spec fn system_bytes(s: SystemRegisters) -> Seq<u8> {
    segments_bytes(s) + control_bytes(s)
}

pub open spec fn fpu_bytes(f: FpuRegisters) -> Seq<u8> {
    f.fpr@ + le16(f.fcw) + le16(f.fsw) + seq![f.ftwx] + le16(f.last_opcode) + le64(f.last_ip)
        + le64(f.last_dp) + f.xmm@
}

pub open spec fn events_bytes(e: PendingEvents) -> Seq<u8> {
    seq![e.exception_injected, e.exception_nr, e.exception_has_error_code, e.exception_pending]
        + le32(e.exception_error_code) + seq![
        e.interrupt_injected,
        e.interrupt_nr,
        e.interrupt_soft,
        e.interrupt_shadow,
        e.nmi_injected,
        e.nmi_pending,
        e.nmi_masked,
    ] + le32(e.sipi_vector) + le32(e.flags) + seq![
        e.smi_smm,
        e.smi_pending,
        e.smi_smm_inside_nmi,
        e.smi_latched_init,
        e.triple_fault_pending,
    ]
}

pub open spec fn debug_bytes(d: DebugRegisters) -> Seq<u8> {
    le64(d.db[0]) + le64(d.db[1]) + le64(d.db[2]) + le64(d.db[3]) + le64(d.dr6) + le64(d.dr7)
        + le64(d.flags)
}

/// The MSR part of the blob: `le32(index) || le64(value)` per captured MSR,
/// with the normalized IA32_TSC record (value `vns`) before entry
/// `TSC_SLOT_AT`.
pub open spec fn msr_blob(msrs: Seq<(u32, u64)>, vns: u64) -> Seq<u8>
    decreases msrs.len(),
{
    if msrs.len() == 0 {
        Seq::empty()
    } else {
        let i = msrs.len() - 1;
        msr_blob(msrs.drop_last(), vns) + (if i == TSC_SLOT_AT {
            le32(MSR_IA32_TSC) + le64(vns)
        } else {
            Seq::empty()
        }) + le32(msrs[i].0) + le64(msrs[i].1)
    }
}

/// The canonical vCPU blob.
pub open spec fn spec_vcpu_blob(
    regs: GeneralRegisters,
    sregs: SystemRegisters,
    fpu: FpuRegisters,
    mxcsr: u32,
    events: PendingEvents,
    dbg: DebugRegisters,
    msrs: Seq<(u32, u64)>,
    vns: u64,
) -> Seq<u8> {
    general_bytes(regs) + system_bytes(sregs) + fpu_bytes(fpu) + le32(mxcsr) + events_bytes(events)
        + debug_bytes(dbg) + msr_blob(msrs, vns)
}

/// The message for a capture that read only `read` of the listed MSRs.
pub open spec fn short_msr_read_message(read: nat) -> Seq<char> {
    "KVM_GET_MSRS returned "@ + spec_decimal(read) + "/14 entries (first unreadable MSR "@ + "0x"@
        + spec_hex(msr_capture_list()[read as int] as nat) + ")"@
}

fn push_segment(out: &mut Vec<u8>, s: &SegmentDescriptor)
    ensures
        final(out)@ == old(out)@ + segment_bytes(*s),
{
    let ghost start = out@;
    push_le64(out, s.base);
    push_le32(out, s.limit);
    push_le16(out, s.selector);
    out.push(s.type_);
    out.push(s.present);
    out.push(s.dpl);
    out.push(s.db);
    out.push(s.s);
    out.push(s.l);
    out.push(s.g);
    out.push(s.avl);
    out.push(s.unusable);
    assert(out@ =~= start + segment_bytes(*s));
}

fn push_general(out: &mut Vec<u8>, r: &GeneralRegisters)
    ensures
        final(out)@ == old(out)@ + general_bytes(*r),
{
    let ghost start = out@;
    push_le64(out, r.rax);
    push_le64(out, r.rbx);
    push_le64(out, r.rcx);
    push_le64(out, r.rdx);
    push_le64(out, r.rsi);
    push_le64(out, r.rdi);
    push_le64(out, r.rsp);
    push_le64(out, r.rbp);
    push_le64(out, r.r8);
    push_le64(out, r.r9);
    push_le64(out, r.r10);
    push_le64(out, r.r11);
    push_le64(out, r.r12);
    push_le64(out, r.r13);
    push_le64(out, r.r14);
    push_le64(out, r.r15);
    push_le64(out, r.rip);
    push_le64(out, r.rflags);
    assert(out@ =~= start + general_bytes(*r));
}

fn push_segments(out: &mut Vec<u8>, s: &SystemRegisters)
    ensures
        final(out)@ == old(out)@ + segments_bytes(*s),
{
    let ghost start = out@;
    push_segment(out, &s.cs);
    push_segment(out, &s.ds);
    push_segment(out, &s.es);
    push_segment(out, &s.fs);
    push_segment(out, &s.gs);
    push_segment(out, &s.ss);
    push_segment(out, &s.tr);
    push_segment(out, &s.ldt);
    assert(out@ =~= start + segments_bytes(*s));
}

fn push_system(out: &mut Vec<u8>, s: &SystemRegisters)
    ensures
        final(out)@ == old(out)@ + system_bytes(*s),
{
    let ghost start = out@;
    push_segments(out, s);
    let ghost mid = out@;
    push_le64(out, s.gdt_base);
    push_le16(out, s.gdt_limit);
    push_le64(out, s.idt_base);
    push_le16(out, s.idt_limit);
    push_le64(out, s.cr0);
    push_le64(out, s.cr2);
    push_le64(out, s.cr3);
    push_le64(out, s.cr4);
    push_le64(out, s.cr8);
    push_le64(out, s.efer);
    push_le64(out, s.apic_base);
    push_le64(out, s.interrupt_bitmap[0]);
    push_le64(out, s.interrupt_bitmap[1]);
    push_le64(out, s.interrupt_bitmap[2]);
    push_le64(out, s.interrupt_bitmap[3]);
    assert(out@ =~= mid + control_bytes(*s));
    assert(out@ =~= start + system_bytes(*s));
}

fn push_fpu(out: &mut Vec<u8>, f: &FpuRegisters)
    ensures
        final(out)@ == old(out)@ + fpu_bytes(*f),
{
    let ghost start = out@;
    push_bytes(out, f.fpr.as_slice());
    push_le16(out, f.fcw);
    push_le16(out, f.fsw);
    out.push(f.ftwx);
    push_le16(out, f.last_opcode);
    push_le64(out, f.last_ip);
    push_le64(out, f.last_dp);
    push_bytes(out, f.xmm.as_slice());
    assert(out@ =~= start + fpu_bytes(*f));
}

fn push_events(out: &mut Vec<u8>, e: &PendingEvents)
    ensures
        final(out)@ == old(out)@ + events_bytes(*e),
{
    let ghost start = out@;
    out.push(e.exception_injected);
    out.push(e.exception_nr);
    out.push(e.exception_has_error_code);
    out.push(e.exception_pending);
    push_le32(out, e.exception_error_code);
    out.push(e.interrupt_injected);
    out.push(e.interrupt_nr);
    out.push(e.interrupt_soft);
    out.push(e.interrupt_shadow);
    out.push(e.nmi_injected);
    out.push(e.nmi_pending);
    out.push(e.nmi_masked);
    push_le32(out, e.sipi_vector);
    push_le32(out, e.flags);
    out.push(e.smi_smm);
    out.push(e.smi_pending);
    out.push(e.smi_smm_inside_nmi);
    out.push(e.smi_latched_init);
    out.push(e.triple_fault_pending);
    assert(out@ =~= start + events_bytes(*e));
}

fn push_debug(out: &mut Vec<u8>, d: &DebugRegisters)
    ensures
        final(out)@ == old(out)@ + debug_bytes(*d),
{
    let ghost start = out@;
    push_le64(out, d.db[0]);
    push_le64(out, d.db[1]);
    push_le64(out, d.db[2]);
    push_le64(out, d.db[3]);
    push_le64(out, d.dr6);
    push_le64(out, d.dr7);
    push_le64(out, d.flags);
    assert(out@ =~= start + debug_bytes(*d));
}

/// Serialize the vCPU state read at a boundary into the canonical blob.
/// `msrs` are the capture-list entries as read, of which the first `read`
/// were readable (the read stops at the first unreadable MSR and never
/// returns more than it was asked for). A short read is refused, naming
/// the first unreadable MSR; `vns` fills the IA32_TSC slot.
pub fn canonical_vcpu_blob(
    regs: &GeneralRegisters,
    sregs: &SystemRegisters,
    fpu: &FpuRegisters,
    mxcsr: u32,
    events: &PendingEvents,
    dbg: &DebugRegisters,
    msrs: &[(u32, u64)],
    read: usize,
    vns: u64,
) -> (r: Result<Vec<u8>, KvmError>)
    requires
        read <= MSR_CAPTURE_COUNT,
    ensures
        read < MSR_CAPTURE_COUNT ==> (r matches Err(KvmError::Open(m)) && m@
            == short_msr_read_message(read as nat)),
        read == MSR_CAPTURE_COUNT ==> (r matches Ok(blob) && blob@ == spec_vcpu_blob(
            *regs,
            *sregs,
            *fpu,
            mxcsr,
            *events,
            *dbg,
            msrs@,
            vns,
        )),
{
    if read != MSR_CAPTURE_COUNT {
        let list = msr_capture_list_vec();
        let m = String::from_str("KVM_GET_MSRS returned ").concat(decimal_string(read as u64).as_str()).concat(
            "/14 entries (first unreadable MSR ",
        ).concat(hex_string(list[read] as u64).as_str()).concat(")");
        proof {
            assert(m@ =~= short_msr_read_message(read as nat));
        }
        return Err(KvmError::Open(m));
    }
    let mut out: Vec<u8> = Vec::new();
    push_general(&mut out, regs);
    push_system(&mut out, sregs);
    push_fpu(&mut out, fpu);
    push_le32(&mut out, mxcsr);
    push_events(&mut out, events);
    push_debug(&mut out, dbg);
    let ghost head = out@;
    let mut i: usize = 0;
    assert(msrs@.subrange(0, 0) =~= Seq::<(u32, u64)>::empty());
    while i < msrs.len()
        invariant
            i <= msrs@.len(),
            out@ == head + msr_blob(msrs@.subrange(0, i as int), vns),
        decreases msrs@.len() - i,
    {
        let ghost before = out@;
        if i == TSC_SLOT_AT {
            push_le32(&mut out, MSR_IA32_TSC);
            push_le64(&mut out, vns);
        }
        let (index, data) = msrs[i];
        push_le32(&mut out, index);
        push_le64(&mut out, data);
        proof {
            let sub = msrs@.subrange(0, i + 1);
            assert(sub.drop_last() =~= msrs@.subrange(0, i as int));
            assert(sub[i as int] == msrs@[i as int]);
            assert(out@ =~= head + msr_blob(sub, vns));
        }
        i = i + 1;
    }
    assert(msrs@.subrange(0, msrs@.len() as int) =~= msrs@);
    assert(out@ =~= spec_vcpu_blob(*regs, *sregs, *fpu, mxcsr, *events, *dbg, msrs@, vns));
    Ok(out)
}

/// The (index, value) records of `msrs`, in order, with no TSC slot.
pub open spec fn msr_records(msrs: Seq<(u32, u64)>) -> Seq<u8>
    decreases msrs.len(),
{
    if msrs.len() == 0 {
        Seq::empty()
    } else {
        msr_records(msrs.drop_last()) + le32(msrs.last().0) + le64(msrs.last().1)
    }
}

/// Everything of the blob before the MSR records.
pub open spec fn blob_registers(
    regs: GeneralRegisters,
    sregs: SystemRegisters,
    fpu: FpuRegisters,
    mxcsr: u32,
    events: PendingEvents,
    dbg: DebugRegisters,
) -> Seq<u8> {
    general_bytes(regs) + system_bytes(sregs) + fpu_bytes(fpu) + le32(mxcsr) + events_bytes(events)
        + debug_bytes(dbg)
}

proof fn lemma_msr_blob_before_slot(msrs: Seq<(u32, u64)>, vns: u64)
    requires
        msrs.len() <= TSC_SLOT_AT,
    ensures
        msr_blob(msrs, vns) == msr_records(msrs),
    decreases msrs.len(),
{
    if msrs.len() > 0 {
        lemma_msr_blob_before_slot(msrs.drop_last(), vns);
        assert(msr_blob(msrs, vns) =~= msr_records(msrs));
    }
}

proof fn lemma_msr_blob_split(msrs: Seq<(u32, u64)>, vns: u64)
    requires
        msrs.len() > TSC_SLOT_AT,
    ensures
        msr_blob(msrs, vns) == msr_records(msrs.take(TSC_SLOT_AT as int)) + le32(MSR_IA32_TSC)
            + le64(vns) + msr_records(msrs.skip(TSC_SLOT_AT as int)),
    decreases msrs.len(),
{
    let t = TSC_SLOT_AT as int;
    let d = msrs.drop_last();
    let last = msrs.last();
    if msrs.len() == t + 1 {
        assert(d =~= msrs.take(t));
        lemma_msr_blob_before_slot(d, vns);
        assert(msrs.skip(t).drop_last() =~= Seq::<(u32, u64)>::empty());
        assert(msrs.skip(t).last() == last);
        assert(msr_records(msrs.skip(t).drop_last()) =~= Seq::<u8>::empty());
        assert(msr_records(msrs.skip(t)) =~= le32(last.0) + le64(last.1));
        assert(msr_blob(msrs, vns) =~= msr_records(msrs.take(t)) + le32(MSR_IA32_TSC) + le64(vns)
            + msr_records(msrs.skip(t)));
    } else {
        lemma_msr_blob_split(d, vns);
        assert(d.take(t) =~= msrs.take(t));
        assert(msrs.skip(t).drop_last() =~= d.skip(t));
        assert(msrs.skip(t).last() == last);
        assert(msr_blob(msrs, vns) =~= msr_records(msrs.take(t)) + le32(MSR_IA32_TSC) + le64(vns)
            + msr_records(msrs.skip(t)));
    }
}

/// The blob depends on `vns` only through its normalized IA32_TSC record:
/// the registers and the MSR records before the TSC slot, then
/// `le32(0x10) ++ le64(vns)`, then the MSR records from the slot on. Two
/// captures of the same vCPU state at different vns differ exactly there.
pub proof fn lemma_blob_vns_only_in_tsc_record(
    regs: GeneralRegisters,
    sregs: SystemRegisters,
    fpu: FpuRegisters,
    mxcsr: u32,
    events: PendingEvents,
    dbg: DebugRegisters,
    msrs: Seq<(u32, u64)>,
    vns: u64,
)
    requires
        msrs.len() > TSC_SLOT_AT,
    ensures
        spec_vcpu_blob(regs, sregs, fpu, mxcsr, events, dbg, msrs, vns) == blob_registers(
            regs,
            sregs,
            fpu,
            mxcsr,
            events,
            dbg,
        ) + msr_records(msrs.take(TSC_SLOT_AT as int)) + le32(MSR_IA32_TSC) + le64(vns)
            + msr_records(msrs.skip(TSC_SLOT_AT as int)),
{
    lemma_msr_blob_split(msrs, vns);
    assert(spec_vcpu_blob(regs, sregs, fpu, mxcsr, events, dbg, msrs, vns) =~= blob_registers(
        regs,
        sregs,
        fpu,
        mxcsr,
        events,
        dbg,
    ) + msr_records(msrs.take(TSC_SLOT_AT as int)) + le32(MSR_IA32_TSC) + le64(vns) + msr_records(
        msrs.skip(TSC_SLOT_AT as int),
    ));
}

} // verus!
