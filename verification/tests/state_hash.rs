use dh_vmm::boot::SegmentDescriptor;
use dh_vmm::hash::{
    canonical_vcpu_blob, device_sections, DebugRegisters, FpuRegisters, GeneralRegisters,
    PendingEvents, StateHashChain, SystemRegisters, PAGE_SIZE,
};
use dh_vmm::kvm::KvmError;

const MC: [u8; 32] = [7u8; 32];
const BASE: [u8; 32] = [9u8; 32];

#[test]
fn h0_is_deterministic_and_input_sensitive() {
    let a = StateHashChain::new(&MC, &BASE);
    let b = StateHashChain::new(&MC, &BASE);
    assert_eq!(a.value(), b.value());
    let c = StateHashChain::new(&[8u8; 32], &BASE);
    assert_ne!(a.value(), c.value());
}

#[test]
fn h0_is_blake3_of_the_domain_and_inputs() {
    let mut pre = b"dh-statehash-v1".to_vec();
    pre.extend_from_slice(&MC);
    pre.extend_from_slice(&BASE);
    let expected = *blake3::hash(&pre).as_bytes();
    assert_eq!(StateHashChain::new(&MC, &BASE).value(), expected);
}

fn link(c: &mut StateHashChain, blob: &[u8], pages: &[(u64, &[u8])], icount: u64, vns: u64) {
    c.push_link(blob, b"devs", pages, icount, vns);
}

#[test]
fn links_chain_and_every_input_matters() {
    let page_a = [1u8; PAGE_SIZE];
    let page_b = [2u8; PAGE_SIZE];
    let base = || {
        let mut c = StateHashChain::new(&MC, &BASE);
        link(&mut c, b"vcpu", &[(0u64, &page_a[..]), (5u64, &page_b[..])], 100, 200);
        c
    };
    let reference = base().value();
    assert_eq!(base().value(), reference, "deterministic");

    let mut two = base();
    link(&mut two, b"vcpu", &[(0u64, &page_a[..]), (5u64, &page_b[..])], 100, 200);
    assert_ne!(two.value(), reference);

    let variants: Vec<[u8; 32]> = vec![
        {
            let mut c = StateHashChain::new(&MC, &BASE);
            link(&mut c, b"vcpX", &[(0u64, &page_a[..]), (5u64, &page_b[..])], 100, 200);
            c.value()
        },
        {
            let mut c = StateHashChain::new(&MC, &BASE);
            link(&mut c, b"vcpu", &[(0u64, &page_a[..]), (6u64, &page_b[..])], 100, 200);
            c.value()
        },
        {
            let mut c = StateHashChain::new(&MC, &BASE);
            link(&mut c, b"vcpu", &[(0u64, &page_a[..]), (5u64, &page_a[..])], 100, 200);
            c.value()
        },
        {
            let mut c = StateHashChain::new(&MC, &BASE);
            link(&mut c, b"vcpu", &[(0u64, &page_a[..]), (5u64, &page_b[..])], 101, 200);
            c.value()
        },
        {
            let mut c = StateHashChain::new(&MC, &BASE);
            link(&mut c, b"vcpu", &[(0u64, &page_a[..]), (5u64, &page_b[..])], 100, 201);
            c.value()
        },
    ];
    for v in &variants {
        assert_ne!(*v, reference);
    }
}

#[test]
fn link_preimage_is_length_prefixed() {
    let prev = StateHashChain::new(&MC, &BASE);
    let mut c = prev.clone();
    c.push_link(b"ab", b"c", &[], 1, 2);
    let mut pre = prev.value().to_vec();
    pre.extend_from_slice(&2u64.to_le_bytes());
    pre.extend_from_slice(b"ab");
    pre.extend_from_slice(&1u64.to_le_bytes());
    pre.extend_from_slice(b"c");
    pre.extend_from_slice(&1u64.to_le_bytes());
    pre.extend_from_slice(&2u64.to_le_bytes());
    assert_eq!(c.value(), *blake3::hash(&pre).as_bytes());
    let mut d = prev.clone();
    d.push_link(b"a", b"bc", &[], 1, 2);
    assert_ne!(c.value(), d.value());
}

#[test]
fn chain_resumes_from_a_checkpointed_value() {
    let mut a = StateHashChain::new(&MC, &BASE);
    a.push_link(b"v", b"d", &[], 5, 6);
    let mut b = StateHashChain::from_value(a.value());
    a.push_link(b"w", b"e", &[], 7, 8);
    b.push_link(b"w", b"e", &[], 7, 8);
    assert_eq!(a.value(), b.value());
}

#[test]
fn device_sections_frame_id_version_len_bytes_in_bus_order() {
    let devices = vec![(0x0003u16, 1u16, vec![0u8; 24]), (0x0005u16, 1u16, vec![7u8; 40])];
    let bytes = device_sections(&devices);
    assert_eq!(u16::from_le_bytes(bytes[0..2].try_into().unwrap()), 0x0003);
    assert_eq!(u16::from_le_bytes(bytes[2..4].try_into().unwrap()), 1);
    let pad_len = u32::from_le_bytes(bytes[4..8].try_into().unwrap()) as usize;
    assert_eq!(pad_len, 24);
    let at = 8 + pad_len;
    assert_eq!(
        u16::from_le_bytes(bytes[at..at + 2].try_into().unwrap()),
        0x0005
    );
    assert_eq!(bytes.len(), 8 + 24 + 8 + 40);
    assert_eq!(bytes, device_sections(&devices));
}

fn seg(selector: u16) -> SegmentDescriptor {
    SegmentDescriptor {
        base: 0,
        limit: 0xffff,
        selector,
        type_: 3,
        present: 1,
        dpl: 0,
        db: 0,
        s: 1,
        l: 0,
        g: 0,
        avl: 0,
        unusable: 0,
    }
}

fn sample_registers() -> (GeneralRegisters, SystemRegisters, FpuRegisters, PendingEvents, DebugRegisters) {
    let regs = GeneralRegisters {
        rax: 1,
        rbx: 2,
        rcx: 3,
        rdx: 4,
        rsi: 5,
        rdi: 6,
        rsp: 7,
        rbp: 8,
        r8: 9,
        r9: 10,
        r10: 11,
        r11: 12,
        r12: 13,
        r13: 14,
        r14: 15,
        r15: 16,
        rip: 0x1000,
        rflags: 2,
    };
    let sregs = SystemRegisters {
        cs: seg(8),
        ds: seg(16),
        es: seg(16),
        fs: seg(16),
        gs: seg(16),
        ss: seg(16),
        tr: seg(0),
        ldt: seg(0),
        gdt_base: 0,
        gdt_limit: 0xffff,
        idt_base: 0,
        idt_limit: 0xffff,
        cr0: 0x11,
        cr2: 0,
        cr3: 0,
        cr4: 0,
        cr8: 0,
        efer: 0,
        apic_base: 0xfee0_0900,
        interrupt_bitmap: [0; 4],
    };
    let fpu = FpuRegisters {
        fpr: [0; 128],
        fcw: 0x37f,
        fsw: 0,
        ftwx: 0,
        last_opcode: 0,
        last_ip: 0,
        last_dp: 0,
        xmm: [0; 256],
    };
    let events = PendingEvents {
        exception_injected: 0,
        exception_nr: 0,
        exception_has_error_code: 0,
        exception_pending: 0,
        exception_error_code: 0,
        interrupt_injected: 0,
        interrupt_nr: 0,
        interrupt_soft: 0,
        interrupt_shadow: 0,
        nmi_injected: 0,
        nmi_pending: 0,
        nmi_masked: 0,
        sipi_vector: 0,
        flags: 0,
        smi_smm: 0,
        smi_pending: 0,
        smi_smm_inside_nmi: 0,
        smi_latched_init: 0,
        triple_fault_pending: 0,
    };
    let dbg = DebugRegisters {
        db: [0; 4],
        dr6: 0xffff0ff0,
        dr7: 0x400,
        flags: 0,
    };
    (regs, sregs, fpu, events, dbg)
}

fn captured_msrs() -> Vec<(u32, u64)> {
    dh_vmm::hash::vcpu_blob::msr_capture_list_vec()
        .into_iter()
        .enumerate()
        .map(|(i, index)| (index, 0x100 + i as u64))
        .collect()
}

#[test]
fn vcpu_blob_layout_and_normalized_tsc_slot() {
    let (regs, sregs, fpu, events, dbg) = sample_registers();
    let msrs = captured_msrs();
    let blob = canonical_vcpu_blob(&regs, &sregs, &fpu, 0x1f80, &events, &dbg, &msrs, 14, 42).unwrap();
    assert_eq!(blob.len(), 1111);
    assert_eq!(u64::from_le_bytes(blob[0..8].try_into().unwrap()), 1);
    assert_eq!(u64::from_le_bytes(blob[128..136].try_into().unwrap()), 0x1000);
    let mxcsr_at = 144 + 292 + 407;
    assert_eq!(u32::from_le_bytes(blob[mxcsr_at..mxcsr_at + 4].try_into().unwrap()), 0x1f80);
    let msr_at = mxcsr_at + 4 + 28 + 56;
    assert_eq!(u32::from_le_bytes(blob[msr_at..msr_at + 4].try_into().unwrap()), 0xC000_0080);
    let tsc_at = msr_at + 13 * 12;
    assert_eq!(u32::from_le_bytes(blob[tsc_at..tsc_at + 4].try_into().unwrap()), 0x10);
    assert_eq!(u64::from_le_bytes(blob[tsc_at + 4..tsc_at + 12].try_into().unwrap()), 42);
    let other = canonical_vcpu_blob(&regs, &sregs, &fpu, 0x1f80, &events, &dbg, &msrs, 14, 43).unwrap();
    assert_ne!(blob, other, "normalized TSC slot must reflect vns");
    let mxcsr_changed =
        canonical_vcpu_blob(&regs, &sregs, &fpu, 0x7f80, &events, &dbg, &msrs, 14, 42).unwrap();
    assert_ne!(blob, mxcsr_changed, "an MXCSR change must change the canonical blob");
}

#[test]
fn short_msr_read_names_the_first_unreadable_msr() {
    let (regs, sregs, fpu, events, dbg) = sample_registers();
    let msrs = captured_msrs();
    let err = canonical_vcpu_blob(&regs, &sregs, &fpu, 0, &events, &dbg, &msrs, 2, 0).unwrap_err();
    assert_eq!(
        err,
        KvmError::Open("KVM_GET_MSRS returned 2/14 entries (first unreadable MSR 0xc0000082)".into())
    );
}
