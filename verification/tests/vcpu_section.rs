use dh_vmm::kvm::KvmError;
use dh_vmm::vcpu_state::{
    decode_section, encode_section, restore_msr_list_vec, VcpuState, DEBUGREGS_LEN, EVENTS_LEN,
    FPU_LEN, REGS_LEN, SREGS_LEN, VCPU_SECTION_VERSION, XCRS_LEN, XSAVE_AREA_LEN,
};

fn synthetic_state() -> VcpuState {
    let mut xsave = vec![0u8; XSAVE_AREA_LEN];
    xsave[24..28].copy_from_slice(&0x1F80u32.to_le_bytes());
    let mut regs = vec![0u8; REGS_LEN];
    regs[128..136].copy_from_slice(&0x1000u64.to_le_bytes());
    regs[0..8].copy_from_slice(&0xDEAD_BEEFu64.to_le_bytes());
    regs[136..144].copy_from_slice(&2u64.to_le_bytes());
    let mut sregs = vec![0u8; SREGS_LEN];
    sregs[224..232].copy_from_slice(&0x11u64.to_le_bytes());
    let mut fpu = vec![0u8; FPU_LEN];
    fpu[128..130].copy_from_slice(&0x037Fu16.to_le_bytes());
    let mut dbg = vec![0u8; DEBUGREGS_LEN];
    dbg[40..48].copy_from_slice(&0x400u64.to_le_bytes());
    VcpuState {
        regs,
        sregs,
        fpu,
        xsave,
        xcrs: vec![0u8; XCRS_LEN],
        msrs: restore_msr_list_vec()
            .into_iter()
            .enumerate()
            .map(|(i, index)| (index, 0x1000 + i as u64))
            .collect(),
        events: vec![0u8; EVENTS_LEN],
        dbg,
    }
}

#[test]
fn struct_abi_sizes_are_pinned() {
    assert_eq!(REGS_LEN, 144);
    assert_eq!(SREGS_LEN, 312);
    assert_eq!(FPU_LEN, 416);
    assert_eq!(XCRS_LEN, 392);
    assert_eq!(EVENTS_LEN, 64);
    assert_eq!(DEBUGREGS_LEN, 128);
}

#[test]
fn section_roundtrips_and_is_deterministic() {
    let st = synthetic_state();
    let enc = encode_section(&st);
    assert_eq!(enc, encode_section(&st), "encoding is pure");
    let back = decode_section(&enc, VCPU_SECTION_VERSION).unwrap();
    assert_eq!(st, back);
    assert_eq!(enc, encode_section(&back), "re-encode byte-identical");
}

#[test]
fn decode_rejects_malformed_sections() {
    let st = synthetic_state();
    let enc = encode_section(&st);

    assert!(decode_section(&enc, 2).is_err(), "wrong version");
    assert!(decode_section(&enc[..enc.len() - 1], 1).is_err(), "truncated");
    let mut trailing = enc.clone();
    trailing.push(0);
    assert!(decode_section(&trailing, 1).is_err(), "trailing");

    let mut wrong = enc.clone();
    let regs_len = REGS_LEN + SREGS_LEN + FPU_LEN;
    let msr0_at = regs_len + 4 + XSAVE_AREA_LEN + XCRS_LEN + 4;
    wrong[msr0_at..msr0_at + 4].copy_from_slice(&0xFFFF_FFFFu32.to_le_bytes());
    assert!(decode_section(&wrong, 1).is_err(), "msr list mismatch");
}

fn open_message(r: Result<VcpuState, KvmError>) -> String {
    match r {
        Err(KvmError::Open(m)) => m,
        other => panic!("expected an Open error, got {other:?}"),
    }
}

#[test]
fn decode_names_the_first_defect() {
    let enc = encode_section(&synthetic_state());
    assert_eq!(open_message(decode_section(&enc, 2)), "VCPU section version 2, want 1");
    assert_eq!(open_message(decode_section(&enc[..100], 1)), "VCPU section truncated");
    assert_eq!(
        open_message(decode_section(&enc[..874], 1)),
        "VCPU section truncated at xsave len"
    );
    let mut xlen = enc.clone();
    xlen[872..876].copy_from_slice(&100u32.to_le_bytes());
    assert_eq!(open_message(decode_section(&xlen, 1)), "xsave len 100, want 4096");
    let mut count = enc.clone();
    count[5364..5368].copy_from_slice(&3u32.to_le_bytes());
    assert_eq!(
        open_message(decode_section(&count, 1)),
        "msr count 3, want 14 (list is code-versioned)"
    );
    let mut wrong = enc.clone();
    wrong[5368..5372].copy_from_slice(&0xFFFF_FFFFu32.to_le_bytes());
    assert_eq!(
        open_message(decode_section(&wrong, 1)),
        "msr[0] is 0xffffffff, want 0xc0000080"
    );
    let mut pad = enc.clone();
    pad[5368 + 16 + 4] = 1;
    assert_eq!(open_message(decode_section(&pad, 1)), "msr[1] pad nonzero");
    assert_eq!(
        open_message(decode_section(&enc[..5400], 1)),
        "VCPU section truncated in msrs"
    );
    let mut trailing = enc.clone();
    trailing.extend_from_slice(&[0, 0, 0]);
    assert_eq!(
        open_message(decode_section(&trailing, 1)),
        "VCPU section has 3 trailing bytes"
    );
}

#[test]
fn state_equality_is_encoding_equality() {
    let a = synthetic_state();
    let b = a.clone();
    assert_eq!(a, b);
    let mut c = a.clone();
    c.msrs[0].1 ^= 1;
    assert_ne!(a, c);
    let mut d = a.clone();
    d.xsave[600] ^= 0xff;
    assert_ne!(a, d);
    // Only the encoded bytes count: moving a byte across the boundary of two
    // unprefixed images leaves the encoding, and so the state, unchanged.
    let mut e = a.clone();
    let moved = e.sregs.remove(0);
    e.regs.push(moved);
    assert_eq!(a, e);
}
