//! The snapshot `VCPU` section codec:
//!
//!   regs || sregs || fpu || le32(|xsave|) || canonical xsave || xcrs
//!   || le32(msr count) || (le32(index) || le32(0) || le64(value))*
//!   || vcpu events || debug registers
//!
//! The register structures travel as their fixed-size little-endian KVM
//! ABI images; the MSR list is versioned in code.

use crate::codec::{
    from_le32, from_le64, le32, le64, lemma_concat_ranges, lemma_le32_of_bytes, lemma_le32_roundtrip,
    lemma_le64_of_bytes, lemma_le64_roundtrip, lemma_sub_left, lemma_sub_right, lemma_sub_sub,
    push_bytes, push_le32, push_le64, u32_at, u64_at, read_le32, read_le64, copy_range,
};
use crate::text::{decimal_string, hex_string, spec_decimal, spec_hex};
use crate::kvm::KvmError;
use crate::msr::{
    MSR_CSTAR, MSR_EFER, MSR_FS_BASE, MSR_GS_BASE, MSR_KERNEL_GS_BASE, MSR_LSTAR, MSR_PAT,
    MSR_SFMASK, MSR_SPEC_CTRL, MSR_STAR, MSR_SYSENTER_CS, MSR_SYSENTER_EIP, MSR_SYSENTER_ESP,
    MSR_TSC_AUX,
};
use vstd::prelude::*;
use vstd::std_specs::cmp::PartialEqSpecImpl;

verus! {

pub const VCPU_SECTION_VERSION: u16 = 1;

pub const XSAVE_AREA_LEN: usize = 4096;

/// Byte sizes of the KVM register images.
pub const REGS_LEN: usize = 144;
pub const SREGS_LEN: usize = 312;
pub const FPU_LEN: usize = 416;
pub const XCRS_LEN: usize = 392;
pub const EVENTS_LEN: usize = 64;
pub const DEBUGREGS_LEN: usize = 128;

/// Number of captured MSRs.
pub const RESTORE_MSR_COUNT: usize = 14;

/// The MSR capture list for restore, in capture order (IA32_TSC is
/// restored from vns, never carried).
pub open spec fn restore_msr_list() -> Seq<u32> {
    seq![
        MSR_EFER,
        MSR_STAR,
        MSR_LSTAR,
        MSR_CSTAR,
        MSR_SFMASK,
        MSR_KERNEL_GS_BASE,
        MSR_FS_BASE,
        MSR_GS_BASE,
        MSR_SYSENTER_CS,
        MSR_SYSENTER_ESP,
        MSR_SYSENTER_EIP,
        MSR_PAT,
        MSR_TSC_AUX,
        MSR_SPEC_CTRL,
    ]
}

/// The MSR capture list for restore.
pub fn restore_msr_list_vec() -> (r: Vec<u32>)
    ensures
        r@ == restore_msr_list(),
{
    let v = vec![
        MSR_EFER,
        MSR_STAR,
        MSR_LSTAR,
        MSR_CSTAR,
        MSR_SFMASK,
        MSR_KERNEL_GS_BASE,
        MSR_FS_BASE,
        MSR_GS_BASE,
        MSR_SYSENTER_CS,
        MSR_SYSENTER_ESP,
        MSR_SYSENTER_EIP,
        MSR_PAT,
        MSR_TSC_AUX,
        MSR_SPEC_CTRL,
    ];
    assert(v@ =~= restore_msr_list());
    v
}

/// Everything needed to reconstruct a vCPU at a boundary, as byte images.
/// Two states are equal when their canonical section encodings are.
#[derive(Clone, Debug, Eq)]
pub struct VcpuState {
    pub regs: Vec<u8>,
    pub sregs: Vec<u8>,
    pub fpu: Vec<u8>,
    /// Canonical XSAVE area.
    pub xsave: Vec<u8>,
    pub xcrs: Vec<u8>,
    /// (index, value) in capture-list order.
    pub msrs: Vec<(u32, u64)>,
    pub events: Vec<u8>,
    pub dbg: Vec<u8>,
}

/// The content of a [`VcpuState`].
pub struct VcpuModel {
    pub regs: Seq<u8>,
    pub sregs: Seq<u8>,
    pub fpu: Seq<u8>,
    pub xsave: Seq<u8>,
    pub xcrs: Seq<u8>,
    pub msrs: Seq<(u32, u64)>,
    pub events: Seq<u8>,
    pub dbg: Seq<u8>,
}

impl View for VcpuState {
    type V = VcpuModel;

    open spec fn view(&self) -> VcpuModel {
        VcpuModel {
            regs: self.regs@,
            sregs: self.sregs@,
            fpu: self.fpu@,
            xsave: self.xsave@,
            xcrs: self.xcrs@,
            msrs: self.msrs@,
            events: self.events@,
            dbg: self.dbg@,
        }
    }
}

/// A state the section can carry: every image at its ABI size and the
/// MSRs exactly the capture list.
pub open spec fn state_well_formed(m: VcpuModel) -> bool {
    &&& m.regs.len() == REGS_LEN
    &&& m.sregs.len() == SREGS_LEN
    &&& m.fpu.len() == FPU_LEN
    &&& m.xsave.len() == XSAVE_AREA_LEN
    &&& m.xcrs.len() == XCRS_LEN
    &&& m.events.len() == EVENTS_LEN
    &&& m.dbg.len() == DEBUGREGS_LEN
    &&& m.msrs.len() == RESTORE_MSR_COUNT
    &&& forall|i: int| 0 <= i < RESTORE_MSR_COUNT ==> (#[trigger] m.msrs[i]).0 == restore_msr_list()[i]
}

pub open spec fn msr_record(e: (u32, u64)) -> Seq<u8> {
    le32(e.0) + le32(0) + le64(e.1)
}

pub open spec fn msrs_bytes(ms: Seq<(u32, u64)>) -> Seq<u8>
    decreases ms.len(),
{
    if ms.len() == 0 {
        Seq::empty()
    } else {
        msrs_bytes(ms.drop_last()) + msr_record(ms.last())
    }
}

/// The section bytes of a state.
pub open spec fn spec_encode_section(m: VcpuModel) -> Seq<u8> {
    m.regs + m.sregs + m.fpu + le32(m.xsave.len() as u32) + m.xsave + m.xcrs + le32(
        m.msrs.len() as u32,
    ) + msrs_bytes(m.msrs) + m.events + m.dbg
}

/// Offsets of the section layout.
pub open spec fn off_xlen() -> int {
    (REGS_LEN + SREGS_LEN + FPU_LEN) as int
}

pub open spec fn off_xsave() -> int {
    off_xlen() + 4
}

pub open spec fn off_xcrs() -> int {
    off_xsave() + XSAVE_AREA_LEN
}

pub open spec fn off_count() -> int {
    off_xcrs() + XCRS_LEN
}

pub open spec fn off_msrs() -> int {
    off_count() + 4
}

pub open spec fn off_events() -> int {
    off_msrs() + 16 * RESTORE_MSR_COUNT
}

pub open spec fn off_dbg() -> int {
    off_events() + EVENTS_LEN
}

pub open spec fn section_len() -> int {
    off_dbg() + DEBUGREGS_LEN
}

/// The MSR record `i` of a section.
pub open spec fn msr_at(b: Seq<u8>, i: int) -> (u32, u64) {
    (u32_at(b, off_msrs() + 16 * i), u64_at(b, off_msrs() + 16 * i + 8))
}

/// A byte string is a canonical section: the exact length, the XSAVE
/// length and MSR count fields at their fixed values, and every MSR
/// record naming the listed MSR with a zero pad word.
pub open spec fn section_ok(b: Seq<u8>) -> bool {
    &&& b.len() == section_len()
    &&& u32_at(b, off_xlen()) == XSAVE_AREA_LEN
    &&& u32_at(b, off_count()) == RESTORE_MSR_COUNT
    &&& forall|i: int|
        0 <= i < RESTORE_MSR_COUNT ==> #[trigger] u32_at(b, off_msrs() + 16 * i)
            == restore_msr_list()[i] && u32_at(b, off_msrs() + 16 * i + 4) == 0
}

/// The state a canonical section carries.
pub open spec fn spec_decode_section(b: Seq<u8>) -> VcpuModel {
    VcpuModel {
        regs: b.subrange(0, REGS_LEN as int),
        sregs: b.subrange(REGS_LEN as int, (REGS_LEN + SREGS_LEN) as int),
        fpu: b.subrange((REGS_LEN + SREGS_LEN) as int, off_xlen()),
        xsave: b.subrange(off_xsave(), off_xcrs()),
        xcrs: b.subrange(off_xcrs(), off_count()),
        msrs: Seq::new(RESTORE_MSR_COUNT as nat, |i: int| msr_at(b, i)),
        events: b.subrange(off_events(), off_dbg()),
        dbg: b.subrange(off_dbg(), section_len()),
    }
}

/// Encode the section contents of a state.
pub fn encode_section(st: &VcpuState) -> (r: Vec<u8>)
    ensures
        r@ == spec_encode_section(st@),
{
    let mut out: Vec<u8> = Vec::new();
    push_bytes(&mut out, st.regs.as_slice());
    push_bytes(&mut out, st.sregs.as_slice());
    push_bytes(&mut out, st.fpu.as_slice());
    push_le32(&mut out, #[verifier::truncate] (st.xsave.len() as u32));
    push_bytes(&mut out, st.xsave.as_slice());
    push_bytes(&mut out, st.xcrs.as_slice());
    push_le32(&mut out, #[verifier::truncate] (st.msrs.len() as u32));
    let ghost head = out@;
    let mut i: usize = 0;
    assert(st.msrs@.subrange(0, 0) =~= Seq::<(u32, u64)>::empty());
    while i < st.msrs.len()
        invariant
            i <= st.msrs@.len(),
            out@ == head + msrs_bytes(st.msrs@.subrange(0, i as int)),
        decreases st.msrs@.len() - i,
    {
        let (index, value) = st.msrs[i];
        push_le32(&mut out, index);
        push_le32(&mut out, 0);
        push_le64(&mut out, value);
        proof {
            assert(st.msrs@.subrange(0, i + 1).drop_last() =~= st.msrs@.subrange(0, i as int));
            assert(out@ =~= head + msrs_bytes(st.msrs@.subrange(0, i + 1)));
        }
        i = i + 1;
    }
    assert(st.msrs@.subrange(0, st.msrs@.len() as int) =~= st.msrs@);
    push_bytes(&mut out, st.events.as_slice());
    push_bytes(&mut out, st.dbg.as_slice());
    out
}

/// The first defect of MSR records `i..` of a section, if any.
pub open spec fn msr_fault(b: Seq<u8>, i: nat) -> Option<Seq<char>>
    decreases RESTORE_MSR_COUNT - i,
{
    if i >= RESTORE_MSR_COUNT {
        None
    } else if b.len() < off_msrs() + 16 * i + 16 {
        Some("VCPU section truncated in msrs"@)
    } else if u32_at(b, off_msrs() + 16 * i) != restore_msr_list()[i as int] {
        Some(
            "msr["@ + spec_decimal(i) + "] is "@ + "0x"@ + spec_hex(
                u32_at(b, off_msrs() + 16 * i) as nat,
            ) + ", want "@ + "0x"@ + spec_hex(restore_msr_list()[i as int] as nat),
        )
    } else if u32_at(b, off_msrs() + 16 * i + 4) != 0 {
        Some("msr["@ + spec_decimal(i) + "] pad nonzero"@)
    } else {
        msr_fault(b, i + 1)
    }
}

/// Why `b` is not a canonical section of version `v`: the message of the
/// first defect met reading it front to back, or `None`.
pub open spec fn spec_decode_fault(b: Seq<u8>, v: u16) -> Option<Seq<char>> {
    if v != VCPU_SECTION_VERSION {
        Some("VCPU section version "@ + spec_decimal(v as nat) + ", want 1"@)
    } else if b.len() < off_xlen() {
        Some("VCPU section truncated"@)
    } else if b.len() < off_xsave() {
        Some("VCPU section truncated at xsave len"@)
    } else if u32_at(b, off_xlen()) != XSAVE_AREA_LEN {
        Some("xsave len "@ + spec_decimal(u32_at(b, off_xlen()) as nat) + ", want 4096"@)
    } else if b.len() < off_xcrs() {
        Some("VCPU section truncated in xsave"@)
    } else if b.len() < off_count() {
        Some("VCPU section truncated"@)
    } else if b.len() < off_msrs() {
        Some("VCPU section truncated at msr count"@)
    } else if u32_at(b, off_count()) != RESTORE_MSR_COUNT {
        Some(
            "msr count "@ + spec_decimal(u32_at(b, off_count()) as nat)
                + ", want 14 (list is code-versioned)"@,
        )
    } else if msr_fault(b, 0) is Some {
        msr_fault(b, 0)
    } else if b.len() < section_len() {
        Some("VCPU section truncated"@)
    } else if b.len() > section_len() {
        Some("VCPU section has "@ + spec_decimal((b.len() - section_len()) as nat) + " trailing bytes"@)
    } else {
        None
    }
}

proof fn lemma_msr_fault_none(b: Seq<u8>, i: nat)
    requires
        b.len() >= off_events(),
        i <= RESTORE_MSR_COUNT,
    ensures
        msr_fault(b, i) is None <==> forall|k: int|
            i <= k < RESTORE_MSR_COUNT ==> #[trigger] u32_at(b, off_msrs() + 16 * k)
                == restore_msr_list()[k] && u32_at(b, off_msrs() + 16 * k + 4) == 0,
    decreases RESTORE_MSR_COUNT - i,
{
    if i < RESTORE_MSR_COUNT {
        lemma_msr_fault_none(b, i + 1);
        assert(b.len() >= off_msrs() + 16 * i + 16);
        if msr_fault(b, i) is None {
            assert(u32_at(b, off_msrs() + 16 * i) == restore_msr_list()[i as int]);
            assert(u32_at(b, off_msrs() + 16 * i + 4) == 0);
            assert(msr_fault(b, i + 1) is None);
            assert forall|k: int|
                i <= k < RESTORE_MSR_COUNT implies #[trigger] u32_at(b, off_msrs() + 16 * k)
                == restore_msr_list()[k] && u32_at(b, off_msrs() + 16 * k + 4) == 0 by {
                if k > i {
                    assert(i + 1 <= k);
                }
            }
        }
    }
}

/// A byte string decodes exactly when it is a canonical section of the
/// supported version.
pub proof fn lemma_decode_fault_exact(b: Seq<u8>, v: u16)
    ensures
        spec_decode_fault(b, v) is None <==> (v == VCPU_SECTION_VERSION && section_ok(b)),
{
    if b.len() >= off_events() {
        lemma_msr_fault_none(b, 0);
    }
    if v == VCPU_SECTION_VERSION && section_ok(b) {
        lemma_msr_fault_none(b, 0);
    }
}

fn open_error(m: &str) -> (e: KvmError)
    ensures
        e matches KvmError::Open(s) && s@ == m@,
{
    KvmError::Open(String::from_str(m))
}

/// The MSR record at `at`: its defect, or its entry.
fn decode_msr(bytes: &[u8], i: usize, expected: u32) -> (r: Result<(u32, u64), KvmError>)
    requires
        i < RESTORE_MSR_COUNT,
        expected == restore_msr_list()[i as int],
        bytes@.len() >= off_msrs() + 16 * i + 16,
    ensures
        match r {
            Ok(e) => e == msr_at(bytes@, i as int) && u32_at(bytes@, off_msrs() + 16 * i)
                == expected && u32_at(bytes@, off_msrs() + 16 * i + 4) == 0,
            Err(KvmError::Open(s)) => u32_at(bytes@, off_msrs() + 16 * i) != expected
                && msr_fault(bytes@, i as nat) == Some(s@) || u32_at(bytes@, off_msrs() + 16 * i)
                == expected && u32_at(bytes@, off_msrs() + 16 * i + 4) != 0 && msr_fault(
                bytes@,
                i as nat,
            ) == Some(s@),
            Err(_) => false,
        },
{
    let at = 5368 + 16 * i;
    let index = read_le32(bytes, at);
    if index != expected {
        let m = String::from_str("msr[").concat(decimal_string(i as u64).as_str()).concat("] is ").concat(
            hex_string(index as u64).as_str(),
        ).concat(", want ").concat(hex_string(expected as u64).as_str());
        proof {
            assert(m@ =~= "msr["@ + spec_decimal(i as nat) + "] is "@ + "0x"@ + spec_hex(
                index as nat,
            ) + ", want "@ + "0x"@ + spec_hex(expected as nat));
        }
        return Err(KvmError::Open(m));
    }
    let pad = read_le32(bytes, at + 4);
    if pad != 0 {
        let m = String::from_str("msr[").concat(decimal_string(i as u64).as_str()).concat(
            "] pad nonzero",
        );
        return Err(KvmError::Open(m));
    }
    let value = read_le64(bytes, at + 8);
    Ok((index, value))
}

impl PartialEq for VcpuState {
    /// Byte equality of the canonical section encodings: exactly the
    /// equality determinism cares about.
    fn eq(&self, other: &Self) -> (r: bool) {
        let a = encode_section(self);
        let b = encode_section(other);
        let r = a == b;
        proof {
            if r {
                assert(a@ =~= b@);
            }
        }
        r
    }
}

impl PartialEqSpecImpl for VcpuState {
    open spec fn obeys_eq_spec() -> bool {
        true
    }

    open spec fn eq_spec(&self, other: &Self) -> bool {
        spec_encode_section(self@) == spec_encode_section(other@)
    }
}

/// Decode the section contents. Anything but a canonical section of the
/// supported version is refused, with the message of the first defect.
pub fn decode_section(bytes: &[u8], sec_version: u16) -> (r: Result<VcpuState, KvmError>)
    ensures
        sec_version == VCPU_SECTION_VERSION && section_ok(bytes@) <==> r is Ok,
        r matches Ok(st) ==> st@ == spec_decode_section(bytes@),
        match spec_decode_fault(bytes@, sec_version) {
            None => r is Ok,
            Some(m) => r matches Err(KvmError::Open(s)) && s@ == m,
        },
{
    proof {
        lemma_decode_fault_exact(bytes@, sec_version);
    }
    if sec_version != VCPU_SECTION_VERSION {
        let m = String::from_str("VCPU section version ").concat(
            decimal_string(sec_version as u64).as_str(),
        ).concat(", want 1");
        return Err(KvmError::Open(m));
    }
    let n = bytes.len();
    if n < 872 {
        return Err(open_error("VCPU section truncated"));
    }
    if n < 876 {
        return Err(open_error("VCPU section truncated at xsave len"));
    }
    let xlen = read_le32(bytes, 872);
    if xlen != 4096 {
        let m = String::from_str("xsave len ").concat(decimal_string(xlen as u64).as_str()).concat(
            ", want 4096",
        );
        return Err(KvmError::Open(m));
    }
    if n < 4972 {
        return Err(open_error("VCPU section truncated in xsave"));
    }
    if n < 5364 {
        return Err(open_error("VCPU section truncated"));
    }
    if n < 5368 {
        return Err(open_error("VCPU section truncated at msr count"));
    }
    let count = read_le32(bytes, 5364);
    if count != 14 {
        let m = String::from_str("msr count ").concat(decimal_string(count as u64).as_str()).concat(
            ", want 14 (list is code-versioned)",
        );
        return Err(KvmError::Open(m));
    }
    let list = restore_msr_list_vec();
    let mut msrs: Vec<(u32, u64)> = Vec::new();
    let mut i: usize = 0;
    while i < RESTORE_MSR_COUNT
        invariant
            n == bytes@.len(),
            n >= off_msrs(),
            sec_version == VCPU_SECTION_VERSION,
            u32_at(bytes@, off_xlen()) == XSAVE_AREA_LEN,
            u32_at(bytes@, off_count()) == RESTORE_MSR_COUNT,
            list@ == restore_msr_list(),
            i <= RESTORE_MSR_COUNT,
            msr_fault(bytes@, 0) == msr_fault(bytes@, i as nat),
            msrs@ == Seq::new(i as nat, |k: int| msr_at(bytes@, k)),
            forall|k: int|
                0 <= k < i ==> #[trigger] u32_at(bytes@, off_msrs() + 16 * k) == restore_msr_list()[k]
                    && u32_at(bytes@, off_msrs() + 16 * k + 4) == 0,
        decreases RESTORE_MSR_COUNT - i,
    {
        if n < 5368 + 16 * i + 16 {
            return Err(open_error("VCPU section truncated in msrs"));
        }
        let e = match decode_msr(bytes, i, list[i]) {
            Ok(e) => e,
            Err(err) => {
                return Err(err);
            },
        };
        msrs.push(e);
        assert(u32_at(bytes@, off_msrs() + 16 * i) == restore_msr_list()[i as int]);
        i = i + 1;
        assert(msrs@ =~= Seq::new(i as nat, |k: int| msr_at(bytes@, k)));
    }
    if n < 5784 {
        return Err(open_error("VCPU section truncated"));
    }
    if n > 5784 {
        let m = String::from_str("VCPU section has ").concat(decimal_string((n - 5784) as u64).as_str()).concat(
            " trailing bytes",
        );
        return Err(KvmError::Open(m));
    }
    let st = VcpuState {
        regs: copy_range(bytes, 0, 144),
        sregs: copy_range(bytes, 144, 456),
        fpu: copy_range(bytes, 456, 872),
        xsave: copy_range(bytes, 876, 4972),
        xcrs: copy_range(bytes, 4972, 5364),
        msrs,
        events: copy_range(bytes, 5592, 5656),
        dbg: copy_range(bytes, 5656, 5784),
    };
    Ok(st)
}

proof fn lemma_msrs_layout(ms: Seq<(u32, u64)>)
    ensures
        msrs_bytes(ms).len() == 16 * ms.len(),
        forall|i: int|
            0 <= i < ms.len() ==> #[trigger] msrs_bytes(ms).subrange(16 * i, 16 * i + 16)
                == msr_record(ms[i]),
    decreases ms.len(),
{
    if ms.len() > 0 {
        let u = ms.drop_last();
        lemma_msrs_layout(u);
        let x = msrs_bytes(u);
        let y = msr_record(ms.last());
        assert forall|i: int| 0 <= i < ms.len() implies #[trigger] msrs_bytes(ms).subrange(
            16 * i,
            16 * i + 16,
        ) == msr_record(ms[i]) by {
            if i < ms.len() - 1 {
                lemma_sub_left(x, y, 16 * i, 16 * i + 16);
                assert(x.subrange(16 * i, 16 * i + 16) == msr_record(u[i]));
            } else {
                lemma_sub_right(x, y, 0, 16);
                assert(y.subrange(0, 16) =~= y);
            }
        }
    }
}

proof fn lemma_record_fields(e: (u32, u64))
    ensures
        from_le32(msr_record(e).subrange(0, 4)) == e.0,
        from_le32(msr_record(e).subrange(4, 8)) == 0,
        from_le64(msr_record(e).subrange(8, 16)) == e.1,
{
    let r = msr_record(e);
    assert(r.subrange(0, 4) =~= le32(e.0));
    assert(r.subrange(4, 8) =~= le32(0));
    assert(r.subrange(8, 16) =~= le64(e.1));
    lemma_le32_roundtrip(e.0);
    lemma_le32_roundtrip(0);
    lemma_le64_roundtrip(e.1);
}

/// The pieces of an encoded well-formed state sit at the fixed offsets.
proof fn lemma_encode_pieces(m: VcpuModel)
    requires
        state_well_formed(m),
    ensures
        spec_encode_section(m).len() == section_len(),
        spec_encode_section(m).subrange(0, REGS_LEN as int) == m.regs,
        spec_encode_section(m).subrange(REGS_LEN as int, (REGS_LEN + SREGS_LEN) as int) == m.sregs,
        spec_encode_section(m).subrange((REGS_LEN + SREGS_LEN) as int, off_xlen()) == m.fpu,
        spec_encode_section(m).subrange(off_xlen(), off_xsave()) == le32(XSAVE_AREA_LEN as u32),
        spec_encode_section(m).subrange(off_xsave(), off_xcrs()) == m.xsave,
        spec_encode_section(m).subrange(off_xcrs(), off_count()) == m.xcrs,
        spec_encode_section(m).subrange(off_count(), off_msrs()) == le32(RESTORE_MSR_COUNT as u32),
        spec_encode_section(m).subrange(off_msrs(), off_events()) == msrs_bytes(m.msrs),
        spec_encode_section(m).subrange(off_events(), off_dbg()) == m.events,
        spec_encode_section(m).subrange(off_dbg(), section_len()) == m.dbg,
{
    lemma_msrs_layout(m.msrs);
    let e = spec_encode_section(m);
    assert(e.subrange(0, REGS_LEN as int) =~= m.regs);
    assert(e.subrange(REGS_LEN as int, (REGS_LEN + SREGS_LEN) as int) =~= m.sregs);
    assert(e.subrange((REGS_LEN + SREGS_LEN) as int, off_xlen()) =~= m.fpu);
    assert(e.subrange(off_xlen(), off_xsave()) =~= le32(XSAVE_AREA_LEN as u32));
    assert(e.subrange(off_xsave(), off_xcrs()) =~= m.xsave);
    assert(e.subrange(off_xcrs(), off_count()) =~= m.xcrs);
    assert(e.subrange(off_count(), off_msrs()) =~= le32(RESTORE_MSR_COUNT as u32));
    assert(e.subrange(off_msrs(), off_events()) =~= msrs_bytes(m.msrs));
    assert(e.subrange(off_events(), off_dbg()) =~= m.events);
    assert(e.subrange(off_dbg(), section_len()) =~= m.dbg);
}

/// Decoding an encoded section gives the state back: every well-formed
/// state encodes to a canonical section that decodes to that state.
pub proof fn lemma_decode_of_encode(m: VcpuModel)
    requires
        state_well_formed(m),
    ensures
        section_ok(spec_encode_section(m)),
        spec_decode_section(spec_encode_section(m)) == m,
{
    let e = spec_encode_section(m);
    lemma_encode_pieces(m);
    lemma_msrs_layout(m.msrs);
    lemma_le32_roundtrip(XSAVE_AREA_LEN as u32);
    lemma_le32_roundtrip(RESTORE_MSR_COUNT as u32);
    assert forall|i: int| 0 <= i < RESTORE_MSR_COUNT implies msr_at(e, i) == m.msrs[i]
        && #[trigger] u32_at(e, off_msrs() + 16 * i) == restore_msr_list()[i] && u32_at(
        e,
        off_msrs() + 16 * i + 4,
    ) == 0 by {
        let mb = msrs_bytes(m.msrs);
        lemma_sub_sub(e, off_msrs(), off_events(), 16 * i, 16 * i + 16);
        let r = msr_record(m.msrs[i]);
        assert(e.subrange(off_msrs() + 16 * i, off_msrs() + 16 * i + 16) == r);
        lemma_sub_sub(e, off_msrs() + 16 * i, off_msrs() + 16 * i + 16, 0, 4);
        lemma_sub_sub(e, off_msrs() + 16 * i, off_msrs() + 16 * i + 16, 4, 8);
        lemma_sub_sub(e, off_msrs() + 16 * i, off_msrs() + 16 * i + 16, 8, 16);
        lemma_record_fields(m.msrs[i]);
    }
    assert(spec_decode_section(e).msrs =~= m.msrs);
}

proof fn lemma_msrs_of_bytes(b: Seq<u8>, k: nat)
    requires
        section_ok(b),
        k <= RESTORE_MSR_COUNT,
    ensures
        msrs_bytes(Seq::new(k, |i: int| msr_at(b, i))) == b.subrange(off_msrs(), off_msrs() + 16
            * k),
    decreases k,
{
    if k > 0 {
        let j = (k - 1) as nat;
        lemma_msrs_of_bytes(b, j);
        let ms = Seq::new(k, |i: int| msr_at(b, i));
        assert(ms.drop_last() =~= Seq::new(j, |i: int| msr_at(b, i)));
        let at = off_msrs() + 16 * j;
        let rec = b.subrange(at, at + 16);
        assert(u32_at(b, off_msrs() + 16 * j) == restore_msr_list()[j as int]);
        lemma_sub_sub(b, at, at + 16, 0, 4);
        lemma_sub_sub(b, at, at + 16, 4, 8);
        lemma_sub_sub(b, at, at + 16, 8, 16);
        lemma_le32_of_bytes(rec.subrange(0, 4));
        lemma_le32_of_bytes(rec.subrange(4, 8));
        lemma_le64_of_bytes(rec.subrange(8, 16));
        assert(msr_record(msr_at(b, j as int)) =~= rec);
        lemma_concat_ranges(b, off_msrs(), at, at + 16);
    }
}

/// Encoding a decoded canonical section gives back the same bytes.
pub proof fn lemma_encode_of_decode(b: Seq<u8>)
    requires
        section_ok(b),
    ensures
        state_well_formed(spec_decode_section(b)),
        spec_encode_section(spec_decode_section(b)) == b,
{
    let m = spec_decode_section(b);
    lemma_msrs_of_bytes(b, RESTORE_MSR_COUNT as nat);
    lemma_le32_of_bytes(b.subrange(off_xlen(), off_xsave()));
    lemma_le32_of_bytes(b.subrange(off_count(), off_msrs()));
    assert(le32(m.xsave.len() as u32) == b.subrange(off_xlen(), off_xsave()));
    assert(le32(m.msrs.len() as u32) == b.subrange(off_count(), off_msrs()));
    lemma_concat_ranges(b, 0, REGS_LEN as int, (REGS_LEN + SREGS_LEN) as int);
    lemma_concat_ranges(b, 0, (REGS_LEN + SREGS_LEN) as int, off_xlen());
    lemma_concat_ranges(b, 0, off_xlen(), off_xsave());
    lemma_concat_ranges(b, 0, off_xsave(), off_xcrs());
    lemma_concat_ranges(b, 0, off_xcrs(), off_count());
    lemma_concat_ranges(b, 0, off_count(), off_msrs());
    lemma_concat_ranges(b, 0, off_msrs(), off_events());
    lemma_concat_ranges(b, 0, off_events(), off_dbg());
    lemma_concat_ranges(b, 0, off_dbg(), section_len());
    assert(b.subrange(0, section_len()) =~= b);
}

/// On well-formed states, byte equality of the section encodings (the
/// equality `==` decides) is equality of every captured field.
pub proof fn lemma_encoding_equality_is_state_equality(a: VcpuModel, b: VcpuModel)
    requires
        state_well_formed(a),
        state_well_formed(b),
    ensures
        (spec_encode_section(a) == spec_encode_section(b)) <==> a == b,
{
    lemma_decode_of_encode(a);
    lemma_decode_of_encode(b);
}

} // verus!
