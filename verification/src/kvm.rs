//! The fixed KVM-facing layout of a slot VM (the MMIO hole, the port-I/O
//! windows, the dirty ring) and the classification of vCPU exits against
//! it. The KVM ioctls themselves are the caller's; this module decides.

use crate::text::{decimal_string, hex_string, spec_decimal, spec_hex};
use vstd::prelude::*;

verus! {

/// Guest-physical base of the MMIO hole (no memslot; accesses exit).
pub const MMIO_HOLE_BASE: u64 = 0xD000_0000;

/// Length of the MMIO hole.
pub const MMIO_HOLE_LEN: u64 = 0x7000;

/// Entries of the per-vCPU dirty ring.
pub const DIRTY_RING_ENTRIES: u64 = 65536;

/// Bytes of one dirty-ring entry.
pub const DIRTY_RING_ENTRY_BYTES: u64 = 16;

/// Bytes of the whole dirty ring.
pub const DIRTY_RING_BYTES: u64 = DIRTY_RING_ENTRIES * DIRTY_RING_ENTRY_BYTES;

/// Debug serial port window.
pub const PIO_SERIAL_BASE: u16 = 0x3F8;
pub const PIO_SERIAL_LEN: u16 = 8;

/// Deterministic-call port window (0xD370..=0xD39F).
pub const PIO_DETCALL_BASE: u16 = 0xD370;
pub const PIO_DETCALL_LEN: u16 = 0x30;

#[derive(Clone, Debug, PartialEq, Eq)]
pub enum KvmError {
    /// /dev/kvm missing or unopenable.
    Open(String),
    ApiVersionMismatch(i32),
    /// One or more required capabilities absent (named).
    MissingCaps(Vec<&'static str>),
    /// Guest memory setup or bookkeeping failed.
    Memory(String),
    VmCreate(String),
    VcpuCreate(String),
    /// RAM must stay below the MMIO hole.
    MemTooLarge,
}

/// Whether `port` lies in `[base, base + len)`.
pub fn in_range(port: u16, base: u16, len: u16) -> (r: bool)
    requires
        base + len <= u16::MAX,
    ensures
        r == (base <= port < base + len),
{
    port >= base && port < base + len
}

/// A vCPU exit as KVM reports it, with the data the classification reads.
#[derive(Clone, Debug, PartialEq, Eq)]
pub enum VcpuExitKind {
    MmioRead { gpa: u64, len: usize },
    MmioWrite { gpa: u64, data: Vec<u8> },
    IoIn { port: u16, len: usize },
    IoOut { port: u16, data: Vec<u8> },
    Rdmsr { index: u32 },
    Wrmsr { index: u32, data: u64 },
    Hlt,
    Shutdown,
    DirtyRingFull,
    /// Any other exit, rendered for the log.
    Other(String),
}

/// What one exit means to run control.
#[derive(Clone, Debug, PartialEq, Eq)]
pub enum ExitEvent {
    /// Guest touched the MMIO hole.
    MmioRead { gpa: u64, len: usize },
    MmioWrite { gpa: u64, data: Vec<u8> },
    /// Deterministic-call window IN: the caller must fill the reply
    /// before re-entering the guest.
    DetcallIn { port: u16, len: usize },
    DetcallOut { port: u16, data: Vec<u8> },
    /// Debug serial OUT.
    SerialOut { port: u16, data: Vec<u8> },
    /// Debug serial IN: the caller must fill the reply before re-entry.
    SerialIn { port: u16, len: usize },
    /// Any other port: read-as-zero, writes ignored.
    PioIgnored { port: u16 },
    /// Filter-denied RDMSR, answered with the fixed policy value.
    MsrReadDenied { index: u32 },
    /// Filter-denied WRMSR, answered with #GP.
    MsrWriteDenied { index: u32, data: u64 },
    Hlt,
    Shutdown,
    /// The dirty ring filled: harvest, reset, resume.
    DirtyRingFull,
    /// Exit kinds other parts own, carried verbatim.
    Other(String),
}

/// What the dispatcher writes back into the exit before re-entry.
#[derive(Clone, Copy, Debug, PartialEq, Eq, Structural)]
pub enum ExitReply {
    /// Nothing to write.
    Nothing,
    /// Fill the port-IN buffer with zeros (read-as-zero).
    ZeroFill,
    /// Answer an MSR exit: data word and error flag.
    Msr { data: u64, error: u8 },
}

pub open spec fn in_detcall(port: u16) -> bool {
    PIO_DETCALL_BASE <= port < PIO_DETCALL_BASE + PIO_DETCALL_LEN
}

pub open spec fn in_serial(port: u16) -> bool {
    PIO_SERIAL_BASE <= port < PIO_SERIAL_BASE + PIO_SERIAL_LEN
}

/// The classification of an exit against the port and MMIO map, and the
/// deterministic reply it gets: unmapped port INs read as zero, denied
/// RDMSRs read 0 without error, denied WRMSRs raise #GP.
pub open spec fn spec_classify(exit: VcpuExitKind) -> (ExitEvent, ExitReply) {
    match exit {
        VcpuExitKind::MmioRead { gpa, len } => (ExitEvent::MmioRead { gpa, len }, ExitReply::Nothing),
        VcpuExitKind::MmioWrite { gpa, data } => (
            ExitEvent::MmioWrite { gpa, data },
            ExitReply::Nothing,
        ),
        VcpuExitKind::IoIn { port, len } => if in_detcall(port) {
            (ExitEvent::DetcallIn { port, len }, ExitReply::Nothing)
        } else if in_serial(port) {
            (ExitEvent::SerialIn { port, len }, ExitReply::Nothing)
        } else {
            (ExitEvent::PioIgnored { port }, ExitReply::ZeroFill)
        },
        VcpuExitKind::IoOut { port, data } => if in_detcall(port) {
            (ExitEvent::DetcallOut { port, data }, ExitReply::Nothing)
        } else if in_serial(port) {
            (ExitEvent::SerialOut { port, data }, ExitReply::Nothing)
        } else {
            (ExitEvent::PioIgnored { port }, ExitReply::Nothing)
        },
        VcpuExitKind::Rdmsr { index } => (
            ExitEvent::MsrReadDenied { index },
            ExitReply::Msr { data: 0, error: 0 },
        ),
        VcpuExitKind::Wrmsr { index, data } => (
            ExitEvent::MsrWriteDenied { index, data },
            ExitReply::Msr { data, error: 1 },
        ),
        VcpuExitKind::Hlt => (ExitEvent::Hlt, ExitReply::Nothing),
        VcpuExitKind::Shutdown => (ExitEvent::Shutdown, ExitReply::Nothing),
        VcpuExitKind::DirtyRingFull => (ExitEvent::DirtyRingFull, ExitReply::Nothing),
        VcpuExitKind::Other(s) => (ExitEvent::Other(s), ExitReply::Nothing),
    }
}

/// Classify one exit and decide the deterministic reply to write back.
pub fn classify_exit(exit: VcpuExitKind) -> (r: (ExitEvent, ExitReply))
    ensures
        r == spec_classify(exit),
{
    match exit {
        VcpuExitKind::MmioRead { gpa, len } => (ExitEvent::MmioRead { gpa, len }, ExitReply::Nothing),
        VcpuExitKind::MmioWrite { gpa, data } => (
            ExitEvent::MmioWrite { gpa, data },
            ExitReply::Nothing,
        ),
        VcpuExitKind::IoIn { port, len } => {
            if in_range(port, PIO_DETCALL_BASE, PIO_DETCALL_LEN) {
                (ExitEvent::DetcallIn { port, len }, ExitReply::Nothing)
            } else if in_range(port, PIO_SERIAL_BASE, PIO_SERIAL_LEN) {
                (ExitEvent::SerialIn { port, len }, ExitReply::Nothing)
            } else {
                (ExitEvent::PioIgnored { port }, ExitReply::ZeroFill)
            }
        },
        VcpuExitKind::IoOut { port, data } => {
            if in_range(port, PIO_DETCALL_BASE, PIO_DETCALL_LEN) {
                (ExitEvent::DetcallOut { port, data }, ExitReply::Nothing)
            } else if in_range(port, PIO_SERIAL_BASE, PIO_SERIAL_LEN) {
                (ExitEvent::SerialOut { port, data }, ExitReply::Nothing)
            } else {
                (ExitEvent::PioIgnored { port }, ExitReply::Nothing)
            }
        },
        VcpuExitKind::Rdmsr { index } => {
            let reply = match crate::msr::on_denied_rdmsr(index) {
                crate::msr::MsrAction::SupplyValue(v) => ExitReply::Msr { data: v, error: 0 },
                crate::msr::MsrAction::InjectGp => ExitReply::Msr { data: 0, error: 1 },
            };
            (ExitEvent::MsrReadDenied { index }, reply)
        },
        VcpuExitKind::Wrmsr { index, data } => {
            let reply = match crate::msr::on_denied_wrmsr(index) {
                crate::msr::MsrAction::InjectGp => ExitReply::Msr { data, error: 1 },
                crate::msr::MsrAction::SupplyValue(_) => ExitReply::Msr { data, error: 0 },
            };
            (ExitEvent::MsrWriteDenied { index, data }, reply)
        },
        VcpuExitKind::Hlt => (ExitEvent::Hlt, ExitReply::Nothing),
        VcpuExitKind::Shutdown => (ExitEvent::Shutdown, ExitReply::Nothing),
        VcpuExitKind::DirtyRingFull => (ExitEvent::DirtyRingFull, ExitReply::Nothing),
        VcpuExitKind::Other(s) => (ExitEvent::Other(s), ExitReply::Nothing),
    }
}

/// `n` is a power of two.
pub open spec fn is_power_of_two(n: u64) -> bool {
    exists|k: u64| k < 64 && n == #[trigger] (1u64 << k)
}

fn power_of_two(n: u64) -> (r: bool)
    ensures
        r == is_power_of_two(n),
{
    let mut k: u64 = 0;
    while k < 64
        invariant
            k <= 64,
            forall|j: u64| j < k ==> n != #[trigger] (1u64 << j),
        decreases 64 - k,
    {
        if n == 1u64 << k {
            return true;
        }
        k = k + 1;
    }
    false
}

/// Check a slot request before any resource is taken: RAM must stay below
/// the MMIO hole (`MemTooLarge`), and the dirty ring size must be a power of
/// two (`VmCreate`, naming the size).
pub fn validate_slot_request(mem_bytes: u64, ring_entries: u64) -> (r: Result<(), KvmError>)
    ensures
        mem_bytes > MMIO_HOLE_BASE ==> r == Err::<(), KvmError>(KvmError::MemTooLarge),
        mem_bytes <= MMIO_HOLE_BASE && !is_power_of_two(ring_entries) ==> (r matches Err(
            KvmError::VmCreate(m),
        ) && m@ == "dirty ring entries must be a power of two, got "@ + spec_decimal(
            ring_entries as nat,
        )),
        mem_bytes <= MMIO_HOLE_BASE && is_power_of_two(ring_entries) ==> r is Ok,
{
    if mem_bytes > MMIO_HOLE_BASE {
        return Err(KvmError::MemTooLarge);
    }
    if !power_of_two(ring_entries) {
        let m = String::from_str("dirty ring entries must be a power of two, got ").concat(
            decimal_string(ring_entries).as_str(),
        );
        return Err(KvmError::VmCreate(m));
    }
    Ok(())
}

/// `F_SEAL_SHRINK`: the memfd may not shrink.
pub const F_SEAL_SHRINK: i32 = 0x0002;

/// `F_SEAL_GROW`: the memfd may not grow.
pub const F_SEAL_GROW: i32 = 0x0004;

/// `F_SEAL_FUTURE_WRITE`: no new writable mapping or `write(2)`; existing
/// mappings keep their access.
pub const F_SEAL_FUTURE_WRITE: i32 = 0x0010;

/// The seals a frozen fork parent's RAM memfd carries: future writes,
/// shrinking and growing are all refused.
pub fn frozen_ram_seals() -> (r: i32)
    ensures
        r == F_SEAL_FUTURE_WRITE | F_SEAL_SHRINK | F_SEAL_GROW,
        r == 0x16,
{
    assert(F_SEAL_FUTURE_WRITE | F_SEAL_SHRINK | F_SEAL_GROW == 0x16i32) by (bit_vector);
    F_SEAL_FUTURE_WRITE | F_SEAL_SHRINK | F_SEAL_GROW
}

/// A copy-on-write child cannot be frozen: its diverged pages live in
/// anonymous memory, so sealing its memfd would freeze the parent's bytes.
pub fn check_freezable(ram_is_cow: bool) -> (r: Result<(), KvmError>)
    ensures
        !ram_is_cow <==> r is Ok,
        ram_is_cow ==> (r matches Err(KvmError::Memory(m)) && m@ == "freeze of a CoW child: its diverged pages live in anonymous memory, not the memfd \u{2014} sealing would freeze the PARENT's bytes and silently drop the divergence. TakeSnapshot the child and restore into a fresh slot to get a freezable base (see SlotVm::ram_is_cow)"@),
{
    if ram_is_cow {
        return Err(KvmError::Memory(String::from_str("freeze of a CoW child: its diverged pages live in anonymous memory, not the memfd \u{2014} sealing would freeze the PARENT's bytes and silently drop the divergence. TakeSnapshot the child and restore into a fresh slot to get a freezable base (see SlotVm::ram_is_cow)")));
    }
    Ok(())
}

/// A copy-on-write child cannot be a fork parent: its memfd is the
/// grandparent's, so a new child would see pre-divergence bytes.
pub fn check_fork_source(ram_is_cow: bool) -> (r: Result<(), KvmError>)
    ensures
        !ram_is_cow <==> r is Ok,
        ram_is_cow ==> (r matches Err(KvmError::Memory(m)) && m@ == "fork of a CoW child: its memfd is the GRANDPARENT's, so the new child would silently see pre-divergence bytes. TakeSnapshot + restore into a fresh slot first (see SlotVm::ram_is_cow)"@),
{
    if ram_is_cow {
        return Err(KvmError::Memory(String::from_str("fork of a CoW child: its memfd is the GRANDPARENT's, so the new child would silently see pre-divergence bytes. TakeSnapshot + restore into a fresh slot first (see SlotVm::ram_is_cow)")));
    }
    Ok(())
}

/// A fork parent must be frozen: its memfd's seal set (`F_GET_SEALS`)
/// holds `F_SEAL_FUTURE_WRITE`.
pub fn check_parent_frozen(seals: i32) -> (r: Result<(), KvmError>)
    ensures
        (seals & F_SEAL_FUTURE_WRITE != 0) <==> r is Ok,
        seals & F_SEAL_FUTURE_WRITE == 0 ==> (r matches Err(KvmError::Memory(m)) && m@ == "fork of an UNFROZEN parent (R9): freeze_ram first \u{2014} F_SEAL_FUTURE_WRITE is not set on the parent memfd"@),
{
    if seals & F_SEAL_FUTURE_WRITE == 0 {
        return Err(KvmError::Memory(String::from_str("fork of an UNFROZEN parent (R9): freeze_ram first \u{2014} F_SEAL_FUTURE_WRITE is not set on the parent memfd")));
    }
    Ok(())
}

/// How a `write(2)` to a memfd sealed against future writes ended.
#[derive(Clone, Debug, PartialEq, Eq)]
pub enum SealedWriteOutcome {
    Written,
    PermissionDenied,
    /// Any other failure, with its description.
    Failed(String),
}

/// How a new shared writable mapping of a sealed memfd ended.
#[derive(Clone, Debug, PartialEq, Eq)]
pub enum SealedSharedMapOutcome {
    Mapped,
    DeniedWithEperm,
    /// Any other failure, with its description.
    Failed(String),
}

/// The seal probe's first check: after `F_ADD_SEALS` the seal set must
/// hold `F_SEAL_FUTURE_WRITE`.
pub fn check_seal_applied(seals: i32) -> (r: Result<(), KvmError>)
    ensures
        (seals & F_SEAL_FUTURE_WRITE != 0) <==> r is Ok,
        seals & F_SEAL_FUTURE_WRITE == 0 ==> (r matches Err(KvmError::Memory(m)) && m@
            == "F_GET_SEALS missing F_SEAL_FUTURE_WRITE: "@ + "0x"@ + spec_hex(seals as u32 as nat)),
{
    if seals & F_SEAL_FUTURE_WRITE == 0 {
        let m = String::from_str("F_GET_SEALS missing F_SEAL_FUTURE_WRITE: ").concat(
            hex_string(seals as u32 as u64).as_str(),
        );
        return Err(KvmError::Memory(m));
    }
    Ok(())
}

/// The seal probe's second check: a `write(2)` after the seal must be
/// refused with permission denied.
pub fn check_sealed_write(outcome: SealedWriteOutcome) -> (r: Result<(), KvmError>)
    ensures
        (outcome == SealedWriteOutcome::PermissionDenied) <==> r is Ok,
        outcome == SealedWriteOutcome::Written ==> (r matches Err(KvmError::Memory(m)) && m@
            == "write(2) succeeded after F_SEAL_FUTURE_WRITE"@),
        forall|e: String|
            outcome == SealedWriteOutcome::Failed(e) ==> (r matches Err(KvmError::Memory(m)) && m@
                == "write(2) after F_SEAL_FUTURE_WRITE failed unexpectedly: "@ + e@),
{
    match outcome {
        SealedWriteOutcome::Written => Err(
            KvmError::Memory(String::from_str("write(2) succeeded after F_SEAL_FUTURE_WRITE")),
        ),
        SealedWriteOutcome::PermissionDenied => Ok(()),
        SealedWriteOutcome::Failed(e) => {
            let m = String::from_str("write(2) after F_SEAL_FUTURE_WRITE failed unexpectedly: ")
                .concat(e.as_str());
            Err(KvmError::Memory(m))
        },
    }
}

/// The seal probe's last check: a new shared writable mapping after the
/// seal must fail, and with `EPERM`.
pub fn check_sealed_shared_map(outcome: SealedSharedMapOutcome) -> (r: Result<(), KvmError>)
    ensures
        (outcome == SealedSharedMapOutcome::DeniedWithEperm) <==> r is Ok,
        outcome == SealedSharedMapOutcome::Mapped ==> (r matches Err(KvmError::Memory(m)) && m@
            == "new shared writable mmap succeeded after F_SEAL_FUTURE_WRITE"@),
        forall|e: String|
            outcome == SealedSharedMapOutcome::Failed(e) ==> (r matches Err(KvmError::Memory(m))
                && m@ == "new shared writable mmap failed with "@ + e@
                + "; want EPERM from F_SEAL_FUTURE_WRITE"@),
{
    match outcome {
        SealedSharedMapOutcome::Mapped => Err(
            KvmError::Memory(
                String::from_str("new shared writable mmap succeeded after F_SEAL_FUTURE_WRITE"),
            ),
        ),
        SealedSharedMapOutcome::DeniedWithEperm => Ok(()),
        SealedSharedMapOutcome::Failed(e) => {
            let m = String::from_str("new shared writable mmap failed with ").concat(e.as_str())
                .concat("; want EPERM from F_SEAL_FUTURE_WRITE");
            Err(KvmError::Memory(m))
        },
    }
}

/// The seal probe's report line once every check passed.
pub fn seal_probe_report(seals: i32) -> (r: String)
    ensures
        r@ == "seals="@ + "0x"@ + spec_hex(seals as u32 as nat)
            + "; write denied; CoW mmap ok; shared writable mmap denied"@,
{
    String::from_str("seals=").concat(hex_string(seals as u32 as u64).as_str()).concat(
        "; write denied; CoW mmap ok; shared writable mmap denied",
    )
}

/// How exits are answered: a port IN outside the deterministic-call window
/// (0xD370..0xD3A0) and the debug serial (0x3F8..0x400) reads as zeros,
/// while one inside either is left to its device and the two windows are
/// told apart; port OUTs and MMIO get no reply; a denied RDMSR reads 0
/// without error and a denied WRMSR always raises #GP. Every event carries
/// the exit's own port, address, length, index and data.
pub proof fn lemma_exit_replies(exit: VcpuExitKind)
    ensures
        ({
            let (ev, rep) = spec_classify(exit);
            &&& (exit matches VcpuExitKind::IoIn { port, len } ==> {
                &&& (0xD370 <= port < 0xD3A0 ==> ev == ExitEvent::DetcallIn { port, len }
                    && rep == ExitReply::Nothing)
                &&& (0x3F8 <= port < 0x400 ==> ev == ExitEvent::SerialIn { port, len } && rep
                    == ExitReply::Nothing)
                &&& (!(0xD370 <= port < 0xD3A0) && !(0x3F8 <= port < 0x400) ==> ev
                    == ExitEvent::PioIgnored { port } && rep == ExitReply::ZeroFill)
            })
            &&& (exit matches VcpuExitKind::IoOut { port, data } ==> {
                &&& rep == ExitReply::Nothing
                &&& (0xD370 <= port < 0xD3A0 ==> ev == ExitEvent::DetcallOut { port, data })
                &&& (0x3F8 <= port < 0x400 ==> ev == ExitEvent::SerialOut { port, data })
                &&& (!(0xD370 <= port < 0xD3A0) && !(0x3F8 <= port < 0x400) ==> ev
                    == ExitEvent::PioIgnored { port })
            })
            &&& (rep is ZeroFill ==> exit is IoIn)
            &&& (exit matches VcpuExitKind::MmioRead { gpa, len } ==> ev == ExitEvent::MmioRead {
                gpa,
                len,
            } && rep == ExitReply::Nothing)
            &&& (exit matches VcpuExitKind::MmioWrite { gpa, data } ==> ev
                == ExitEvent::MmioWrite { gpa, data } && rep == ExitReply::Nothing)
            &&& (exit matches VcpuExitKind::Rdmsr { index } ==> ev == ExitEvent::MsrReadDenied {
                index,
            } && rep == ExitReply::Msr { data: 0, error: 0 })
            &&& (exit matches VcpuExitKind::Wrmsr { index, data } ==> ev
                == ExitEvent::MsrWriteDenied { index, data } && rep is Msr && rep->error == 1)
        }),
{
}

} // verus!
