//! Recording support: the DHILOG END `stop_reason` byte, the END record's
//! fields from a segment outcome, and which exits the device rail services.

use crate::kvm::{in_serial, VcpuExitKind};
use crate::runctl::{SegmentOutcome, StopReason};
use vstd::prelude::*;

verus! {

/// The DHILOG END `stop_reason` byte of a segment outcome; it mirrors the
/// protocol's `StopReason` numbering.
pub open spec fn spec_stop_reason_byte(reason: StopReason) -> u8 {
    match reason {
        StopReason::BudgetReached => 1,
        StopReason::GoalSatisfied => 2,
        StopReason::HardCap => 4,
        StopReason::Paused => 5,
        StopReason::GuestHalted => 6,
        StopReason::NextSdkEvent => 7,
    }
}

/// The `stop_reason` byte for `reason`.
pub fn stop_reason_u8(reason: StopReason) -> (b: u8)
    ensures
        b == spec_stop_reason_byte(reason),
{
    match reason {
        StopReason::BudgetReached => 1,
        StopReason::GoalSatisfied => 2,
        StopReason::HardCap => 4,
        StopReason::Paused => 5,
        StopReason::GuestHalted => 6,
        StopReason::NextSdkEvent => 7,
    }
}

/// Distinct stop reasons get distinct bytes, so a reader recovers the
/// reason from the byte.
pub proof fn lemma_stop_reason_byte_injective(a: StopReason, b: StopReason)
    requires
        spec_stop_reason_byte(a) == spec_stop_reason_byte(b),
    ensures
        a == b,
{
}

/// Why recording an input or sealing a segment failed.
#[derive(Clone, Debug, PartialEq, Eq)]
pub enum RecordError {
    /// The pad device rejected the input.
    Pad(String),
    /// The net device rejected the frame.
    Net(String),
    /// The record could not be written.
    Log(String),
    /// The bus has no device of that kind, or a queued vector was never
    /// drained when the segment sealed.
    NoDevice(&'static str),
}

/// The END record's fields.
#[derive(Clone, Copy, Debug, PartialEq, Eq)]
pub struct SegmentSeal {
    pub end_snapshot_id: [u8; 32],
    pub end_icount: u64,
    pub end_vns: u64,
    pub end_state_hash: [u8; 32],
    pub stop_reason: u8,
}

/// Seal a segment from its outcome: the END record carries the stop
/// boundary, its vns, the state hash and the stop-reason byte. A vector a
/// device queued and nobody drained refuses the seal: a dropped injection
/// never seals as a healthy segment.
pub fn seal_fields(outcome: &SegmentOutcome, end_snapshot_id: [u8; 32], undrained_irqs: usize) -> (r:
    Result<SegmentSeal, RecordError>)
    ensures
        undrained_irqs > 0 ==> r == Err::<SegmentSeal, RecordError>(
            RecordError::NoDevice("undrained irq queue at seal"),
        ),
        undrained_irqs == 0 ==> r == Ok::<SegmentSeal, RecordError>(
            SegmentSeal {
                end_snapshot_id,
                end_icount: outcome.boundary.icount,
                end_vns: outcome.vns,
                end_state_hash: outcome.state_hash,
                stop_reason: spec_stop_reason_byte(outcome.reason),
            },
        ),
{
    if undrained_irqs > 0 {
        return Err(RecordError::NoDevice("undrained irq queue at seal"));
    }
    Ok(
        SegmentSeal {
            end_snapshot_id,
            end_icount: outcome.boundary.icount,
            end_vns: outcome.vns,
            end_state_hash: outcome.state_hash,
            stop_reason: stop_reason_u8(outcome.reason),
        },
    )
}

/// Where the device rail sends an exit.
#[derive(Clone, Copy, Debug, PartialEq, Eq, Structural)]
pub enum RailRoute {
    /// Debug-serial port write.
    SerialWrite,
    /// Debug-serial port read.
    SerialRead,
    /// MMIO read through the device bus.
    BusRead,
    /// MMIO write through the device bus.
    BusWrite,
    /// Anything else is a fatal surprise for the rail.
    Unexpected,
}

/// The rail's dispatch: serial-window port I/O goes to the debug serial,
/// MMIO to the device bus, everything else is unexpected.
pub fn rail_route(exit: &VcpuExitKind) -> (r: RailRoute)
    ensures
        r == match *exit {
            VcpuExitKind::IoOut { port, .. } => if in_serial(port) {
                RailRoute::SerialWrite
            } else {
                RailRoute::Unexpected
            },
            VcpuExitKind::IoIn { port, .. } => if in_serial(port) {
                RailRoute::SerialRead
            } else {
                RailRoute::Unexpected
            },
            VcpuExitKind::MmioRead { .. } => RailRoute::BusRead,
            VcpuExitKind::MmioWrite { .. } => RailRoute::BusWrite,
            _ => RailRoute::Unexpected,
        },
{
    match exit {
        VcpuExitKind::IoOut { port, .. } => if crate::kvm::in_range(
            *port,
            crate::kvm::PIO_SERIAL_BASE,
            crate::kvm::PIO_SERIAL_LEN,
        ) {
            RailRoute::SerialWrite
        } else {
            RailRoute::Unexpected
        },
        VcpuExitKind::IoIn { port, .. } => if crate::kvm::in_range(
            *port,
            crate::kvm::PIO_SERIAL_BASE,
            crate::kvm::PIO_SERIAL_LEN,
        ) {
            RailRoute::SerialRead
        } else {
            RailRoute::Unexpected
        },
        VcpuExitKind::MmioRead { .. } => RailRoute::BusRead,
        VcpuExitKind::MmioWrite { .. } => RailRoute::BusWrite,
        _ => RailRoute::Unexpected,
    }
}

} // verus!
