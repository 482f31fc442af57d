use dh_vmm::boundary::Boundary;
use dh_vmm::kvm::VcpuExitKind;
use dh_vmm::recording::{rail_route, seal_fields, stop_reason_u8, RailRoute, RecordError, SegmentSeal};
use dh_vmm::runctl::{SegmentOutcome, StopReason};

#[test]
fn stop_reason_bytes_mirror_proto_numbers() {
    assert_eq!(stop_reason_u8(StopReason::BudgetReached), 1);
    assert_eq!(stop_reason_u8(StopReason::GoalSatisfied), 2);
    assert_eq!(stop_reason_u8(StopReason::HardCap), 4);
    assert_eq!(stop_reason_u8(StopReason::Paused), 5);
    assert_eq!(stop_reason_u8(StopReason::GuestHalted), 6);
}

#[test]
fn every_stop_reason_has_its_own_byte() {
    let all = [
        StopReason::BudgetReached,
        StopReason::GoalSatisfied,
        StopReason::HardCap,
        StopReason::Paused,
        StopReason::GuestHalted,
        StopReason::NextSdkEvent,
    ];
    let bytes: Vec<u8> = all.iter().map(|r| stop_reason_u8(*r)).collect();
    for i in 0..bytes.len() {
        for j in i + 1..bytes.len() {
            assert_ne!(bytes[i], bytes[j]);
        }
    }
    assert_eq!(stop_reason_u8(StopReason::NextSdkEvent), 7);
}

#[test]
fn seal_takes_the_outcome_and_refuses_undrained_vectors() {
    let outcome = SegmentOutcome {
        reason: StopReason::Paused,
        boundary: Boundary { icount: 123_456, rip: 0x1000, rcx: 7 },
        vns: 246_912,
        state_hash: [0xAB; 32],
        injections_delivered: 2,
        timer_fired: None,
        frames_elapsed: 3,
    };
    assert_eq!(
        seal_fields(&outcome, [0x11; 32], 0),
        Ok(SegmentSeal {
            end_snapshot_id: [0x11; 32],
            end_icount: 123_456,
            end_vns: 246_912,
            end_state_hash: [0xAB; 32],
            stop_reason: 5,
        })
    );
    assert_eq!(
        seal_fields(&outcome, [0x11; 32], 1),
        Err(RecordError::NoDevice("undrained irq queue at seal"))
    );
}

#[test]
fn rail_services_serial_pio_and_mmio_only() {
    assert_eq!(rail_route(&VcpuExitKind::IoOut { port: 0x3F8, data: vec![b'x'] }), RailRoute::SerialWrite);
    assert_eq!(rail_route(&VcpuExitKind::IoIn { port: 0x3FD, len: 1 }), RailRoute::SerialRead);
    assert_eq!(rail_route(&VcpuExitKind::IoOut { port: 0x400, data: vec![0] }), RailRoute::Unexpected);
    assert_eq!(rail_route(&VcpuExitKind::IoIn { port: 0xD370, len: 4 }), RailRoute::Unexpected);
    assert_eq!(rail_route(&VcpuExitKind::MmioRead { gpa: 0xD000_0000, len: 4 }), RailRoute::BusRead);
    assert_eq!(
        rail_route(&VcpuExitKind::MmioWrite { gpa: 0xD000_0010, data: vec![1, 0, 0, 0] }),
        RailRoute::BusWrite
    );
    assert_eq!(rail_route(&VcpuExitKind::Hlt), RailRoute::Unexpected);
    assert_eq!(rail_route(&VcpuExitKind::Rdmsr { index: 0x10 }), RailRoute::Unexpected);
}
