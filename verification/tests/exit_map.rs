use dh_vmm::kvm::{
    classify_exit, in_range, validate_slot_request, ExitEvent, ExitReply, KvmError,
    VcpuExitKind, MMIO_HOLE_BASE, MMIO_HOLE_LEN, PIO_DETCALL_BASE, PIO_DETCALL_LEN,
    PIO_SERIAL_BASE, PIO_SERIAL_LEN,
};

#[test]
fn pio_classification_table() {
    assert!(in_range(0xD370, PIO_DETCALL_BASE, PIO_DETCALL_LEN));
    assert!(in_range(0xD39F, PIO_DETCALL_BASE, PIO_DETCALL_LEN));
    assert!(!in_range(0xD3A0, PIO_DETCALL_BASE, PIO_DETCALL_LEN));
    assert!(in_range(0x3F8, PIO_SERIAL_BASE, PIO_SERIAL_LEN));
    assert!(in_range(0x3FF, PIO_SERIAL_BASE, PIO_SERIAL_LEN));
    assert!(!in_range(0x400, PIO_SERIAL_BASE, PIO_SERIAL_LEN));
}

#[test]
fn mmio_hole_covers_device_windows() {
    for base in [0xD000_0000u64, 0xD000_1000, 0xD000_2000, 0xD000_4000] {
        assert!(base >= MMIO_HOLE_BASE && base + 4096 <= MMIO_HOLE_BASE + MMIO_HOLE_LEN);
    }
}

#[test]
fn mem_above_hole_rejected() {
    assert_eq!(
        validate_slot_request(MMIO_HOLE_BASE + 0x1000, 65536),
        Err(KvmError::MemTooLarge)
    );
}

#[test]
fn slot_request_needs_a_power_of_two_ring() {
    assert_eq!(validate_slot_request(2 << 20, 65536), Ok(()));
    assert_eq!(validate_slot_request(MMIO_HOLE_BASE, 1), Ok(()));
    assert_eq!(
        validate_slot_request(2 << 20, 1000),
        Err(KvmError::VmCreate(
            "dirty ring entries must be a power of two, got 1000".into()
        ))
    );
    assert!(validate_slot_request(2 << 20, 0).is_err());
}

#[test]
fn exits_classify_against_the_port_map() {
    assert_eq!(
        classify_exit(VcpuExitKind::IoIn { port: 0x60, len: 1 }),
        (ExitEvent::PioIgnored { port: 0x60 }, ExitReply::ZeroFill)
    );
    assert_eq!(
        classify_exit(VcpuExitKind::IoOut { port: 0x3F8, data: vec![b'a'] }),
        (ExitEvent::SerialOut { port: 0x3F8, data: vec![b'a'] }, ExitReply::Nothing)
    );
    assert_eq!(
        classify_exit(VcpuExitKind::IoIn { port: 0xD371, len: 4 }),
        (ExitEvent::DetcallIn { port: 0xD371, len: 4 }, ExitReply::Nothing)
    );
}

#[test]
fn denied_msrs_read_zero_and_writes_fault() {
    assert_eq!(
        classify_exit(VcpuExitKind::Rdmsr { index: 0x1234 }),
        (ExitEvent::MsrReadDenied { index: 0x1234 }, ExitReply::Msr { data: 0, error: 0 })
    );
    assert_eq!(
        classify_exit(VcpuExitKind::Wrmsr { index: 0x1234, data: 9 }),
        (
            ExitEvent::MsrWriteDenied { index: 0x1234, data: 9 },
            ExitReply::Msr { data: 9, error: 1 }
        )
    );
    assert_eq!(
        classify_exit(VcpuExitKind::Hlt),
        (ExitEvent::Hlt, ExitReply::Nothing)
    );
}
