use dh_vmm::agenda::AgendaError;
use dh_vmm::boot::linux_bzimage::{BzImageError, LinuxBootLayoutError};
use dh_vmm::boot::{BootError, MAX_CMDLINE};
use dh_vmm::boundary::BoundaryError;
use dh_vmm::inject::InjectError;
use dh_vmm::runctl::RunError;

#[test]
fn bzimage_error_messages() {
    let cases: Vec<(BzImageError, String)> = vec![
        (
            BzImageError::TruncatedSetupHeader { len: 100, min: 0x268 },
            format!("bzImage setup header truncated: got {} bytes, need {}", 100, 0x268),
        ),
        (
            BzImageError::BadHeaderMagic { found: [0x7f, 0x45, 0x4c, 0x46] },
            format!("bzImage setup header magic is not HdrS: {:02x?}", [0x7fu8, 0x45, 0x4c, 0x46]),
        ),
        (
            BzImageError::BadHeaderMagic { found: [0, 1, 0xa, 0xff] },
            format!("bzImage setup header magic is not HdrS: {:02x?}", [0u8, 1, 0xa, 0xff]),
        ),
        (
            BzImageError::UnsupportedProtocolVersion { found: 0x20b, min: 0x20c },
            format!(
                "bzImage protocol {:#06x} is unsupported, need >= {:#06x}",
                0x20bu16, 0x20cu16
            ),
        ),
        (
            BzImageError::UnsupportedProtocolVersion { found: 0x7, min: 0xabcd },
            format!("bzImage protocol {:#06x} is unsupported, need >= {:#06x}", 0x7u16, 0xabcdu16),
        ),
        (
            BzImageError::UnsupportedLoadFlags { loadflags: 0x2 },
            format!("bzImage loadflags {:#04x} do not set LOADED_HIGH", 0x2u8),
        ),
        (
            BzImageError::UnsupportedXloadflags { xloadflags: 0x1f, supported: 0x3 },
            format!(
                "bzImage xloadflags {:#06x} exceed supported mask {:#06x}",
                0x1fu16, 0x3u16
            ),
        ),
        (BzImageError::PayloadOverflow, "bzImage payload offset overflows".to_string()),
        (
            BzImageError::PayloadOutsideImage { start: 0x4000, len: 0x1_0000, image_len: 0x8000 },
            format!(
                "bzImage payload [{:#x}..+{:#x}) exceeds image length {:#x}",
                0x4000u64, 0x1_0000u64, 0x8000u64
            ),
        ),
        (
            BzImageError::SetupHeaderTooShort { end: 0x250, min: 0x268 },
            format!(
                "bzImage setup header copy end {:#x} is before required parsed end {:#x}",
                0x250usize, 0x268usize
            ),
        ),
        (
            BzImageError::BadInitSize { init_size: 0 },
            format!("bzImage init_size {:#x} is not usable", 0u32),
        ),
        (
            BzImageError::BadKernelAlignment { alignment: 0x3000 },
            format!(
                "bzImage kernel_alignment {:#x} is not a supported power-of-two alignment",
                0x3000u32
            ),
        ),
        (
            BzImageError::UnsupportedRelocatableCombination {
                alignment: 0x20_0000,
                pref_address: 0x100_1000,
            },
            format!(
                "bzImage relocatable kernel has pref_address {:#x} not aligned to {:#x}",
                0x100_1000u64, 0x20_0000u32
            ),
        ),
        (
            BzImageError::InitramfsTooLarge { len: 5_000_000, limit: 4_000_000 },
            format!("initramfs length {} exceeds placement limit {}", 5_000_000u64, 4_000_000u64),
        ),
        (
            BzImageError::CmdlineTooLong { len: 5000, limit: 4095 },
            format!("Linux cmdline length {} exceeds limit {}", 5000, 4095),
        ),
        (
            BzImageError::UnsupportedSetupHeaderField { field: "hardware_subarch", value: 1 },
            format!(
                "bzImage setup header field {}={:#x} is outside the deterministic subset",
                "hardware_subarch", 1u64
            ),
        ),
    ];
    for (e, want) in cases {
        assert_eq!(e.message(), want);
    }
}

#[test]
fn boot_layout_error_messages() {
    let cases: Vec<(LinuxBootLayoutError, String)> = vec![
        (
            LinuxBootLayoutError::CmdlineTooLong { len: 5000, limit: 4095 },
            format!("Linux cmdline length {} exceeds layout limit {}", 5000, 4095),
        ),
        (
            LinuxBootLayoutError::MemOverlapsApicMmio { mem_bytes: 0xfee0_1000, apic_base: 0xfee0_0000 },
            format!(
                "guest RAM end {:#x} overlaps APIC MMIO base {:#x}",
                0xfee0_1000u64, 0xfee0_0000u64
            ),
        ),
        (
            LinuxBootLayoutError::MemOverlapsDeviceWindow { mem_bytes: 0xd000_1000, device_base: 0xd000_0000 },
            format!(
                "guest RAM end {:#x} overlaps deterministic device window {:#x}",
                0xd000_1000u64, 0xd000_0000u64
            ),
        ),
        (
            LinuxBootLayoutError::RangeOverflow { label: "initramfs" },
            format!("{} placement overflowed u64", "initramfs"),
        ),
        (
            LinuxBootLayoutError::KernelOutsideRam { end: 0x300_0000, mem_bytes: 0x200_0000 },
            format!(
                "bzImage kernel image end {:#x} exceeds guest RAM {:#x}",
                0x300_0000u64, 0x200_0000u64
            ),
        ),
        (
            LinuxBootLayoutError::InitramfsTooLarge { len: 10, limit: 9 },
            format!("initramfs length {} exceeds placement limit {}", 10, 9),
        ),
        (
            LinuxBootLayoutError::InitramfsOverlapsKernel { start: 0x1000, kernel_reserved_end: 0x2000 },
            format!(
                "initramfs start {:#x} overlaps kernel reservation ending at {:#x}",
                0x1000u64, 0x2000u64
            ),
        ),
        (
            LinuxBootLayoutError::E820TooManyEntries { count: 200, max: 128 },
            format!("e820 entry count {} exceeds boot_params cap {}", 200, 128),
        ),
    ];
    for (e, want) in cases {
        assert_eq!(e.message(), want);
    }
}

#[test]
fn loader_error_messages() {
    assert_eq!(BootError::Elf("bad magic".to_string()).message(), "elf: bad magic");
    assert_eq!(BootError::Mem("out of range".to_string()).message(), "guest memory: out of range");
    assert_eq!(BootError::Kvm("EINVAL".to_string()).message(), "kvm: EINVAL");
    assert_eq!(
        BootError::CmdlineTooLong.message(),
        format!("cmdline exceeds {MAX_CMDLINE} bytes")
    );
    assert_eq!(BootError::CmdlineTooLong.message(), "cmdline exceeds 4064 bytes");
}

#[test]
fn run_control_error_messages() {
    let over = BoundaryError::Overshoot { target: 1000, counted: 1003 };
    assert_eq!(
        over.message(),
        "OVERSHOOT: counted 1003 past target 1000 (skid margin too small)"
    );
    assert_eq!(BoundaryError::Counter("EBUSY".to_string()).message(), "counter: EBUSY");
    assert_eq!(BoundaryError::Kvm("KVM_RUN: EFAULT".to_string()).message(), "kvm: KVM_RUN: EFAULT");
    assert_eq!(BoundaryError::Exit("triple fault".to_string()).message(), "exit handler: triple fault");

    assert_eq!(
        InjectError::Boundary(over.clone()).message(),
        "landing: OVERSHOOT: counted 1003 past target 1000 (skid margin too small)"
    );
    assert_eq!(InjectError::Kvm("KVM_INTERRUPT".to_string()).message(), "kvm: KVM_INTERRUPT");
    assert_eq!(
        InjectError::WindowNeverOpened { stepped: 4096 }.message(),
        "interrupt window never opened within 4096 steps"
    );

    assert_eq!(
        RunError::Agenda(AgendaError::BudgetOverflow).message(),
        format!("agenda: {:?}", AgendaError::BudgetOverflow)
    );
    assert_eq!(
        RunError::Boundary(over.clone()).message(),
        "boundary: OVERSHOOT: counted 1003 past target 1000 (skid margin too small)"
    );
    assert_eq!(
        RunError::Inject(InjectError::WindowNeverOpened { stepped: 7 }).message(),
        "inject: interrupt window never opened within 7 steps"
    );
    assert_eq!(RunError::Kvm("x".to_string()).message(), "kvm: x");
    assert_eq!(RunError::ClockOverflow.message(), "vns/icount conversion overflow");
    assert_eq!(
        RunError::MissingSdkEventFeed.message(),
        "Until::NextSdkEvent requires Segment::sdk_events (the caller's matching-event count)"
    );
}
