use dh_vmm::lapic::{
    LapicError, LocalApic, APIC_BASE_ENABLE, APIC_BASE_X2APIC, APIC_VERSION, LVT_MASKED,
    REG_EOI, REG_ESR, REG_ICR_HIGH, REG_ICR_LOW, REG_ID, REG_IRR_BASE, REG_ISR_BASE, REG_LDR,
    REG_LVT_LINT0, REG_LVT_LINT1, REG_LVT_TIMER, REG_SVR, REG_TIMER_CURRENT, REG_TIMER_INITIAL,
    REG_TPR, REG_VERSION, RESET_APIC_BASE_MSR, XAPIC_MMIO_BASE,
};
use dh_vmm::msr::MSR_IA32_APIC_BASE;

fn read4(apic: &LocalApic, off: u64) -> u32 {
    let mut data = [0u8; 4];
    apic.read_mmio(XAPIC_MMIO_BASE + off, &mut data).unwrap();
    u32::from_le_bytes(data)
}

fn write4(apic: &mut LocalApic, off: u64, value: u32) -> Result<(), LapicError> {
    apic.write_mmio(XAPIC_MMIO_BASE + off, &value.to_le_bytes())
}

#[test]
fn linux_lapic_reset_values_are_fixed() {
    let apic = LocalApic::new();
    assert_eq!(apic.read_msr(MSR_IA32_APIC_BASE), Ok(RESET_APIC_BASE_MSR));
    assert_eq!(read4(&apic, REG_ID), 0);
    assert_eq!(read4(&apic, REG_VERSION), APIC_VERSION);
    assert_eq!(read4(&apic, REG_SVR), 0xff);
    assert_eq!(read4(&apic, REG_LVT_TIMER), LVT_MASKED);
    assert_eq!(read4(&apic, REG_LVT_LINT0), LVT_MASKED);
    assert_eq!(read4(&apic, REG_TIMER_CURRENT), 0);
    assert_eq!(read4(&apic, REG_IRR_BASE), 0);
    assert_eq!(read4(&apic, REG_ISR_BASE), 0);
}

#[test]
fn linux_lapic_serves_register_reads_and_writes() {
    let mut apic = LocalApic::new();
    write4(&mut apic, REG_TPR, 0x44).unwrap();
    write4(&mut apic, REG_SVR, 0x1ff).unwrap();
    write4(&mut apic, REG_LVT_LINT0, LVT_MASKED | 0x31).unwrap();
    write4(&mut apic, REG_LVT_LINT1, LVT_MASKED | 0x32).unwrap();
    write4(&mut apic, REG_ESR, 0xffff_ffff).unwrap();

    assert_eq!(read4(&apic, REG_TPR), 0x44);
    assert_eq!(read4(&apic, REG_SVR), 0x1ff);
    assert_eq!(read4(&apic, REG_LVT_LINT0), LVT_MASKED | 0x31);
    assert_eq!(read4(&apic, REG_LVT_LINT1), LVT_MASKED | 0x32);
    assert_eq!(read4(&apic, REG_ESR), 0);
    assert_eq!(read4(&apic, REG_ID + 4), 0, "reserved dword reads as zero");
}

#[test]
fn linux_lapic_accepts_interrupts_without_host_irqchip() {
    let mut apic = LocalApic::new();
    assert_eq!(
        apic.accept_interrupt(0x41),
        Err(LapicError::InterruptsDisabled)
    );
    write4(&mut apic, REG_SVR, 0x1ff).unwrap();
    apic.accept_interrupt(0x41).unwrap();
    assert_eq!(read4(&apic, REG_IRR_BASE + 0x20), 1 << 1);
    assert_eq!(apic.next_pending_interrupt(), Some(0x41));
    assert_eq!(read4(&apic, REG_IRR_BASE + 0x20), 0);
    assert_eq!(read4(&apic, REG_ISR_BASE + 0x20), 1 << 1);
    write4(&mut apic, REG_EOI, 0).unwrap();
    assert_eq!(read4(&apic, REG_ISR_BASE + 0x20), 0);
}

#[test]
fn linux_lapic_rejects_timers_and_x2apic_without_host_time() {
    let mut apic = LocalApic::new();
    assert_eq!(
        write4(&mut apic, REG_LVT_TIMER, 0x40),
        Err(LapicError::UnsupportedTimer {
            offset: REG_LVT_TIMER,
            value: 0x40
        })
    );
    assert_eq!(
        write4(&mut apic, REG_TIMER_INITIAL, 1),
        Err(LapicError::UnsupportedTimer {
            offset: REG_TIMER_INITIAL,
            value: 1
        })
    );
    write4(&mut apic, REG_LVT_TIMER, LVT_MASKED | 0x40).unwrap();
    assert_eq!(
        apic.write_msr(MSR_IA32_APIC_BASE, RESET_APIC_BASE_MSR | APIC_BASE_X2APIC),
        Err(LapicError::X2ApicUnsupported)
    );
}

#[test]
fn linux_lapic_rejects_icr_delivery_without_silent_ack() {
    let mut apic = LocalApic::new();
    assert_eq!(
        write4(&mut apic, REG_ICR_LOW, 0x40),
        Err(LapicError::UnsupportedIcr {
            offset: REG_ICR_LOW,
            value: 0x40
        })
    );
    assert_eq!(
        write4(&mut apic, REG_ICR_HIGH, 0x0100_0000),
        Err(LapicError::UnsupportedIcr {
            offset: REG_ICR_HIGH,
            value: 0x0100_0000
        })
    );
    write4(&mut apic, REG_ICR_LOW, 0).unwrap();
    write4(&mut apic, REG_ICR_HIGH, 0).unwrap();
    assert!(apic.is_reset());
}

#[test]
fn linux_lapic_lapc_section_roundtrips_and_rejects_malformed_state() {
    let mut apic = LocalApic::new();
    write4(&mut apic, REG_TPR, 0x44).unwrap();
    write4(&mut apic, REG_LDR, 0x0102_0304).unwrap();
    write4(&mut apic, REG_SVR, 0x0000_01ff).unwrap();
    apic.accept_interrupt(0x41).unwrap();
    assert_eq!(
        LocalApic::from_lapc_section(apic.to_lapc_section()).unwrap(),
        apic
    );

    let mut bad = apic.to_lapc_section();
    bad.apic_base_msr = RESET_APIC_BASE_MSR | APIC_BASE_X2APIC;
    assert_eq!(
        LocalApic::from_lapc_section(bad),
        Err(LapicError::MalformedSnapshot(
            "x2APIC mode is not persisted"
        ))
    );

    let mut bad = apic.to_lapc_section();
    bad.lvt_timer = 0;
    assert_eq!(
        LocalApic::from_lapc_section(bad),
        Err(LapicError::MalformedSnapshot("unmasked lAPIC timer"))
    );
}

#[test]
fn linux_lapic_rejects_noncanonical_apic_base() {
    let mut apic = LocalApic::new();
    assert_eq!(
        apic.write_msr(MSR_IA32_APIC_BASE, 0xfee1_0000 | APIC_BASE_ENABLE),
        Err(LapicError::UnsupportedApicBase {
            value: 0xfee1_0000 | APIC_BASE_ENABLE
        })
    );
    apic.write_msr(MSR_IA32_APIC_BASE, XAPIC_MMIO_BASE | APIC_BASE_ENABLE)
        .unwrap();
    assert_eq!(apic.read_msr(MSR_IA32_APIC_BASE), Ok(RESET_APIC_BASE_MSR));
}

#[test]
fn read_after_write_returns_the_written_tpr() {
    let mut apic = LocalApic::new();
    write4(&mut apic, REG_TPR, 0x7f).unwrap();
    assert_eq!(read4(&apic, REG_TPR), 0x7f);
    assert!(!apic.is_reset());
}

#[test]
fn mmio_outside_the_page_or_unaligned_is_refused() {
    let apic = LocalApic::new();
    let mut data = [0u8; 4];
    assert!(apic.read_mmio(XAPIC_MMIO_BASE + 0x1000, &mut data).is_err());
    let mut two = [0u8; 2];
    assert!(apic.read_mmio(XAPIC_MMIO_BASE + REG_TPR, &mut two).is_err());
    let mut wide = [0u8; 8];
    assert!(apic.read_mmio(XAPIC_MMIO_BASE + REG_TPR + 4, &mut wide).is_err());
}
