use dh_vmm::msr::{
    allow_range_bitmap, allow_ranges, allowed_msrs, on_denied_rdmsr, on_denied_wrmsr,
    MsrAction, MSR_CSTAR, MSR_EFER, MSR_FS_BASE, MSR_GS_BASE, MSR_KERNEL_GS_BASE, MSR_LSTAR,
    MSR_PAT, MSR_SFMASK, MSR_SPEC_CTRL, MSR_STAR, MSR_SYSENTER_CS, MSR_SYSENTER_EIP,
    MSR_SYSENTER_ESP, MSR_TSC_AUX,
};

#[test]
fn policy_is_fixed_and_total() {
    assert_eq!(on_denied_rdmsr(0xE7), MsrAction::SupplyValue(0));
    assert_eq!(on_denied_rdmsr(0x1A0), MsrAction::SupplyValue(0));
    assert_eq!(on_denied_wrmsr(0xE7), MsrAction::InjectGp);
}

#[test]
fn allow_ranges_cover_exactly_the_chosen_set() {
    let allowed: Vec<u32> = allow_ranges()
        .iter()
        .flat_map(|(base, count)| *base..*base + *count)
        .collect();
    assert_eq!(
        allowed,
        vec![
            MSR_SPEC_CTRL,
            MSR_SYSENTER_CS,
            MSR_SYSENTER_ESP,
            MSR_SYSENTER_EIP,
            MSR_PAT,
            MSR_EFER,
            MSR_STAR,
            MSR_LSTAR,
            MSR_CSTAR,
            MSR_SFMASK,
            MSR_FS_BASE,
            MSR_GS_BASE,
            MSR_KERNEL_GS_BASE,
            MSR_TSC_AUX,
        ]
    );
    assert_eq!(allowed_msrs(), allowed);
}

#[test]
fn range_bitmaps_allow_every_listed_msr() {
    assert_eq!(allow_range_bitmap(1), vec![0xff]);
    assert_eq!(allow_range_bitmap(5), vec![0xff]);
    assert_eq!(allow_range_bitmap(8), vec![0xff]);
    assert_eq!(allow_range_bitmap(9), vec![0xff, 0xff]);
    assert_eq!(allow_range_bitmap(0), Vec::<u8>::new());
}
