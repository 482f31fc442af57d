use dh_vmm::kvm::{
    check_fork_source, check_freezable, check_parent_frozen, check_seal_applied,
    check_sealed_shared_map, check_sealed_write, frozen_ram_seals, seal_probe_report, KvmError,
    SealedSharedMapOutcome, SealedWriteOutcome, F_SEAL_FUTURE_WRITE, F_SEAL_GROW, F_SEAL_SHRINK,
};

fn memory_message(r: Result<(), KvmError>) -> String {
    match r {
        Err(KvmError::Memory(m)) => m,
        other => panic!("expected a Memory error, got {other:?}"),
    }
}

#[test]
fn seal_constants_are_the_kernel_abi() {
    assert_eq!(F_SEAL_SHRINK, libc::F_SEAL_SHRINK);
    assert_eq!(F_SEAL_GROW, libc::F_SEAL_GROW);
    assert_eq!(F_SEAL_FUTURE_WRITE, libc::F_SEAL_FUTURE_WRITE);
    assert_eq!(
        frozen_ram_seals(),
        libc::F_SEAL_FUTURE_WRITE | libc::F_SEAL_SHRINK | libc::F_SEAL_GROW
    );
    assert_eq!(frozen_ram_seals(), 0x16);
}

#[test]
fn only_a_memfd_backed_slot_can_be_frozen() {
    assert_eq!(check_freezable(false), Ok(()));
    let m = memory_message(check_freezable(true));
    assert!(m.starts_with("freeze of a CoW child: its diverged pages live in anonymous memory"));
    assert!(m.ends_with("(see SlotVm::ram_is_cow)"));
}

#[test]
fn fork_needs_a_frozen_non_cow_parent() {
    assert_eq!(check_fork_source(false), Ok(()));
    let m = memory_message(check_fork_source(true));
    assert!(m.starts_with("fork of a CoW child: its memfd is the GRANDPARENT's, so the new child"));

    assert_eq!(check_parent_frozen(frozen_ram_seals()), Ok(()));
    assert_eq!(check_parent_frozen(F_SEAL_FUTURE_WRITE), Ok(()));
    let m = memory_message(check_parent_frozen(F_SEAL_SHRINK | F_SEAL_GROW));
    assert_eq!(
        m,
        "fork of an UNFROZEN parent (R9): freeze_ram first \u{2014} F_SEAL_FUTURE_WRITE is not set on the parent memfd"
    );
    assert!(check_parent_frozen(0).is_err());
}

#[test]
fn seal_probe_checks() {
    assert_eq!(check_seal_applied(0x16), Ok(()));
    assert_eq!(
        memory_message(check_seal_applied(0x6)),
        "F_GET_SEALS missing F_SEAL_FUTURE_WRITE: 0x6"
    );
    assert_eq!(
        memory_message(check_seal_applied(0)),
        "F_GET_SEALS missing F_SEAL_FUTURE_WRITE: 0x0"
    );

    assert_eq!(check_sealed_write(SealedWriteOutcome::PermissionDenied), Ok(()));
    assert_eq!(
        memory_message(check_sealed_write(SealedWriteOutcome::Written)),
        "write(2) succeeded after F_SEAL_FUTURE_WRITE"
    );
    assert_eq!(
        memory_message(check_sealed_write(SealedWriteOutcome::Failed("Bad file descriptor".to_string()))),
        "write(2) after F_SEAL_FUTURE_WRITE failed unexpectedly: Bad file descriptor"
    );

    assert_eq!(check_sealed_shared_map(SealedSharedMapOutcome::DeniedWithEperm), Ok(()));
    assert_eq!(
        memory_message(check_sealed_shared_map(SealedSharedMapOutcome::Mapped)),
        "new shared writable mmap succeeded after F_SEAL_FUTURE_WRITE"
    );
    assert_eq!(
        memory_message(check_sealed_shared_map(SealedSharedMapOutcome::Failed(
            "No such device".to_string()
        ))),
        "new shared writable mmap failed with No such device; want EPERM from F_SEAL_FUTURE_WRITE"
    );

    assert_eq!(
        seal_probe_report(0x16),
        "seals=0x16; write denied; CoW mmap ok; shared writable mmap denied"
    );
    assert_eq!(
        seal_probe_report(0x1f),
        "seals=0x1f; write denied; CoW mmap ok; shared writable mmap denied"
    );
}
