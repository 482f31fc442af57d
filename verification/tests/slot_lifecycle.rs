use dh_vmm::SlotState::{Empty, Faulted, Frozen, Paused, Running};
use dh_vmm::{
    initial_slot_state, m0_missing_caps_summary, missing_caps, required_caps_template, KvmCaps,
    SlotState, SlotStateError,
};

const ALL: [SlotState; 5] = [Empty, Running, Paused, Frozen, Faulted];

#[test]
fn template_satisfies_m0_caps() {
    assert!(missing_caps(&required_caps_template()).is_empty());
}

#[test]
fn m0_summary_format_is_stable() {
    assert_eq!(m0_missing_caps_summary(), "kvm_m0_missing_caps=0");
}

#[test]
fn missing_caps_names_each_absent_capability() {
    let caps = KvmCaps {
        user_space_msr: false,
        msr_filter: true,
        dirty_ring: false,
        immediate_exit: true,
        no_in_kernel_irqchip: true,
    };
    let missing = missing_caps(&caps);
    assert_eq!(missing.len(), 2);
}

#[test]
fn transition_matrix_is_exactly_the_spec_relation() {
    let allowed = [
        (Empty, Paused),
        (Paused, Running),
        (Running, Paused),
        (Paused, Frozen),
        (Frozen, Paused),
        (Paused, Empty),
        (Frozen, Empty),
        (Running, Faulted),
        (Paused, Faulted),
        (Faulted, Empty),
    ];
    for from in ALL {
        for to in ALL {
            let expect = allowed.contains(&(from, to));
            assert_eq!(
                from.can_transition(to),
                expect,
                "transition {from:?} -> {to:?}: expected allowed={expect}"
            );
            match from.transition(to) {
                Ok(next) => {
                    assert!(expect);
                    assert_eq!(next, to);
                }
                Err(SlotStateError::InvalidTransition { from: f, to: t }) => {
                    assert!(!expect);
                    assert_eq!((f, t), (from, to));
                }
                Err(other) => panic!("wrong error kind: {other:?}"),
            }
        }
    }
}

#[test]
fn no_self_transitions() {
    for s in ALL {
        assert!(!s.can_transition(s), "{s:?} -> {s:?} must be rejected");
    }
}

#[test]
fn running_cannot_be_destroyed_or_frozen_directly() {
    assert!(!Running.can_transition(Empty));
    assert!(!Running.can_transition(Frozen));
}

#[test]
fn frozen_denies_every_write_path_loudly() {
    assert_eq!(
        Frozen.ensure_write_path("inject_inputs"),
        Err(SlotStateError::FrozenWriteDenied {
            api: "inject_inputs"
        })
    );
    assert_eq!(
        Empty.ensure_write_path("run"),
        Err(SlotStateError::EmptyWriteDenied { api: "run" })
    );
    assert_eq!(Paused.ensure_write_path("restore"), Ok(()));
    assert_eq!(Running.ensure_write_path("mmio"), Ok(()));
    assert_eq!(
        Faulted.ensure_write_path("run"),
        Err(SlotStateError::FaultedWriteDenied { api: "run" })
    );
}

#[test]
fn structural_properties_hold() {
    for s in ALL {
        assert_eq!(
            s.can_transition(Faulted),
            matches!(s, Running | Paused),
            "{s:?} fault reachability"
        );
        let reaches_empty = s == Empty
            || s.can_transition(Empty)
            || ALL
                .iter()
                .any(|mid| s.can_transition(*mid) && mid.can_transition(Empty));
        assert!(reaches_empty, "{s:?} cannot reach Empty");
    }
}

#[test]
fn faulted_is_terminal_short_of_destroy() {
    for to in [Running, Paused, Frozen, Faulted] {
        assert!(!Faulted.can_transition(to), "Faulted -> {to:?}");
    }
    assert!(Faulted.can_transition(Empty));
    assert!(!Frozen.can_transition(Faulted));
    assert!(!Empty.can_transition(Faulted));
}

#[test]
fn fork_lifecycle_walk() {
    let mut s = initial_slot_state();
    for to in [Paused, Frozen, Paused, Frozen, Empty] {
        s = s.transition(to).unwrap();
    }
    assert_eq!(s, Empty);
}
