use dh_vmm::boundary::{landing_action, Boundary, LandingAction, Margins};
use dh_vmm::inject::{inject_action, injectable, injection_at, InjectAction, InjectWindow, Injection};

#[test]
fn landing_decisions_follow_the_distance_to_target() {
    let m = Margins {
        skid_margin: 100,
        resync_slack: 10,
    };
    assert_eq!(landing_action(1000, 10_000, false, &m), LandingAction::ArmAndRun { period: 8900 });
    assert_eq!(landing_action(9_890, 10_000, false, &m), LandingAction::StartStepping);
    assert_eq!(landing_action(9_950, 10_000, true, &m), LandingAction::Step);
    assert_eq!(landing_action(10_000, 10_000, true, &m), LandingAction::Landed);
    assert_eq!(landing_action(10_001, 10_000, false, &m), LandingAction::Overshoot);
    assert_eq!(landing_action(1000, 10_000, true, &m), LandingAction::Step);
}

#[test]
fn default_margins_are_the_config_defaults() {
    let m = Margins::default();
    assert_eq!(m.skid_margin, 8192);
    assert_eq!(m.resync_slack, 1024);
}

fn open_window() -> InjectWindow {
    InjectWindow {
        ready_for_interrupt_injection: 1,
        if_flag: 1,
        exception_pending: 0,
        exception_injected: 0,
        interrupt_shadow: 0,
    }
}

#[test]
fn injection_waits_for_an_open_window() {
    assert!(injectable(&open_window()));
    let shadowed = InjectWindow {
        interrupt_shadow: 1,
        ..open_window()
    };
    assert!(!injectable(&shadowed));
    let masked = InjectWindow {
        if_flag: 0,
        ..open_window()
    };
    assert!(!injectable(&masked));
    assert_eq!(inject_action(&open_window(), 5, 4), InjectAction::Queue);
    assert_eq!(inject_action(&shadowed, 3, 4), InjectAction::StepForward);
    assert_eq!(inject_action(&shadowed, 4, 4), InjectAction::GiveUp);
}

#[test]
fn injection_records_request_and_delivery_boundaries() {
    let at = Boundary {
        icount: 120,
        rip: 0x4000,
        rcx: 7,
    };
    assert_eq!(
        injection_at(0x41, 100, at),
        Injection {
            vector: 0x41,
            requested_icount: 100,
            delivered_icount: 120,
            delivered_rip: 0x4000
        }
    );
}
