use dh_vmm::boundary::BoundaryError;
use dh_vmm::agenda::{FinalStop, StopKind};
use dh_vmm::config::HashEpochs;
use dh_vmm::runctl::{
    decide_at_point, plan_point_deliveries, Delivery, PointDecision,
    decode_frame_mark, epoch_hashes_enabled, epoch_index, frame_budget_reached, merge_timer,
    pause_target, plan_until, sdk_event_reached, stop_reason_of, timer_to_injection,
    unwind_reason, FrameMarkDecode, FrameTracker, RunError, RunOptions, ScheduledFrameInput,
    ScheduledInjection, StopReason, TimerArm, Until,
};
use dh_vmm::vt::ClockRatio;

#[test]
fn conversion_follows_the_ceil_rule_and_clamps() {
    let c11 = ClockRatio::new(1, 1).unwrap();
    let inj = timer_to_injection(
        TimerArm {
            deadline_vns: 5_000,
            vector: 0x40,
        },
        c11,
        0,
    )
    .unwrap();
    assert_eq!(
        inj,
        ScheduledInjection {
            icount: 5_000,
            vector: 0x40
        }
    );

    let c21 = ClockRatio::new(2, 1).unwrap();
    assert_eq!(
        timer_to_injection(
            TimerArm {
                deadline_vns: 9,
                vector: 1
            },
            c21,
            0
        )
        .unwrap()
        .icount,
        5
    );

    assert_eq!(
        timer_to_injection(
            TimerArm {
                deadline_vns: 10,
                vector: 1
            },
            c11,
            10_000
        )
        .unwrap()
        .icount,
        10_001
    );
}

#[test]
fn linux_cpu_compat_timer_conversion_is_counter_space_and_deterministic() {
    let clock = ClockRatio::new(3, 2).unwrap();
    let arm = TimerArm {
        deadline_vns: 10,
        vector: 0x41,
    };
    let a = timer_to_injection(arm, clock, 0).unwrap();
    let b = timer_to_injection(arm, clock, 0).unwrap();
    assert_eq!(a, b);
    assert_eq!(
        a,
        ScheduledInjection {
            icount: 7,
            vector: 0x41
        },
        "ceil(10 * 2 / 3) = 7 guest instructions"
    );
    assert_eq!(
        timer_to_injection(arm, clock, 20).unwrap().icount,
        21,
        "expired timers clamp to the next guest-instruction boundary"
    );
}

#[test]
fn timer_beyond_the_counter_space_is_an_overflow() {
    let slow = ClockRatio::new(1, 2).unwrap();
    assert_eq!(
        timer_to_injection(
            TimerArm {
                deadline_vns: u64::MAX,
                vector: 1
            },
            slow,
            0
        ),
        Err(RunError::ClockOverflow)
    );
}

#[test]
fn merged_timer_is_appended_and_its_slot_reported() {
    let injections = [ScheduledInjection { icount: 50, vector: 0x20 }];
    let (all, slot) = merge_timer(
        &injections,
        Some(TimerArm {
            deadline_vns: 100,
            vector: 0x30,
        }),
        ClockRatio::default(),
        0,
    )
    .unwrap();
    assert_eq!(
        all,
        vec![
            ScheduledInjection { icount: 50, vector: 0x20 },
            ScheduledInjection { icount: 100, vector: 0x30 }
        ]
    );
    assert_eq!(slot, Some(1));
    let (same, none) = merge_timer(&injections, None, ClockRatio::default(), 0).unwrap();
    assert_eq!(same, injections.to_vec());
    assert_eq!(none, None);
}

#[test]
fn run_plans_follow_the_until_mode() {
    let p = plan_until(Until::Goal { poll_period: 0, hard_cap: 9 });
    assert_eq!(p.final_stop, FinalStop::HardCap(9));
    assert!(p.goal_poll_period.is_none());
    let p = plan_until(Until::Goal { poll_period: 7, hard_cap: 9 });
    assert_eq!(p.goal_poll_period.map(|n| n.get()), Some(7));
    let p = plan_until(Until::FrameBudget { frames: 3, hard_cap: 100 });
    assert_eq!(p.frame_target, Some(3));
    assert_eq!(p.event_reason, StopReason::BudgetReached);
    let p = plan_until(Until::NextSdkEvent { hard_cap: 100 });
    assert!(p.needs_sdk_feed);
    assert_eq!(p.event_reason, StopReason::NextSdkEvent);
    let p = plan_until(Until::IcountBudget(5));
    assert_eq!(p.final_stop, FinalStop::IcountBudget(5));
    assert!(!p.needs_sdk_feed);
}

#[test]
fn epoch_hashing_and_stop_reasons() {
    let opts = RunOptions::default();
    assert!(epoch_hashes_enabled(HashEpochs::EpochsOn, opts));
    assert!(!epoch_hashes_enabled(HashEpochs::FinalOnly, opts));
    let paranoid = RunOptions {
        paranoid_hash: true,
        ..opts
    };
    assert!(epoch_hashes_enabled(HashEpochs::FinalOnly, paranoid));
    assert_eq!(stop_reason_of(StopKind::Budget), StopReason::BudgetReached);
    assert_eq!(stop_reason_of(StopKind::HardCap), StopReason::HardCap);
    assert_eq!(
        unwind_reason(true, true, StopReason::NextSdkEvent),
        Some(StopReason::GuestHalted)
    );
    assert_eq!(
        unwind_reason(false, true, StopReason::NextSdkEvent),
        Some(StopReason::NextSdkEvent)
    );
    assert_eq!(unwind_reason(false, false, StopReason::NextSdkEvent), None);
}

#[test]
fn frame_marks_decode_and_track() {
    let gpa = 0xD000_2010;
    assert_eq!(decode_frame_mark(gpa, gpa + 4, &[1, 0, 0, 0]), FrameMarkDecode::NotAMark);
    assert_eq!(decode_frame_mark(gpa, gpa, &[1, 0]), FrameMarkDecode::Malformed);
    assert_eq!(decode_frame_mark(gpa, gpa, &[5, 1, 0, 0]), FrameMarkDecode::Mark(0x105));

    let inputs = [
        ScheduledFrameInput { frame: 3, index: 0 },
        ScheduledFrameInput { frame: 4, index: 1 },
        ScheduledFrameInput { frame: 3, index: 2 },
    ];
    let mut t = FrameTracker::new(2, inputs.len());
    assert_eq!(t.on_frame_mark(3, &inputs).unwrap(), vec![0, 2]);
    assert_eq!(t.frames_seen, 1);
    assert!(t.on_frame_mark(3, &inputs).is_err(), "frame counter must increase");
    assert_eq!(t.on_frame_mark(4, &inputs).unwrap(), vec![1]);
    assert!(frame_budget_reached(Some(2), t.frames_seen));
    assert!(!frame_budget_reached(None, t.frames_seen));
    assert!(sdk_event_reached(5, 4));
    assert!(!sdk_event_reached(4, 4));
}

#[test]
fn pauses_roll_forward_to_the_epoch_grid() {
    assert_eq!(pause_target(1, 1000), 1000);
    assert_eq!(pause_target(1000, 1000), 1000);
    assert_eq!(pause_target(1001, 1000), 2000);
    assert_eq!(pause_target(0, 1000), 1000);
    assert_eq!(epoch_index(2000, 1000), 2);
    assert_eq!(epoch_index(7, 0), 7);
}

#[test]
fn agenda_point_decisions_follow_the_precedence() {
    let opts = RunOptions::default();
    assert_eq!(
        decide_at_point(false, true, Some(StopKind::Budget), true, true, opts, true, 500, 1000),
        PointDecision::Stop {
            reason: StopReason::GoalSatisfied,
            push_final_link: true
        }
    );
    assert_eq!(
        decide_at_point(true, false, Some(StopKind::HardCap), false, false, opts, true, 1000, 1000),
        PointDecision::Stop {
            reason: StopReason::HardCap,
            push_final_link: false
        }
    );
    let no_final_epoch = RunOptions {
        hash_final_epoch: false,
        ..opts
    };
    assert_eq!(
        decide_at_point(true, false, Some(StopKind::Budget), false, false, no_final_epoch, true, 1000, 1000),
        PointDecision::Stop {
            reason: StopReason::BudgetReached,
            push_final_link: true
        }
    );
    assert_eq!(
        decide_at_point(true, false, None, false, true, opts, true, 2000, 1000),
        PointDecision::PauseHere
    );
    assert_eq!(
        decide_at_point(false, true, None, false, true, opts, false, 2500, 1000),
        PointDecision::RollForward {
            target: 3000,
            record_epoch: false
        }
    );
    assert_eq!(
        decide_at_point(false, true, None, false, false, opts, true, 2500, 1000),
        PointDecision::Continue
    );
}

#[test]
fn point_deliveries_put_input_vectors_first_and_step_between() {
    let all = [
        ScheduledInjection { icount: 100, vector: 0x30 },
        ScheduledInjection { icount: 100, vector: 0x31 },
        ScheduledInjection { icount: 100, vector: 0x40 },
    ];
    let plan = plan_point_deliveries(&[0x50, 0x51], &[0, 2], &all, Some(2));
    assert_eq!(
        plan.deliveries,
        vec![
            Delivery { vector: 0x50, step_first: false, is_timer: false },
            Delivery { vector: 0x51, step_first: true, is_timer: false },
            Delivery { vector: 0x30, step_first: true, is_timer: false },
            Delivery { vector: 0x40, step_first: true, is_timer: true },
        ]
    );
    assert!(!plan.checkpointable_epoch);
    let plan = plan_point_deliveries(&[], &[1], &all, None);
    assert_eq!(plan.deliveries, vec![Delivery { vector: 0x31, step_first: false, is_timer: false }]);
    let plan = plan_point_deliveries(&[], &[], &all, Some(0));
    assert!(plan.deliveries.is_empty() && plan.checkpointable_epoch);
}

#[test]
fn final_and_goal_stops_win_near_the_end_of_counter_space() {
    let icount = u64::MAX - 1;
    let d = decide_at_point(false, false, Some(StopKind::HardCap), false, true, RunOptions::default(), true, icount, 1 << 20);
    assert!(matches!(d, PointDecision::Stop { reason: StopReason::HardCap, .. }));
    let d = decide_at_point(false, true, None, true, true, RunOptions::default(), true, icount, 1 << 20);
    assert!(matches!(d, PointDecision::Stop { reason: StopReason::GoalSatisfied, .. }));
}

#[test]
fn a_frame_counter_that_does_not_rise_is_refused_with_both_values() {
    let inputs = [ScheduledFrameInput { frame: 12, index: 0 }];
    let mut t = FrameTracker::new(10, 1);
    assert_eq!(t.on_frame_mark(12, &inputs), Ok(vec![0]));
    assert_eq!(
        t.on_frame_mark(12, &inputs),
        Err(BoundaryError::Exit(
            "FRAME_COUNTER must increase monotonically: previous 12, got 12".to_string()
        ))
    );
    assert_eq!(t.frames_seen, 1);
}
