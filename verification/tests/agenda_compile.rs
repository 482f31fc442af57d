use dh_vmm::agenda::{
    compile, AgendaError, AgendaInputs, FinalStop, NonZeroU64, StopKind, StopPoint,
};
use dh_vmm::vt::ClockRatio;

struct XorShift(u64);
impl XorShift {
    fn next(&mut self) -> u64 {
        let mut x = self.0;
        x ^= x << 13;
        x ^= x >> 7;
        x ^= x << 17;
        self.0 = x;
        x
    }
}

fn nz(v: u64) -> NonZeroU64 {
    NonZeroU64::new(v).unwrap()
}

fn inputs<'a>(injections: &'a [u64]) -> AgendaInputs<'a> {
    AgendaInputs {
        start_icount: 0,
        scheduled_inputs: &[],
        injections,
        epoch_len: Some(nz(1000)),
        goal_poll_period: None,
        final_stop: FinalStop::IcountBudget(10_000),
        clock: ClockRatio::default(),
    }
}

#[test]
fn merges_all_sources_sorted() {
    let agenda = compile(&AgendaInputs {
        start_icount: 0,
        scheduled_inputs: &[1500, 3000],
        injections: &[1500, 500, 3000],
        epoch_len: Some(nz(1000)),
        goal_poll_period: Some(nz(1500)),
        final_stop: FinalStop::IcountBudget(3000),
        clock: ClockRatio::default(),
    })
    .unwrap();

    let icounts: Vec<u64> = agenda.iter().map(|p| p.icount).collect();
    assert_eq!(icounts, vec![500, 1000, 1500, 2000, 3000]);

    let p1500 = &agenda[2];
    assert_eq!(p1500.inputs, vec![0]);
    assert_eq!(p1500.injections, vec![0]);
    assert!(p1500.goal_poll && !p1500.epoch_hash && p1500.final_stop.is_none());

    let p3000 = agenda.last().unwrap();
    assert_eq!(p3000.inputs, vec![1]);
    assert_eq!(p3000.injections, vec![2]);
    assert!(p3000.epoch_hash && p3000.goal_poll);
    assert_eq!(p3000.final_stop, Some(StopKind::Budget));
}

#[test]
fn stop_kind_distinguishes_budget_from_hard_cap() {
    for (fs, kind) in [
        (FinalStop::IcountBudget(100), StopKind::Budget),
        (FinalStop::VnsBudget(100), StopKind::Budget),
        (FinalStop::HardCap(100), StopKind::HardCap),
    ] {
        let a = compile(&AgendaInputs {
            final_stop: fs,
            ..inputs(&[])
        })
        .unwrap();
        assert_eq!(a.last().unwrap().final_stop, Some(kind), "{fs:?}");
    }
}

#[test]
fn injections_outside_window_excluded() {
    let agenda = compile(&AgendaInputs {
        start_icount: 2000,
        injections: &[2000, 1999, 2001, 12_000, 12_001],
        ..inputs(&[])
    })
    .unwrap();
    let injected: Vec<u64> = agenda
        .iter()
        .filter(|p| !p.injections.is_empty())
        .map(|p| p.icount)
        .collect();
    assert_eq!(injected, vec![2001, 12_000]);
}

#[test]
fn epoch_grid_aligns_to_segment_polls_align_to_run() {
    let a = compile(&AgendaInputs {
        start_icount: 1500,
        goal_poll_period: Some(nz(1000)),
        final_stop: FinalStop::IcountBudget(2500),
        ..inputs(&[])
    })
    .unwrap();
    let hashes: Vec<u64> = a
        .iter()
        .filter(|p| p.epoch_hash)
        .map(|p| p.icount)
        .collect();
    assert_eq!(hashes, vec![2000, 3000, 4000]);
    let polls: Vec<u64> = a.iter().filter(|p| p.goal_poll).map(|p| p.icount).collect();
    assert_eq!(
        polls,
        vec![2500, 3500],
        "first poll one full period after run start"
    );
}

#[test]
fn grid_point_at_u64_max_no_overflow() {
    let a = compile(&AgendaInputs {
        start_icount: u64::MAX - 2,
        scheduled_inputs: &[],
        injections: &[],
        epoch_len: Some(nz(1)),
        goal_poll_period: Some(nz(1)),
        final_stop: FinalStop::IcountBudget(2),
        clock: ClockRatio::default(),
    })
    .unwrap();
    let icounts: Vec<u64> = a.iter().map(|p| p.icount).collect();
    assert_eq!(icounts, vec![u64::MAX - 1, u64::MAX]);
    assert!(a.iter().all(|p| p.epoch_hash && p.goal_poll));
    assert_eq!(a.last().unwrap().final_stop, Some(StopKind::Budget));
}

#[test]
fn vns_budget_converts_via_clock() {
    let clock = ClockRatio::new(1, 3).unwrap();
    let agenda = compile(&AgendaInputs {
        start_icount: 10,
        scheduled_inputs: &[],
        injections: &[],
        epoch_len: None,
        goal_poll_period: None,
        final_stop: FinalStop::VnsBudget(5),
        clock,
    })
    .unwrap();
    assert_eq!(agenda.len(), 1);
    assert_eq!(agenda[0].icount, 24);
    assert_eq!(agenda[0].final_stop, Some(StopKind::Budget));
}

#[test]
fn zero_budget_stops_at_start() {
    for fs in [FinalStop::IcountBudget(0), FinalStop::VnsBudget(0)] {
        let agenda = compile(&AgendaInputs {
            start_icount: 777,
            final_stop: fs,
            ..inputs(&[])
        })
        .unwrap();
        assert_eq!(agenda.len(), 1);
        assert_eq!(agenda[0].icount, 777, "{fs:?}");
        assert!(agenda[0].final_stop.is_some());
    }
}

#[test]
fn errors_are_loud() {
    assert_eq!(
        compile(&AgendaInputs {
            start_icount: u64::MAX - 5,
            final_stop: FinalStop::IcountBudget(10),
            ..inputs(&[])
        }),
        Err(AgendaError::BudgetOverflow)
    );
    let fast = ClockRatio::new(u32::MAX, 1).unwrap();
    assert_eq!(
        compile(&AgendaInputs {
            start_icount: u64::MAX / 2,
            scheduled_inputs: &[],
            injections: &[],
            epoch_len: None,
            goal_poll_period: None,
            final_stop: FinalStop::VnsBudget(0),
            clock: fast,
        }),
        Err(AgendaError::BudgetOverflow)
    );
}

#[test]
fn prop_pure_sorted_unique_bounded_and_replay_identical() {
    let mut rng = XorShift(0x2545F4914F6CDD1D);
    for case in 0..2000u32 {
        let edge = case % 8 == 0;
        let start = if edge {
            u64::MAX - 2 - rng.next() % 1_000
        } else {
            rng.next() % 1_000_000
        };
        let budget = if edge {
            rng.next() % (u64::MAX - start)
        } else {
            rng.next() % 1_000_000
        };
        let injections: Vec<u64> = (0..rng.next() % 20)
            .map(|_| {
                if edge {
                    start.saturating_add(rng.next() % 2_000)
                } else {
                    rng.next() % 2_000_000
                }
            })
            .collect();
        let scheduled_inputs: Vec<u64> = (0..rng.next() % 20)
            .map(|_| {
                if edge {
                    start.saturating_add(rng.next() % 2_000)
                } else {
                    rng.next() % 2_000_000
                }
            })
            .collect();
        let epoch_len = if rng.next() % 4 != 0 {
            Some(nz(1 + rng.next() % 50_000))
        } else {
            None
        };
        let goal_poll_period = if rng.next() % 2 == 0 {
            Some(nz(1 + rng.next() % 50_000))
        } else {
            None
        };
        let final_stop = match rng.next() % 3 {
            0 => FinalStop::IcountBudget(budget),
            1 if !edge => FinalStop::VnsBudget(budget),
            _ => FinalStop::HardCap(budget),
        };
        let clock = ClockRatio::new(
            1 + (rng.next() % 1000) as u32,
            1 + (rng.next() % 1000) as u32,
        )
        .unwrap();
        let in1 = AgendaInputs {
            start_icount: start,
            scheduled_inputs: &scheduled_inputs,
            injections: &injections,
            epoch_len,
            goal_poll_period,
            final_stop,
            clock,
        };
        let a = compile(&in1).unwrap();
        assert_eq!(a, compile(&in1).unwrap());

        assert!(a.windows(2).all(|w| w[0].icount < w[1].icount));

        let last = a.last().unwrap();
        assert!(last.final_stop.is_some());
        assert_eq!(a.iter().filter(|p| p.final_stop.is_some()).count(), 1);
        for p in &a {
            assert!(p.icount >= start && p.icount <= last.icount);
            assert!(p.icount > start || (p.icount == start && p.final_stop.is_some()));
            assert!(
                !p.injections.is_empty()
                    || !p.inputs.is_empty()
                    || p.epoch_hash
                    || p.goal_poll
                    || p.final_stop.is_some()
            );
            assert!(p.inputs.windows(2).all(|w| w[0] < w[1]));
            assert!(p.injections.windows(2).all(|w| w[0] < w[1]));
        }

        for (idx, &at) in scheduled_inputs.iter().enumerate() {
            let hits: Vec<&StopPoint> = a.iter().filter(|p| p.inputs.contains(&idx)).collect();
            if at > start && at <= last.icount {
                assert_eq!(hits.len(), 1);
                assert_eq!(hits[0].icount, at);
            } else {
                assert!(hits.is_empty());
            }
        }

        for (idx, &at) in injections.iter().enumerate() {
            let hits: Vec<&StopPoint> =
                a.iter().filter(|p| p.injections.contains(&idx)).collect();
            if at > start && at <= last.icount {
                assert_eq!(hits.len(), 1);
                assert_eq!(hits[0].icount, at);
            } else {
                assert!(hits.is_empty());
            }
        }

        if let Some(len) = in1.epoch_len {
            let len = len.get();
            for p in &a {
                assert_eq!(p.epoch_hash, p.icount % len == 0 && p.icount > start);
            }
        }
        if let Some(period) = in1.goal_poll_period {
            let period = period.get();
            for p in &a {
                let rel = p.icount - start;
                assert_eq!(p.goal_poll, rel > 0 && rel % period == 0);
            }
        }
    }
}
