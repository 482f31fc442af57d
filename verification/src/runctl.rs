//! Run control decisions for one segment: how an `until` mode becomes an
//! agenda final stop, how a guest-armed timer becomes a scheduled
//! injection (the ceil rule), how frame marks and SDK events stop a run,
//! which boundaries get a hash link, and where an asynchronous pause rolls
//! forward to. The KVM run loop that performs the work drives these.

use crate::agenda::{AgendaError, FinalStop, NonZeroU64, StopKind};
use crate::boundary::{boundary_error_text, Boundary, BoundaryError};
use crate::inject::inject_error_text;
use crate::text::{decimal_string, spec_decimal};
use crate::config::HashEpochs;
use crate::inject::InjectError;
use crate::vt::ClockRatio;
use vstd::prelude::*;

verus! {

/// Deferral budget per injection (each step is one single-step entry).
pub const INJECT_DEFER_BUDGET: u64 = 65536;

/// The `until` of a run request.
#[derive(Clone, Copy, Debug, PartialEq, Eq, Structural)]
pub enum Until {
    /// Stop after this many more instructions.
    IcountBudget(u64),
    /// Stop at the first icount where vns advanced by at least this much.
    VnsBudget(u64),
    /// Poll a goal every `poll_period` instructions under a hard cap.
    Goal { poll_period: u64, hard_cap: u64 },
    /// Stop on the exit whose drain produced a matching SDK event.
    NextSdkEvent { hard_cap: u64 },
    /// Stop on the frame-boundary exit of the Nth frame mark.
    FrameBudget { frames: u64, hard_cap: u64 },
}

/// Per-run audit knobs that do not change the machine identity.
#[derive(Clone, Copy, Debug, PartialEq, Eq, Structural)]
pub struct RunOptions {
    /// Force full-memory epoch links even under `FinalOnly`.
    pub paranoid_hash: bool,
    /// Push the segment-final link at a non-epoch stop.
    pub hash_final_stop: bool,
    /// Push an epoch hash when the stop itself is an epoch boundary.
    pub hash_final_epoch: bool,
}

impl Default for RunOptions {
    fn default() -> (r: Self)
        ensures
            !r.paranoid_hash && r.hash_final_stop && r.hash_final_epoch,
    {
        RunOptions { paranoid_hash: false, hash_final_stop: true, hash_final_epoch: true }
    }
}

/// Why the segment stopped.
#[derive(Clone, Copy, Debug, PartialEq, Eq, Structural)]
pub enum StopReason {
    BudgetReached,
    GoalSatisfied,
    HardCap,
    Paused,
    /// The guest executed a terminal HLT mid-segment.
    GuestHalted,
    /// A matching SDK event stopped a `next_sdk_event` run.
    NextSdkEvent,
}

/// One scheduled injection: vector at a segment-relative icount.
#[derive(Clone, Copy, Debug, PartialEq, Eq, Structural)]
pub struct ScheduledInjection {
    pub icount: u64,
    pub vector: u8,
}

/// One frame-scheduled canonical input: apply `index` when the guest
/// writes absolute frame counter value `frame`.
#[derive(Clone, Copy, Debug, PartialEq, Eq, Structural)]
pub struct ScheduledFrameInput {
    pub frame: u32,
    pub index: usize,
}

/// A guest-armed one-shot timer; `deadline_vns` is in counter-space vns.
#[derive(Clone, Copy, Debug, PartialEq, Eq, Structural)]
pub struct TimerArm {
    pub deadline_vns: u64,
    pub vector: u8,
}

/// A fired timer delivery, for the TIMER_FIRE record.
#[derive(Clone, Copy, Debug, PartialEq, Eq, Structural)]
pub struct TimerFired {
    pub vector: u8,
    pub armed_deadline_vns: u64,
    pub delivered_icount: u64,
}

/// A finished segment.
#[derive(Clone, Copy, Debug, PartialEq, Eq)]
pub struct SegmentOutcome {
    pub reason: StopReason,
    pub boundary: Boundary,
    pub vns: u64,
    pub state_hash: [u8; 32],
    /// Scheduled injections actually delivered.
    pub injections_delivered: u64,
    /// The timer delivery, if the armed timer fired in this segment.
    pub timer_fired: Option<TimerFired>,
    /// Frame-boundary exits observed during this segment.
    pub frames_elapsed: u64,
}

#[derive(Clone, Debug, PartialEq, Eq)]
pub enum RunError {
    Agenda(AgendaError),
    Boundary(BoundaryError),
    Inject(InjectError),
    Kvm(String),
    /// vns/icount conversion overflowed u64 space.
    ClockOverflow,
    /// `Until::NextSdkEvent` without a matching-event feed.
    MissingSdkEventFeed,
}

/// The ceil rule: the timer fires at the smallest icount whose vns reaches
/// the deadline, and never before the first boundary after the segment
/// start.
pub open spec fn spec_timer_icount(clock: ClockRatio, deadline_vns: u64, start_icount: u64) -> int {
    if clock.spec_target(deadline_vns as int) < start_icount + 1 {
        start_icount + 1
    } else {
        clock.spec_target(deadline_vns as int)
    }
}

/// Convert a guest-armed timer into a scheduled injection.
pub fn timer_to_injection(timer: TimerArm, clock: ClockRatio, start_icount: u64) -> (r: Result<
    ScheduledInjection,
    RunError,
>)
    requires
        start_icount < u64::MAX,
    ensures
        clock.spec_target(timer.deadline_vns as int) > u64::MAX ==> r == Err::<
            ScheduledInjection,
            RunError,
        >(RunError::ClockOverflow),
        clock.spec_target(timer.deadline_vns as int) <= u64::MAX ==> r == Ok::<
            ScheduledInjection,
            RunError,
        >(
            ScheduledInjection {
                icount: spec_timer_icount(clock, timer.deadline_vns, start_icount) as u64,
                vector: timer.vector,
            },
        ),
{
    let target = match clock.icount_for_vns_target(timer.deadline_vns) {
        Some(t) => t,
        None => return Err(RunError::ClockOverflow),
    };
    let icount = if target < start_icount + 1 {
        start_icount + 1
    } else {
        target
    };
    Ok(ScheduledInjection { icount, vector: timer.vector })
}

/// How an `until` mode drives the agenda and the event stops.
#[derive(Clone, Copy, Debug, PartialEq, Eq)]
pub struct RunPlan {
    /// The agenda's final stop.
    pub final_stop: FinalStop,
    /// Goal poll spacing, for `Goal` runs with a nonzero period.
    pub goal_poll_period: Option<NonZeroU64>,
    /// Frame marks that stop a `FrameBudget` run.
    pub frame_target: Option<u64>,
    /// Whether the run needs the caller's matching-event feed.
    pub needs_sdk_feed: bool,
    /// The reason an event stop reports.
    pub event_reason: StopReason,
}

/// The plan of an `until` mode: budgets are final stops of their own, the
/// goal and event modes walk toward their hard cap.
pub fn plan_until(until: Until) -> (r: RunPlan)
    ensures
        match until {
            Until::IcountBudget(b) => r.final_stop == FinalStop::IcountBudget(b)
                && r.goal_poll_period is None,
            Until::VnsBudget(b) => r.final_stop == FinalStop::VnsBudget(b)
                && r.goal_poll_period is None,
            Until::Goal { poll_period, hard_cap } => r.final_stop == FinalStop::HardCap(hard_cap)
                && (poll_period == 0 ==> r.goal_poll_period is None) && (poll_period != 0
                ==> (r.goal_poll_period matches Some(p) && p.spec_get() == poll_period)),
            Until::NextSdkEvent { hard_cap } => r.final_stop == FinalStop::HardCap(hard_cap)
                && r.goal_poll_period is None,
            Until::FrameBudget { hard_cap, .. } => r.final_stop == FinalStop::HardCap(hard_cap)
                && r.goal_poll_period is None,
        },
        r.frame_target == (match until {
            Until::FrameBudget { frames, .. } => Some(frames),
            _ => None,
        }),
        r.needs_sdk_feed == (until is NextSdkEvent),
        r.event_reason == (if until is FrameBudget {
            StopReason::BudgetReached
        } else {
            StopReason::NextSdkEvent
        }),
{
    let (final_stop, goal_poll_period) = match until {
        Until::IcountBudget(b) => (FinalStop::IcountBudget(b), None),
        Until::VnsBudget(b) => (FinalStop::VnsBudget(b), None),
        Until::Goal { poll_period, hard_cap } => (
            FinalStop::HardCap(hard_cap),
            NonZeroU64::new(poll_period),
        ),
        Until::NextSdkEvent { hard_cap } => (FinalStop::HardCap(hard_cap), None),
        Until::FrameBudget { hard_cap, .. } => (FinalStop::HardCap(hard_cap), None),
    };
    let frame_target = match until {
        Until::FrameBudget { frames, .. } => Some(frames),
        _ => None,
    };
    let needs_sdk_feed = match until {
        Until::NextSdkEvent { .. } => true,
        _ => false,
    };
    let event_reason = match until {
        Until::FrameBudget { .. } => StopReason::BudgetReached,
        _ => StopReason::NextSdkEvent,
    };
    RunPlan { final_stop, goal_poll_period, frame_target, needs_sdk_feed, event_reason }
}

/// The scheduled injections with the guest-armed timer, converted by the
/// ceil rule, appended last; the index of the timer's entry.
pub fn merge_timer(
    injections: &[ScheduledInjection],
    timer: Option<TimerArm>,
    clock: ClockRatio,
    start_icount: u64,
) -> (r: Result<(Vec<ScheduledInjection>, Option<usize>), RunError>)
    requires
        start_icount < u64::MAX,
    ensures
        match timer {
            None => r matches Ok((v, slot)) && v@ == injections@ && slot is None,
            Some(t) => if clock.spec_target(t.deadline_vns as int) > u64::MAX {
                r == Err::<(Vec<ScheduledInjection>, Option<usize>), RunError>(
                    RunError::ClockOverflow,
                )
            } else {
                r matches Ok((v, slot)) && v@ == injections@.push(
                    ScheduledInjection {
                        icount: spec_timer_icount(clock, t.deadline_vns, start_icount) as u64,
                        vector: t.vector,
                    },
                ) && slot == Some(injections@.len() as usize)
            },
        },
{
    let mut all: Vec<ScheduledInjection> = Vec::new();
    let mut i: usize = 0;
    while i < injections.len()
        invariant
            i <= injections@.len(),
            all@ == injections@.subrange(0, i as int),
        decreases injections@.len() - i,
    {
        all.push(injections[i]);
        i = i + 1;
        assert(all@ =~= injections@.subrange(0, i as int));
    }
    assert(injections@.subrange(0, injections@.len() as int) =~= injections@);
    match timer {
        Some(t) => {
            let inj = match timer_to_injection(t, clock, start_icount) {
                Ok(v) => v,
                Err(e) => return Err(e),
            };
            all.push(inj);
            let slot = all.len() - 1;
            Ok((all, Some(slot)))
        },
        None => Ok((all, None)),
    }
}

/// Epoch hashes are taken under `EpochsOn`, or when the paranoid audit
/// option forces them.
pub fn epoch_hashes_enabled(hash_epochs: HashEpochs, options: RunOptions) -> (r: bool)
    ensures
        r == (hash_epochs == HashEpochs::EpochsOn || options.paranoid_hash),
{
    match hash_epochs {
        HashEpochs::EpochsOn => true,
        HashEpochs::FinalOnly => options.paranoid_hash,
    }
}

/// The epoch grid the agenda compiles: none when epoch hashes are off.
pub fn agenda_epoch_len(enabled: bool, epoch_len: u64) -> (r: Option<NonZeroU64>)
    ensures
        !enabled ==> r is None,
        enabled && epoch_len == 0 ==> r is None,
        enabled && epoch_len != 0 ==> (r matches Some(e) && e.spec_get() == epoch_len),
{
    if enabled {
        NonZeroU64::new(epoch_len)
    } else {
        None
    }
}

/// How an exit reads against the frame-counter register.
#[derive(Clone, Copy, Debug, PartialEq, Eq, Structural)]
pub enum FrameMarkDecode {
    /// Not a frame-counter write.
    NotAMark,
    /// A frame mark carrying the absolute frame counter.
    Mark(u32),
    /// A frame-counter write without a 4-byte payload.
    Malformed,
}

/// Decode an MMIO write at `gpa` against the frame-counter register at
/// `frame_mark_gpa`.
pub fn decode_frame_mark(frame_mark_gpa: u64, gpa: u64, data: &[u8]) -> (r: FrameMarkDecode)
    ensures
        gpa != frame_mark_gpa ==> r == FrameMarkDecode::NotAMark,
        gpa == frame_mark_gpa && data@.len() != 4 ==> r == FrameMarkDecode::Malformed,
        gpa == frame_mark_gpa && data@.len() == 4 ==> r == FrameMarkDecode::Mark(
            crate::codec::u32_at(data@, 0),
        ),
{
    if gpa != frame_mark_gpa {
        FrameMarkDecode::NotAMark
    } else if data.len() != 4 {
        FrameMarkDecode::Malformed
    } else {
        FrameMarkDecode::Mark(crate::codec::read_le32(data, 0))
    }
}

/// Frame-mark bookkeeping of one segment.
#[derive(Clone, Debug, PartialEq, Eq)]
pub struct FrameTracker {
    pub frames_seen: u64,
    pub last_frame_counter: u32,
    /// Which scheduled frame inputs have been applied.
    pub applied: Vec<bool>,
}

impl FrameTracker {
    /// A tracker starting at `start_frame_counter` with `n` pending inputs.
    pub fn new(start_frame_counter: u32, n: usize) -> (r: Self)
        ensures
            r.frames_seen == 0,
            r.last_frame_counter == start_frame_counter,
            r.applied@ == Seq::new(n as nat, |i: int| false),
    {
        let mut applied: Vec<bool> = Vec::new();
        let mut i: usize = 0;
        while i < n
            invariant
                i <= n,
                applied@ == Seq::new(i as nat, |t: int| false),
            decreases n - i,
        {
            applied.push(false);
            i = i + 1;
            assert(applied@ =~= Seq::new(i as nat, |t: int| false));
        }
        FrameTracker { frames_seen: 0, last_frame_counter: start_frame_counter, applied }
    }

    /// Record frame mark `frame`: the counter must strictly increase. The
    /// result lists, in schedule order, the not-yet-applied inputs
    /// scheduled for exactly this frame; they are marked applied.
    pub fn on_frame_mark(&mut self, frame: u32, frame_inputs: &[ScheduledFrameInput]) -> (r:
        Result<Vec<usize>, BoundaryError>)
        requires
            old(self).applied@.len() == frame_inputs@.len(),
            old(self).frames_seen < u64::MAX,
        ensures
            frame <= old(self).last_frame_counter ==> (r matches Err(BoundaryError::Exit(m)) && m@
                == "FRAME_COUNTER must increase monotonically: previous "@ + spec_decimal(
                old(self).last_frame_counter as nat,
            ) + ", got "@ + spec_decimal(frame as nat)) && *final(self) == *old(self),
            frame > old(self).last_frame_counter ==> {
                &&& r is Ok
                &&& final(self).last_frame_counter == frame
                &&& final(self).frames_seen == old(self).frames_seen + 1
                &&& final(self).applied@.len() == old(self).applied@.len()
                &&& forall|s: int|
                    0 <= s < frame_inputs@.len() ==> #[trigger] final(self).applied@[s] == (old(
                        self,
                    ).applied@[s] || frame_inputs@[s].frame == frame)
                &&& forall|k: int|
                    0 <= k < r->Ok_0@.len() ==> {
                        let s = #[trigger] r->Ok_0@[k] as int;
                        &&& 0 <= s < frame_inputs@.len()
                        &&& !old(self).applied@[s]
                        &&& frame_inputs@[s].frame == frame
                    }
                &&& forall|s: int|
                    0 <= s < frame_inputs@.len() && !old(self).applied@[s]
                        && frame_inputs@[s].frame == frame ==> r->Ok_0@.contains(s as usize)
                &&& forall|j: int, k: int|
                    0 <= j < k < r->Ok_0@.len() ==> #[trigger] r->Ok_0@[j] < #[trigger] r->Ok_0@[k]
            },
    {
        if frame <= self.last_frame_counter {
            let m = String::from_str("FRAME_COUNTER must increase monotonically: previous ").concat(
                decimal_string(self.last_frame_counter as u64).as_str(),
            ).concat(", got ").concat(decimal_string(frame as u64).as_str());
            return Err(BoundaryError::Exit(m));
        }
        self.last_frame_counter = frame;
        self.frames_seen = self.frames_seen + 1;
        let ghost before = self.applied@;
        let mut due: Vec<usize> = Vec::new();
        let mut s: usize = 0;
        while s < frame_inputs.len()
            invariant
                before == old(self).applied@,
                self.last_frame_counter == frame,
                self.frames_seen == old(self).frames_seen + 1,
                before.len() == frame_inputs@.len(),
                self.applied@.len() == before.len(),
                s <= frame_inputs@.len(),
                forall|t: int|
                    0 <= t < s ==> #[trigger] self.applied@[t] == (before[t] || frame_inputs@[t].frame
                        == frame),
                forall|t: int| s <= t < before.len() ==> #[trigger] self.applied@[t] == before[t],
                forall|k: int|
                    0 <= k < due@.len() ==> {
                        let t = #[trigger] due@[k] as int;
                        &&& 0 <= t < s
                        &&& !before[t]
                        &&& frame_inputs@[t].frame == frame
                    },
                forall|t: int|
                    0 <= t < s && !before[t] && frame_inputs@[t].frame == frame ==> due@.contains(
                        t as usize,
                    ),
                forall|j: int, k: int| 0 <= j < k < due@.len() ==> #[trigger] due@[j] < #[trigger] due@[k],
            decreases frame_inputs@.len() - s,
        {
            if !self.applied[s] && frame_inputs[s].frame == frame {
                let ghost due_before = due@;
                due.push(s);
                self.applied.set(s, true);
                proof {
                    assert(due@[due@.len() - 1] == s);
                    assert forall|t: int|
                        0 <= t < s && !before[t] && frame_inputs@[t].frame == frame implies due@.contains(
                        t as usize,
                    ) by {
                        let k = choose|k: int| 0 <= k < due_before.len() && due_before[k] == t as usize;
                        assert(due@[k] == t as usize);
                    }
                }
            }
            s = s + 1;
        }
        Ok(due)
    }
}

/// A frame-budget run stops on the mark that reaches its target.
pub fn frame_budget_reached(frame_target: Option<u64>, frames_seen: u64) -> (r: bool)
    ensures
        r == (frame_target == Some(frames_seen)),
{
    match frame_target {
        Some(t) => t == frames_seen,
        None => false,
    }
}

/// A next-SDK-event run stops once the caller's matching-event count rises
/// above its segment-start baseline.
pub fn sdk_event_reached(count: u64, baseline: u64) -> (r: bool)
    ensures
        r == (count > baseline),
{
    count > baseline
}

/// The unwind policy of a guest-executing flight: a terminal halt wins,
/// then the until-event; otherwise the error stands.
pub fn unwind_reason(halted: bool, event_stop: bool, event_reason: StopReason) -> (r: Option<
    StopReason,
>)
    ensures
        halted ==> r == Some(StopReason::GuestHalted),
        !halted && event_stop ==> r == Some(event_reason),
        !halted && !event_stop ==> r is None,
{
    if halted {
        Some(StopReason::GuestHalted)
    } else if event_stop {
        Some(event_reason)
    } else {
        None
    }
}

/// The reason a final agenda stop reports.
pub fn stop_reason_of(kind: StopKind) -> (r: StopReason)
    ensures
        kind == StopKind::Budget ==> r == StopReason::BudgetReached,
        kind == StopKind::HardCap ==> r == StopReason::HardCap,
{
    match kind {
        StopKind::Budget => StopReason::BudgetReached,
        StopKind::HardCap => StopReason::HardCap,
    }
}

/// An epoch point is hashed unless it is also the final stop and the
/// options defer the final epoch hash to the caller.
pub fn hashes_epoch(epoch_hash: bool, is_final_stop: bool, options: RunOptions) -> (r: bool)
    ensures
        r == (epoch_hash && (!is_final_stop || options.hash_final_epoch)),
{
    epoch_hash && (!is_final_stop || options.hash_final_epoch)
}

/// A segment ends with exactly one hash link at its stop boundary: the
/// final link is pushed unless the stop was already linked as an epoch.
pub fn needs_final_link(hash_final_stop: bool, already_hashed: bool) -> (r: bool)
    ensures
        r == (hash_final_stop && !already_hashed),
{
    hash_final_stop && !already_hashed
}

/// The epoch length used for grid arithmetic (never zero).
pub open spec fn grid_epoch(epoch_len: u64) -> int {
    if epoch_len == 0 {
        1
    } else {
        epoch_len as int
    }
}

/// The epoch boundary a pause at `icount` rolls forward to: the first
/// multiple of the epoch at or after `icount`, and never the start of
/// counter space.
pub open spec fn spec_pause_target(icount: u64, epoch_len: u64) -> int {
    let e = grid_epoch(epoch_len);
    let q = (icount + e - 1) / e;
    (if q < 1 {
        1
    } else {
        q
    }) * e
}

/// Where an asynchronous pause at a non-epoch point rolls forward to.
pub fn pause_target(icount: u64, epoch_len: u64) -> (r: u64)
    requires
        spec_pause_target(icount, epoch_len) <= u64::MAX,
    ensures
        r == spec_pause_target(icount, epoch_len),
{
    let e: u64 = if epoch_len == 0 {
        1
    } else {
        epoch_len
    };
    proof {
        if e >= 2 {
            assert(icount / e + 1 <= u64::MAX) by (nonlinear_arith)
                requires
                    e >= 2,
                    icount <= u64::MAX,
            ;
        }
    }
    let q = icount / e + if icount % e != 0 {
        1u64
    } else {
        0u64
    };
    proof {
        lemma_ceil_div(icount as int, e as int);
    }
    let q1 = if q < 1 {
        1u64
    } else {
        q
    };
    proof {
        assert(q1 * e == spec_pause_target(icount, epoch_len));
    }
    q1 * e
}

proof fn lemma_ceil_div(x: int, d: int)
    requires
        x >= 0,
        d > 0,
    ensures
        x / d + (if x % d != 0 {
            1int
        } else {
            0int
        }) == (x + d - 1) / d,
        (x + d - 1) / d * d >= x,
        (x + d - 1) / d * d < x + d,
{
    assert(x / d + (if x % d != 0 {
        1int
    } else {
        0int
    }) == (x + d - 1) / d) by (nonlinear_arith)
        requires
            x >= 0,
            d > 0,
    ;
    assert((x + d - 1) / d * d >= x) by (nonlinear_arith)
        requires
            x >= 0,
            d > 0,
    ;
    assert((x + d - 1) / d * d < x + d) by (nonlinear_arith)
        requires
            x >= 0,
            d > 0,
    ;
}

/// The epoch a grid boundary belongs to.
pub fn epoch_index(icount: u64, epoch_len: u64) -> (r: u64)
    ensures
        r == icount as int / grid_epoch(epoch_len),
{
    let e: u64 = if epoch_len == 0 {
        1
    } else {
        epoch_len
    };
    icount / e
}

/// A pause rolls forward, never back: the target is a positive multiple
/// of the epoch, at or after the pause point and less than one epoch past
/// it (or the first epoch boundary when paused at the start).
pub proof fn lemma_pause_rolls_forward(icount: u64, epoch_len: u64)
    ensures
        spec_pause_target(icount, epoch_len) >= icount,
        spec_pause_target(icount, epoch_len) % grid_epoch(epoch_len) == 0,
        spec_pause_target(icount, epoch_len) >= grid_epoch(epoch_len),
        icount > 0 ==> spec_pause_target(icount, epoch_len) < icount + grid_epoch(epoch_len),
{
    let e = grid_epoch(epoch_len);
    lemma_ceil_div(icount as int, e);
    let q = (icount + e - 1) / e;
    let q1 = if q < 1 {
        1int
    } else {
        q
    };
    assert(q1 * e % e == 0) by (nonlinear_arith)
        requires
            e > 0,
            q1 >= 1,
    ;
    assert(q1 * e >= e) by (nonlinear_arith)
        requires
            e > 0,
            q1 >= 1,
    ;
    if icount > 0 {
        assert(q >= 1) by (nonlinear_arith)
            requires
                e > 0,
                icount > 0,
                q == (icount + e - 1) / e,
        ;
    }
}

/// One vector delivery at an agenda point.
#[derive(Clone, Copy, Debug, PartialEq, Eq, Structural)]
pub struct Delivery {
    pub vector: u8,
    /// Enter the guest for one single-stepped instruction before this
    /// delivery (every delivery after the first at a point).
    pub step_first: bool,
    /// This delivery is the armed timer's.
    pub is_timer: bool,
}

/// The deliveries of an agenda point, and whether its epoch hash (if
/// any) is taken on the point itself, with no delivery made there.
#[derive(Clone, Debug, PartialEq, Eq)]
pub struct DeliveryPlan {
    pub deliveries: Vec<Delivery>,
    pub checkpointable_epoch: bool,
}

/// Delivery `k` of a point: the vectors the point's inputs queued come
/// first, in the order they were queued, then the point's scheduled
/// injections in agenda order; only the first is delivered on the point
/// itself, and only the timer's injection slot counts as the timer's.
pub open spec fn spec_delivery(
    input_vectors: Seq<u8>,
    point_injections: Seq<usize>,
    all_injections: Seq<ScheduledInjection>,
    timer_slot: Option<usize>,
    k: int,
) -> Delivery {
    if k < input_vectors.len() {
        Delivery { vector: input_vectors[k], step_first: k > 0, is_timer: false }
    } else {
        let idx = point_injections[k - input_vectors.len()];
        Delivery {
            vector: all_injections[idx as int].vector,
            step_first: k > 0,
            is_timer: timer_slot == Some(idx),
        }
    }
}

/// Plan the vector deliveries of one agenda point.
pub fn plan_point_deliveries(
    input_vectors: &[u8],
    point_injections: &[usize],
    all_injections: &[ScheduledInjection],
    timer_slot: Option<usize>,
) -> (r: DeliveryPlan)
    requires
        forall|j: int|
            0 <= j < point_injections@.len() ==> #[trigger] point_injections@[j]
                < all_injections@.len(),
        input_vectors@.len() + point_injections@.len() <= usize::MAX,
    ensures
        r.deliveries@.len() == input_vectors@.len() + point_injections@.len(),
        forall|k: int|
            0 <= k < r.deliveries@.len() ==> #[trigger] r.deliveries@[k] == spec_delivery(
                input_vectors@,
                point_injections@,
                all_injections@,
                timer_slot,
                k,
            ),
        r.checkpointable_epoch == (input_vectors@.len() + point_injections@.len() == 0),
{
    let mut out: Vec<Delivery> = Vec::new();
    let mut i: usize = 0;
    while i < input_vectors.len()
        invariant
            i <= input_vectors@.len(),
            out@.len() == i,
            forall|k: int|
                0 <= k < i ==> #[trigger] out@[k] == spec_delivery(
                    input_vectors@,
                    point_injections@,
                    all_injections@,
                    timer_slot,
                    k,
                ),
        decreases input_vectors@.len() - i,
    {
        out.push(Delivery { vector: input_vectors[i], step_first: i > 0, is_timer: false });
        i = i + 1;
    }
    let n = input_vectors.len();
    let mut j: usize = 0;
    while j < point_injections.len()
        invariant
            n == input_vectors@.len(),
            n + point_injections@.len() <= usize::MAX,
            j <= point_injections@.len(),
            out@.len() == n + j,
            forall|q: int|
                0 <= q < point_injections@.len() ==> #[trigger] point_injections@[q]
                    < all_injections@.len(),
            forall|k: int|
                0 <= k < n + j ==> #[trigger] out@[k] == spec_delivery(
                    input_vectors@,
                    point_injections@,
                    all_injections@,
                    timer_slot,
                    k,
                ),
        decreases point_injections@.len() - j,
    {
        let idx = point_injections[j];
        let is_timer = match timer_slot {
            Some(t) => t == idx,
            None => false,
        };
        out.push(
            Delivery {
                vector: all_injections[idx].vector,
                step_first: n + j > 0,
                is_timer,
            },
        );
        j = j + 1;
    }
    let empty = out.len() == 0;
    DeliveryPlan { deliveries: out, checkpointable_epoch: empty }
}

/// What run control does once the vectors of an agenda point are
/// delivered and its epoch hash, if any, is taken.
#[derive(Clone, Copy, Debug, PartialEq, Eq, Structural)]
pub enum PointDecision {
    /// Go on to the next agenda point.
    Continue,
    /// Stop here with `reason`; `push_final_link` says whether the stop's
    /// hash link is still to be pushed.
    Stop { reason: StopReason, push_final_link: bool },
    /// A pause on an epoch point: it is hashed already; report `Paused` here.
    PauseHere,
    /// A pause off the epoch grid: land on `target`, push its link, record
    /// it as an epoch when `record_epoch`, and report `Paused` there.
    RollForward { target: u64, record_epoch: bool },
}

/// The decision at an agenda point, in precedence order: a satisfied goal
/// poll stops `GoalSatisfied`; else the final stop stops with its kind's
/// reason; else a pending pause is honored on the epoch grid; else the run
/// goes on. A stop pushes its link only when it was not hashed as an epoch.
pub open spec fn spec_point_decision(
    epoch_hash: bool,
    goal_poll: bool,
    final_stop: Option<StopKind>,
    goal_met: bool,
    pause_requested: bool,
    options: RunOptions,
    epochs_recorded: bool,
    icount: u64,
    epoch_len: u64,
) -> PointDecision {
    let hashed = epoch_hash && (final_stop is None || options.hash_final_epoch);
    if goal_poll && goal_met {
        PointDecision::Stop {
            reason: StopReason::GoalSatisfied,
            push_final_link: options.hash_final_stop && !hashed,
        }
    } else if final_stop is Some {
        PointDecision::Stop {
            reason: if final_stop == Some(StopKind::Budget) {
                StopReason::BudgetReached
            } else {
                StopReason::HardCap
            },
            push_final_link: options.hash_final_stop && !hashed,
        }
    } else if pause_requested {
        if epoch_hash {
            PointDecision::PauseHere
        } else {
            PointDecision::RollForward {
                target: spec_pause_target(icount, epoch_len) as u64,
                record_epoch: epochs_recorded,
            }
        }
    } else {
        PointDecision::Continue
    }
}

/// Decide what happens at an agenda point. `goal_met` is the goal's answer
/// at a goal-poll point (the goal is asked only there); `epochs_recorded`
/// is whether epoch hashes are recorded for this run.
pub fn decide_at_point(
    epoch_hash: bool,
    goal_poll: bool,
    final_stop: Option<StopKind>,
    goal_met: bool,
    pause_requested: bool,
    options: RunOptions,
    epochs_recorded: bool,
    icount: u64,
    epoch_len: u64,
) -> (r: PointDecision)
    requires
        pause_requested && !epoch_hash && final_stop is None && !(goal_poll && goal_met)
            ==> spec_pause_target(icount, epoch_len) <= u64::MAX,
    ensures
        r == spec_point_decision(
            epoch_hash,
            goal_poll,
            final_stop,
            goal_met,
            pause_requested,
            options,
            epochs_recorded,
            icount,
            epoch_len,
        ),
{
    let is_final = match final_stop {
        Some(_) => true,
        None => false,
    };
    let hashed = hashes_epoch(epoch_hash, is_final, options);
    if goal_poll && goal_met {
        return PointDecision::Stop {
            reason: StopReason::GoalSatisfied,
            push_final_link: needs_final_link(options.hash_final_stop, hashed),
        };
    }
    match final_stop {
        Some(kind) => {
            return PointDecision::Stop {
                reason: stop_reason_of(kind),
                push_final_link: needs_final_link(options.hash_final_stop, hashed),
            };
        },
        None => {},
    }
    if pause_requested {
        if epoch_hash {
            PointDecision::PauseHere
        } else {
            PointDecision::RollForward {
                target: pause_target(icount, epoch_len),
                record_epoch: epochs_recorded,
            }
        }
    } else {
        PointDecision::Continue
    }
}

/// Every stop leaves exactly one hash link at its boundary: a stop on a
/// hashed epoch point pushes no second link, a stop off the grid pushes
/// one (when stop links are on), and a pause never stops short of the
/// pause point.
pub proof fn lemma_one_link_per_stop(
    epoch_hash: bool,
    goal_poll: bool,
    final_stop: Option<StopKind>,
    goal_met: bool,
    pause_requested: bool,
    options: RunOptions,
    epochs_recorded: bool,
    icount: u64,
    epoch_len: u64,
)
    ensures
        ({
            let d = spec_point_decision(
                epoch_hash,
                goal_poll,
                final_stop,
                goal_met,
                pause_requested,
                options,
                epochs_recorded,
                icount,
                epoch_len,
            );
            &&& (d matches PointDecision::Stop { push_final_link, .. } ==> (push_final_link
                <==> (options.hash_final_stop && !(epoch_hash && (final_stop is None
                || options.hash_final_epoch)))))
            &&& (d matches PointDecision::RollForward { .. } ==> spec_pause_target(
                icount,
                epoch_len,
            ) >= icount && !epoch_hash)
            &&& (d is Continue ==> final_stop is None && !pause_requested)
        }),
{
    lemma_pause_rolls_forward(icount, epoch_len);
}

/// The text of a run-control error. An agenda error shows its variant's
/// name, as derived `Debug` prints it.
pub open spec fn run_error_text(e: RunError) -> Seq<char> {
    match e {
        RunError::Agenda(AgendaError::BudgetOverflow) => "agenda: BudgetOverflow"@,
        RunError::Boundary(b) => "boundary: "@ + boundary_error_text(b),
        RunError::Inject(i) => "inject: "@ + inject_error_text(i),
        RunError::Kvm(m) => "kvm: "@ + m@,
        RunError::ClockOverflow => "vns/icount conversion overflow"@,
        RunError::MissingSdkEventFeed =>
            "Until::NextSdkEvent requires Segment::sdk_events (the caller's matching-event count)"@,
    }
}

impl RunError {
    /// What the error says.
    pub fn message(&self) -> (s: String)
        ensures
            s@ == run_error_text(*self),
    {
        match self {
            RunError::Agenda(AgendaError::BudgetOverflow) => String::from_str(
                "agenda: BudgetOverflow",
            ),
            RunError::Boundary(b) => String::from_str("boundary: ").concat(b.message().as_str()),
            RunError::Inject(i) => String::from_str("inject: ").concat(i.message().as_str()),
            RunError::Kvm(m) => String::from_str("kvm: ").concat(m.as_str()),
            RunError::ClockOverflow => String::from_str("vns/icount conversion overflow"),
            RunError::MissingSdkEventFeed => String::from_str(
                "Until::NextSdkEvent requires Segment::sdk_events (the caller's matching-event count)",
            ),
        }
    }
}

/// What a point decides, by precedence: a satisfied goal poll stops with
/// `GoalSatisfied`; else the final point stops with its kind's reason;
/// else a pending pause stops on a hashed epoch point or rolls forward to
/// the next epoch boundary (a multiple of the epoch at or past the point,
/// less than one epoch on), recording that link as an epoch hash exactly
/// when the run records epoch hashes; else the run continues.
pub proof fn lemma_point_decision_precedence(
    epoch_hash: bool,
    goal_poll: bool,
    final_stop: Option<StopKind>,
    goal_met: bool,
    pause_requested: bool,
    options: RunOptions,
    epochs_recorded: bool,
    icount: u64,
    epoch_len: u64,
)
    requires
        pause_requested && !epoch_hash && final_stop is None && !(goal_poll && goal_met)
            ==> spec_pause_target(icount, epoch_len) <= u64::MAX,
    ensures
        ({
            let d = spec_point_decision(
                epoch_hash,
                goal_poll,
                final_stop,
                goal_met,
                pause_requested,
                options,
                epochs_recorded,
                icount,
                epoch_len,
            );
            let e = if epoch_len == 0 { 1int } else { epoch_len as int };
            &&& (goal_poll && goal_met ==> d is Stop && d->reason == StopReason::GoalSatisfied)
            &&& (!(goal_poll && goal_met) && final_stop == Some(StopKind::Budget) ==> d is Stop
                && d->reason == StopReason::BudgetReached)
            &&& (!(goal_poll && goal_met) && final_stop == Some(StopKind::HardCap) ==> d is Stop
                && d->reason == StopReason::HardCap)
            &&& (d is PauseHere <==> (pause_requested && epoch_hash && final_stop is None && !(
            goal_poll && goal_met)))
            &&& (d is RollForward <==> (pause_requested && !epoch_hash && final_stop is None && !(
            goal_poll && goal_met)))
            &&& (d matches PointDecision::RollForward { target, record_epoch } ==> {
                &&& record_epoch == epochs_recorded
                &&& target >= icount
                &&& (target as int) % e == 0
                &&& target >= e
                &&& (icount > 0 ==> target < icount + e)
            })
            &&& (d is Continue <==> (!pause_requested && final_stop is None && !(goal_poll
                && goal_met)))
        }),
{
    lemma_pause_rolls_forward(icount, epoch_len);
}

/// An armed timer fires exactly when virtual time reaches its deadline:
/// at an icount past the segment start whose vns reaches the deadline,
/// and, unless held back to the first boundary after the start, the icount
/// before it falls short of the deadline.
pub proof fn lemma_timer_fires_at_deadline(clock: ClockRatio, deadline_vns: u64, start_icount: u64)
    requires
        clock.num_spec() > 0,
        clock.den_spec() > 0,
    ensures
        ({
            let t = spec_timer_icount(clock, deadline_vns, start_icount);
            &&& t > start_icount
            &&& clock.spec_vns(t) >= deadline_vns
            &&& t > start_icount + 1 ==> clock.spec_vns(t - 1) < deadline_vns
        }),
{
    let n = clock.num_spec() as int;
    let d = clock.den_spec() as int;
    crate::vt::lemma_target_is_minimal_reaching(n, d, deadline_vns as int);
    let target = clock.spec_target(deadline_vns as int);
    if target < start_icount + 1 {
        crate::vt::lemma_vns_monotone(n, d, target, start_icount + 1);
    }
}

/// The delivery order at a point: the first delivery happens on the point
/// itself and every later one after one single-stepped instruction; the
/// vectors the inputs queued come first, in queue order, then the point's
/// injections in agenda order; only the timer's injection slot counts as
/// the timer's, and no input vector does.
pub proof fn lemma_delivery_order(
    input_vectors: Seq<u8>,
    point_injections: Seq<usize>,
    all_injections: Seq<ScheduledInjection>,
    timer_slot: Option<usize>,
    k: int,
)
    requires
        0 <= k < input_vectors.len() + point_injections.len(),
    ensures
        ({
            let d = spec_delivery(input_vectors, point_injections, all_injections, timer_slot, k);
            &&& d.step_first == (k != 0)
            &&& (k < input_vectors.len() ==> d.vector == input_vectors[k] && !d.is_timer)
            &&& (k >= input_vectors.len() ==> {
                let idx = point_injections[k - input_vectors.len()];
                &&& d.vector == all_injections[idx as int].vector
                &&& d.is_timer == (timer_slot == Some(idx))
            })
        }),
{
}

} // verus!
