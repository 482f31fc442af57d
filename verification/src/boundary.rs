//! Exact instruction-boundary landing: the decision the landing engine
//! takes at every counter read. Far from the target it arms the retired-
//! instruction counter to fire a skid margin short of the target and runs;
//! near the target it single-steps; past the target it reports an
//! overshoot.

use crate::text::{decimal_string, spec_decimal};
use vstd::prelude::*;

verus! {

/// Landing margins.
#[derive(Clone, Copy, Debug, PartialEq, Eq, Structural)]
pub struct Margins {
    pub skid_margin: u64,
    pub resync_slack: u64,
}

impl Default for Margins {
    fn default() -> (r: Self)
        ensures
            r.skid_margin == crate::config::DEFAULT_SKID_MARGIN,
            r.resync_slack == crate::config::DEFAULT_RESYNC_SLACK,
    {
        Margins {
            skid_margin: crate::config::DEFAULT_SKID_MARGIN as u64,
            resync_slack: crate::config::DEFAULT_RESYNC_SLACK as u64,
        }
    }
}

/// A landed boundary. `rcx` is diagnostics only; the canonical boundary
/// identity is (icount, rip).
#[derive(Clone, Copy, Debug, PartialEq, Eq, Structural)]
pub struct Boundary {
    pub icount: u64,
    pub rip: u64,
    pub rcx: u64,
}

#[derive(Clone, Debug, PartialEq, Eq)]
pub enum BoundaryError {
    /// The counter passed the target: the skid margin failed on this host.
    Overshoot { target: u64, counted: u64 },
    Counter(String),
    Kvm(String),
    /// The exit handler declared a fatal condition.
    Exit(String),
}

/// What the landing engine does after reading the counter.
#[derive(Clone, Copy, Debug, PartialEq, Eq, Structural)]
pub enum LandingAction {
    /// The counter is past the target.
    Overshoot,
    /// The vCPU sits on the target boundary.
    Landed,
    /// Far approach: arm the counter to fire after `period` more
    /// retirements, then run.
    ArmAndRun { period: u64 },
    /// Near approach: switch to single-stepping (parking the counter).
    StartStepping,
    /// Near approach, already stepping: one more step.
    Step,
}

/// The landing decision for counter value `counted`.
pub open spec fn spec_landing_action(counted: u64, target: u64, stepping: bool, m: Margins) -> LandingAction {
    if counted > target {
        LandingAction::Overshoot
    } else if counted == target {
        LandingAction::Landed
    } else if !stepping && target - counted > m.skid_margin + m.resync_slack {
        LandingAction::ArmAndRun { period: (target - counted - m.skid_margin) as u64 }
    } else if !stepping {
        LandingAction::StartStepping
    } else {
        LandingAction::Step
    }
}

/// Decide the next landing move after reading the counter.
pub fn landing_action(counted: u64, target: u64, stepping: bool, margins: &Margins) -> (r:
    LandingAction)
    requires
        margins.skid_margin + margins.resync_slack <= u64::MAX,
    ensures
        r == spec_landing_action(counted, target, stepping, *margins),
{
    if counted > target {
        return LandingAction::Overshoot;
    }
    if counted == target {
        return LandingAction::Landed;
    }
    let d = target - counted;
    if !stepping && d > margins.skid_margin + margins.resync_slack {
        LandingAction::ArmAndRun { period: d - margins.skid_margin }
    } else if !stepping {
        LandingAction::StartStepping
    } else {
        LandingAction::Step
    }
}

/// A far-approach arm never reaches the target: the counter fires a full
/// skid margin plus the resync slack short of it, so the engine always
/// finishes the approach by single-stepping.
pub proof fn lemma_far_arm_stops_short(counted: u64, target: u64, m: Margins)
    requires
        spec_landing_action(counted, target, false, m) is ArmAndRun,
    ensures
        ({
            let period = spec_landing_action(counted, target, false, m)->period;
            &&& period > m.resync_slack
            &&& counted + period + m.skid_margin == target
        }),
{
}

/// The text of a landing error.
pub open spec fn boundary_error_text(e: BoundaryError) -> Seq<char> {
    match e {
        BoundaryError::Overshoot { target, counted } => "OVERSHOOT: counted "@ + spec_decimal(
            counted as nat,
        ) + " past target "@ + spec_decimal(target as nat) + " (skid margin too small)"@,
        BoundaryError::Counter(m) => "counter: "@ + m@,
        BoundaryError::Kvm(m) => "kvm: "@ + m@,
        BoundaryError::Exit(m) => "exit handler: "@ + m@,
    }
}

impl BoundaryError {
    /// What the error says.
    pub fn message(&self) -> (s: String)
        ensures
            s@ == boundary_error_text(*self),
    {
        match self {
            BoundaryError::Overshoot { target, counted } => String::from_str("OVERSHOOT: counted ")
                .concat(decimal_string(*counted).as_str()).concat(" past target ").concat(
                decimal_string(*target).as_str(),
            ).concat(" (skid margin too small)"),
            BoundaryError::Counter(m) => String::from_str("counter: ").concat(m.as_str()),
            BoundaryError::Kvm(m) => String::from_str("kvm: ").concat(m.as_str()),
            BoundaryError::Exit(m) => String::from_str("exit handler: ").concat(m.as_str()),
        }
    }
}

/// What landing does at each counter reading: past the target it reports
/// an overshoot and on it it has landed; below it, a run that is not yet
/// single-stepping arms the counter when more than the skid margin plus the
/// resync slack remains (firing exactly a skid margin short) and otherwise
/// switches single-stepping on; one more step is taken only once
/// single-stepping is on.
pub proof fn lemma_landing_moves(counted: u64, target: u64, stepping: bool, m: Margins)
    ensures
        ({
            let r = spec_landing_action(counted, target, stepping, m);
            &&& (r is Overshoot <==> counted > target)
            &&& (r is Landed <==> counted == target)
            &&& (r is Step ==> stepping && counted < target)
            &&& (r is StartStepping ==> !stepping && counted < target && target - counted
                <= m.skid_margin + m.resync_slack)
            &&& (r is ArmAndRun ==> !stepping && target - counted > m.skid_margin + m.resync_slack
                && counted + r->period + m.skid_margin == target)
            &&& (counted < target && stepping ==> r is Step)
            &&& (counted < target && !stepping && target - counted <= m.skid_margin
                + m.resync_slack ==> r is StartStepping)
            &&& (counted < target && !stepping && target - counted > m.skid_margin
                + m.resync_slack ==> r is ArmAndRun)
        }),
{
}

} // verus!
