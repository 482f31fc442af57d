//! Deterministic interrupt injection: a vector is delivered at the first
//! injectable boundary at or after the requested one. Injectability is a
//! pure function of guest state, so every replay defers by the identical
//! number of instructions.

use crate::boundary::{boundary_error_text, BoundaryError};
use crate::text::{decimal_string, spec_decimal};
use vstd::prelude::*;

verus! {

/// A completed injection.
#[derive(Clone, Copy, Debug, PartialEq, Eq, Structural)]
pub struct Injection {
    pub vector: u8,
    /// The boundary the injection was requested at.
    pub requested_icount: u64,
    /// The first injectable boundary at or after the request.
    pub delivered_icount: u64,
    pub delivered_rip: u64,
}

#[derive(Clone, Debug, PartialEq, Eq)]
pub enum InjectError {
    Boundary(BoundaryError),
    Kvm(String),
    /// The guest never opened an interrupt window within the budget.
    WindowNeverOpened { stepped: u64 },
}

/// The guest state injectability reads.
#[derive(Clone, Copy, Debug, PartialEq, Eq, Structural)]
pub struct InjectWindow {
    pub ready_for_interrupt_injection: u8,
    pub if_flag: u8,
    pub exception_pending: u8,
    pub exception_injected: u8,
    pub interrupt_shadow: u8,
}

pub open spec fn spec_injectable(w: InjectWindow) -> bool {
    &&& w.ready_for_interrupt_injection != 0
    &&& w.if_flag != 0
    &&& w.exception_pending == 0
    &&& w.exception_injected == 0
    &&& w.interrupt_shadow == 0
}

/// Whether a vector can be queued right now: KVM is ready for injection,
/// the guest has IF set, no exception is pending or injected, and no
/// interrupt shadow is in effect.
pub fn injectable(w: &InjectWindow) -> (r: bool)
    ensures
        r == spec_injectable(*w),
{
    if w.ready_for_interrupt_injection == 0 || w.if_flag == 0 {
        return false;
    }
    w.exception_pending == 0 && w.exception_injected == 0 && w.interrupt_shadow == 0
}

/// The injection engine's move at one boundary.
#[derive(Clone, Copy, Debug, PartialEq, Eq, Structural)]
pub enum InjectAction {
    /// Queue the vector here.
    Queue,
    /// The budget is spent: fail loudly.
    GiveUp,
    /// Step one retirement forward and check again.
    StepForward,
}

/// Decide the move after `stepped` deferral steps.
pub fn inject_action(w: &InjectWindow, stepped: u64, max_defer_steps: u64) -> (r: InjectAction)
    ensures
        spec_injectable(*w) ==> r == InjectAction::Queue,
        !spec_injectable(*w) && stepped >= max_defer_steps ==> r == InjectAction::GiveUp,
        !spec_injectable(*w) && stepped < max_defer_steps ==> r == InjectAction::StepForward,
{
    if injectable(w) {
        InjectAction::Queue
    } else if stepped >= max_defer_steps {
        InjectAction::GiveUp
    } else {
        InjectAction::StepForward
    }
}

/// The injection recorded when the vector is queued at `current` after a
/// request at `requested_icount`.
pub fn injection_at(vector: u8, requested_icount: u64, current: crate::boundary::Boundary) -> (r:
    Injection)
    ensures
        r == (Injection {
            vector,
            requested_icount,
            delivered_icount: current.icount,
            delivered_rip: current.rip,
        }),
{
    Injection { vector, requested_icount, delivered_icount: current.icount, delivered_rip: current.rip }
}

/// The text of an injection error.
pub open spec fn inject_error_text(e: InjectError) -> Seq<char> {
    match e {
        InjectError::Boundary(b) => "landing: "@ + boundary_error_text(b),
        InjectError::Kvm(m) => "kvm: "@ + m@,
        InjectError::WindowNeverOpened { stepped } => "interrupt window never opened within "@
            + spec_decimal(stepped as nat) + " steps"@,
    }
}

impl InjectError {
    /// What the error says.
    pub fn message(&self) -> (s: String)
        ensures
            s@ == inject_error_text(*self),
    {
        match self {
            InjectError::Boundary(b) => String::from_str("landing: ").concat(b.message().as_str()),
            InjectError::Kvm(m) => String::from_str("kvm: ").concat(m.as_str()),
            InjectError::WindowNeverOpened { stepped } => String::from_str(
                "interrupt window never opened within ",
            ).concat(decimal_string(*stepped).as_str()).concat(" steps"),
        }
    }
}

/// When a vector may be queued: only with KVM ready for an injection, the
/// guest's IF set, no exception pending, no exception being injected and
/// no interrupt shadow; any one of these blocks it, and with none of them
/// the engine queues at once rather than stepping or giving up.
pub proof fn lemma_injection_window(w: InjectWindow)
    ensures
        w.ready_for_interrupt_injection == 0 ==> !spec_injectable(w),
        w.if_flag == 0 ==> !spec_injectable(w),
        w.exception_pending != 0 ==> !spec_injectable(w),
        w.exception_injected != 0 ==> !spec_injectable(w),
        w.interrupt_shadow != 0 ==> !spec_injectable(w),
        w.ready_for_interrupt_injection != 0 && w.if_flag != 0 && w.exception_pending == 0
            && w.exception_injected == 0 && w.interrupt_shadow == 0 ==> spec_injectable(w),
{
}

} // verus!
