//! Deterministic KVM hypervisor core: slot lifecycle, virtual time, agenda
//! compilation, machine configuration, boot planning and the pure device and
//! state-encoding logic that the KVM run loop drives.

use vstd::prelude::*;

pub mod agenda;
pub mod blkfile;
pub mod boot;
pub mod boundary;
pub mod codec;
pub mod config;
pub mod cpuid;
pub mod digest;
pub mod dirty;
pub mod hash;
pub mod inject;
pub mod kvm;
pub mod lapic;
pub mod msr;
pub mod recording;
pub mod run;
pub mod runctl;
pub mod text;
pub mod tsc;
pub mod vcpu_state;
pub mod vt;
pub mod xsave;

verus! {

/// Lifecycle state of one VM slot.
#[derive(Clone, Copy, Debug, PartialEq, Eq, Structural)]
pub enum SlotState {
    Empty,
    Running,
    Paused,
    Frozen,
    /// The slot violated a determinism contract; the only exit is Destroy.
    Faulted,
}

/// Slot-state machine violation.
#[derive(Clone, Copy, Debug, PartialEq, Eq)]
pub enum SlotStateError {
    InvalidTransition { from: SlotState, to: SlotState },
    /// A write-path API was invoked on a Frozen slot.
    FrozenWriteDenied { api: &'static str },
    /// A write-path API was invoked on an Empty slot.
    EmptyWriteDenied { api: &'static str },
    /// A write-path API was invoked on a Faulted slot.
    FaultedWriteDenied { api: &'static str },
}

/// The transition relation of the slot lifecycle.
pub open spec fn spec_can_transition(from: SlotState, to: SlotState) -> bool {
    match (from, to) {
        (SlotState::Empty, SlotState::Paused) => true,
        (SlotState::Paused, SlotState::Running) => true,
        (SlotState::Running, SlotState::Paused) => true,
        (SlotState::Paused, SlotState::Frozen) => true,
        (SlotState::Frozen, SlotState::Paused) => true,
        (SlotState::Paused, SlotState::Empty) => true,
        (SlotState::Frozen, SlotState::Empty) => true,
        (SlotState::Running, SlotState::Faulted) => true,
        (SlotState::Paused, SlotState::Faulted) => true,
        (SlotState::Faulted, SlotState::Empty) => true,
        _ => false,
    }
}

impl SlotState {
    /// Whether `self -> to` is an edge of the lifecycle relation.
    pub fn can_transition(self, to: SlotState) -> (r: bool)
        ensures
            r == spec_can_transition(self, to),
    {
        match (self, to) {
            (SlotState::Empty, SlotState::Paused)
            | (SlotState::Paused, SlotState::Running)
            | (SlotState::Running, SlotState::Paused)
            | (SlotState::Paused, SlotState::Frozen)
            | (SlotState::Frozen, SlotState::Paused)
            | (SlotState::Paused, SlotState::Empty)
            | (SlotState::Frozen, SlotState::Empty)
            | (SlotState::Running, SlotState::Faulted)
            | (SlotState::Paused, SlotState::Faulted)
            | (SlotState::Faulted, SlotState::Empty) => true,
            _ => false,
        }
    }

    /// Take the edge `self -> to`, or report it as invalid.
    pub fn transition(self, to: SlotState) -> (r: Result<SlotState, SlotStateError>)
        ensures
            spec_can_transition(self, to) ==> r == Ok::<SlotState, SlotStateError>(to),
            !spec_can_transition(self, to) ==> r == Err::<SlotState, SlotStateError>(
                SlotStateError::InvalidTransition { from: self, to },
            ),
    {
        if self.can_transition(to) {
            Ok(to)
        } else {
            Err(SlotStateError::InvalidTransition { from: self, to })
        }
    }

    /// Gate for every API that mutates guest RAM, vCPU or device state:
    /// Paused and Running slots are writable, the others are refused.
    pub fn ensure_write_path(self, api: &'static str) -> (r: Result<(), SlotStateError>)
        ensures
            (self == SlotState::Paused || self == SlotState::Running) ==> r is Ok,
            self == SlotState::Frozen ==> r == Err::<(), SlotStateError>(
                SlotStateError::FrozenWriteDenied { api },
            ),
            self == SlotState::Empty ==> r == Err::<(), SlotStateError>(
                SlotStateError::EmptyWriteDenied { api },
            ),
            self == SlotState::Faulted ==> r == Err::<(), SlotStateError>(
                SlotStateError::FaultedWriteDenied { api },
            ),
    {
        match self {
            SlotState::Paused | SlotState::Running => Ok(()),
            SlotState::Frozen => Err(SlotStateError::FrozenWriteDenied { api }),
            SlotState::Empty => Err(SlotStateError::EmptyWriteDenied { api }),
            SlotState::Faulted => Err(SlotStateError::FaultedWriteDenied { api }),
        }
    }
}

/// A fresh slot starts Empty.
pub fn initial_slot_state() -> (r: SlotState)
    ensures
        r == SlotState::Empty,
{
    SlotState::Empty
}

/// No state has an edge to itself.
pub proof fn lemma_no_self_transitions(s: SlotState)
    ensures
        !spec_can_transition(s, s),
{
}

/// Exactly the executing-or-executable states (Running, Paused) can fault.
pub proof fn lemma_fault_reachability(s: SlotState)
    ensures
        spec_can_transition(s, SlotState::Faulted) <==> (s == SlotState::Running || s
            == SlotState::Paused),
{
}

/// Every state reaches Empty in at most two edges: no slot is ever stuck.
pub proof fn lemma_every_state_reaches_empty(s: SlotState)
    ensures
        s == SlotState::Empty || spec_can_transition(s, SlotState::Empty) || (
        spec_can_transition(s, SlotState::Paused) && spec_can_transition(
            SlotState::Paused,
            SlotState::Empty,
        )),
{
}

/// Faulted is terminal short of Destroy: its only edge leads to Empty.
pub proof fn lemma_faulted_only_exits_to_empty(to: SlotState)
    ensures
        spec_can_transition(SlotState::Faulted, to) <==> to == SlotState::Empty,
{
}

/// A Running slot can be neither destroyed nor frozen directly.
pub proof fn lemma_running_must_pause_first()
    ensures
        !spec_can_transition(SlotState::Running, SlotState::Empty),
        !spec_can_transition(SlotState::Running, SlotState::Frozen),
{
}

/// KVM capabilities the hypervisor relies on.
#[derive(Clone, Copy, Debug, Default, PartialEq, Eq)]
pub struct KvmCaps {
    pub user_space_msr: bool,
    pub msr_filter: bool,
    pub dirty_ring: bool,
    pub immediate_exit: bool,
    pub no_in_kernel_irqchip: bool,
}

/// Every capability present.
pub fn required_caps_template() -> (r: KvmCaps)
    ensures
        r.user_space_msr && r.msr_filter && r.dirty_ring && r.immediate_exit
            && r.no_in_kernel_irqchip,
{
    KvmCaps {
        user_space_msr: true,
        msr_filter: true,
        dirty_ring: true,
        immediate_exit: true,
        no_in_kernel_irqchip: true,
    }
}

pub open spec fn name_if_missing(present: bool, name: Seq<char>) -> Seq<Seq<char>> {
    if present {
        Seq::empty()
    } else {
        seq![name]
    }
}

/// Names of the absent capabilities, in table order.
pub open spec fn spec_missing_caps(caps: KvmCaps) -> Seq<Seq<char>> {
    name_if_missing(caps.user_space_msr, "KVM_CAP_X86_USER_SPACE_MSR"@) + name_if_missing(
        caps.msr_filter,
        "KVM_MSR_EXIT_REASON_FILTER"@,
    ) + name_if_missing(caps.dirty_ring, "KVM_CAP_DIRTY_LOG_RING"@) + name_if_missing(
        caps.immediate_exit,
        "KVM_CAP_IMMEDIATE_EXIT"@,
    ) + name_if_missing(caps.no_in_kernel_irqchip, "no in-kernel irqchip"@)
}

pub open spec fn str_views(v: Seq<&'static str>) -> Seq<Seq<char>> {
    v.map_values(|s: &'static str| s@)
}

fn push_if_missing(out: &mut Vec<&'static str>, present: bool, name: &'static str)
    ensures
        str_views(final(out)@) == str_views(old(out)@) + name_if_missing(present, name@),
{
    let ghost before = out@;
    if !present {
        out.push(name);
        assert(str_views(out@) =~= str_views(before) + seq![name@]);
    } else {
        assert(str_views(out@) =~= str_views(before) + Seq::<Seq<char>>::empty());
    }
}

/// The required capabilities that `caps` lacks, by name, in table order.
pub fn missing_caps(caps: &KvmCaps) -> (r: Vec<&'static str>)
    ensures
        str_views(r@) == spec_missing_caps(*caps),
{
    let mut out: Vec<&'static str> = Vec::new();
    assert(str_views(out@) =~= Seq::<Seq<char>>::empty());
    push_if_missing(&mut out, caps.user_space_msr, "KVM_CAP_X86_USER_SPACE_MSR");
    push_if_missing(&mut out, caps.msr_filter, "KVM_MSR_EXIT_REASON_FILTER");
    push_if_missing(&mut out, caps.dirty_ring, "KVM_CAP_DIRTY_LOG_RING");
    push_if_missing(&mut out, caps.immediate_exit, "KVM_CAP_IMMEDIATE_EXIT");
    push_if_missing(&mut out, caps.no_in_kernel_irqchip, "no in-kernel irqchip");
    assert(Seq::<Seq<char>>::empty() + name_if_missing(caps.user_space_msr, "KVM_CAP_X86_USER_SPACE_MSR"@)
        =~= name_if_missing(caps.user_space_msr, "KVM_CAP_X86_USER_SPACE_MSR"@));
    out
}

/// The template lacks nothing.
pub proof fn lemma_template_has_no_missing_caps(caps: KvmCaps)
    requires
        caps.user_space_msr && caps.msr_filter && caps.dirty_ring && caps.immediate_exit
            && caps.no_in_kernel_irqchip,
    ensures
        spec_missing_caps(caps).len() == 0,
{
}

/// The preflight summary line: `kvm_m0_missing_caps=<count>` for the
/// template's missing capabilities.
pub fn m0_missing_caps_summary() -> (r: String)
    ensures
        r@ == "kvm_m0_missing_caps="@ + text::spec_decimal(0),
{
    let caps = required_caps_template();
    let missing = missing_caps(&caps);
    assert(missing@.len() == str_views(missing@).len());
    let count = missing.len();
    let digits = text::decimal_string(count as u64);
    let prefix = String::from_str("kvm_m0_missing_caps=");
    prefix.concat(digits.as_str())
}

} // verus!
