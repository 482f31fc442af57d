//! Agenda compilation: a `Run(until)` compiles to a sorted agenda of stop
//! points (scheduled inputs, injections, epoch boundaries, goal polls and
//! the final stop). Every point is a pure function of the inputs, so two
//! replays compute identical agendas.

use crate::vt::ClockRatio;
use vstd::prelude::*;

verus! {

/// A nonzero u64 (spacing of the epoch grid and of goal polls).
#[derive(Clone, Copy, Debug, PartialEq, Eq)]
pub struct NonZeroU64 {
    value: u64,
}

impl NonZeroU64 {
    #[verifier::type_invariant]
    spec fn nonzero(self) -> bool {
        self.value != 0
    }

    /// The wrapped value.
    pub closed spec fn spec_get(self) -> u64 {
        self.value
    }

    /// `Some` iff `value != 0`.
    pub fn new(value: u64) -> (r: Option<NonZeroU64>)
        ensures
            value != 0 <==> r is Some,
            r matches Some(n) ==> n.spec_get() == value,
    {
        if value != 0 {
            Some(NonZeroU64 { value })
        } else {
            None
        }
    }

    pub fn get(self) -> (r: u64)
        ensures
            r == self.spec_get(),
            r != 0,
    {
        proof {
            use_type_invariant(&self);
        }
        self.value
    }
}

/// The `Run.until` budget that determines the final stop. Budgets are
/// relative to the current position.
#[derive(Clone, Copy, Debug, PartialEq, Eq)]
pub enum FinalStop {
    /// Stop after this many more instructions.
    IcountBudget(u64),
    /// Stop at the first icount where vns advanced by at least this much.
    VnsBudget(u64),
    /// The safety-net cap of goal / sdk-event / frame-budget runs.
    HardCap(u64),
}

/// Why the agenda's last point stops the run.
#[derive(Clone, Copy, Debug, PartialEq, Eq)]
pub enum StopKind {
    Budget,
    HardCap,
}

/// Everything the compiler needs; icounts are segment-relative.
#[derive(Clone, Debug)]
pub struct AgendaInputs<'a> {
    /// Current position. The agenda covers (start, final].
    pub start_icount: u64,
    /// Scheduled input landing points; `StopPoint::inputs` indexes them.
    pub scheduled_inputs: &'a [u64],
    /// Scheduled injection points; `StopPoint::injections` indexes them.
    pub injections: &'a [u64],
    /// Epoch hash at every multiple of this since segment start.
    pub epoch_len: Option<NonZeroU64>,
    /// Goal poll spacing, relative to `start_icount`.
    pub goal_poll_period: Option<NonZeroU64>,
    pub final_stop: FinalStop,
    pub clock: ClockRatio,
}

/// One stop point; coincident actions merge into one point.
#[derive(Clone, Debug, PartialEq, Eq)]
pub struct StopPoint {
    pub icount: u64,
    /// Indices into `AgendaInputs::scheduled_inputs` landing here, ascending.
    pub inputs: Vec<usize>,
    /// Indices into `AgendaInputs::injections` firing here, ascending.
    pub injections: Vec<usize>,
    pub epoch_hash: bool,
    pub goal_poll: bool,
    /// `Some` on exactly one point per agenda: the last one.
    pub final_stop: Option<StopKind>,
}

#[derive(Clone, Copy, Debug, PartialEq, Eq)]
pub enum AgendaError {
    /// Budget arithmetic exceeded u64 icount space.
    BudgetOverflow,
}

// ---------------------------------------------------------------------
// Specification of the agenda.
// ---------------------------------------------------------------------

/// The final stop icount and its kind; `None` when the budget arithmetic
/// leaves u64 space.
pub open spec fn spec_final(inputs: AgendaInputs) -> Option<(u64, StopKind)> {
    let start = inputs.start_icount as int;
    match inputs.final_stop {
        FinalStop::IcountBudget(b) => if start + b <= u64::MAX {
            Some(((start + b) as u64, StopKind::Budget))
        } else {
            None
        },
        FinalStop::HardCap(b) => if start + b <= u64::MAX {
            Some(((start + b) as u64, StopKind::HardCap))
        } else {
            None
        },
        FinalStop::VnsBudget(b) => {
            let sv = inputs.clock.spec_vns(start);
            if sv > u64::MAX || sv + b > u64::MAX {
                None
            } else {
                let t = inputs.clock.spec_target(sv + b);
                if t > u64::MAX {
                    None
                } else if t < start {
                    Some((start as u64, StopKind::Budget))
                } else {
                    Some((t as u64, StopKind::Budget))
                }
            }
        },
    }
}

pub open spec fn in_window(x: int, start: int, fin: int) -> bool {
    start < x <= fin
}

/// `x` is a multiple of the epoch length inside the window.
pub open spec fn is_epoch_point(inputs: AgendaInputs, fin: int, x: int) -> bool {
    match inputs.epoch_len {
        Some(l) => in_window(x, inputs.start_icount as int, fin) && x % (l.spec_get() as int)
            == 0,
        None => false,
    }
}

/// `x` is `start + k * period` (k >= 1) inside the window.
pub open spec fn is_poll_point(inputs: AgendaInputs, fin: int, x: int) -> bool {
    match inputs.goal_poll_period {
        Some(p) => in_window(x, inputs.start_icount as int, fin) && (x - inputs.start_icount)
            % (p.spec_get() as int) == 0,
        None => false,
    }
}

/// Entry `k` of `src` lands on `x` inside the window.
pub open spec fn lands(src: Seq<u64>, k: int, x: int, start: int, fin: int) -> bool {
    0 <= k < src.len() && src[k] == x && in_window(x, start, fin)
}

/// The index list of a point: ascending, exactly the entries of `src`
/// among the first `n` that land on `x`.
pub open spec fn index_list_ok(
    lst: Seq<usize>,
    src: Seq<u64>,
    n: int,
    x: int,
    start: int,
    fin: int,
) -> bool {
    &&& forall|a: int, b: int| 0 <= a < b < lst.len() ==> lst[a] < lst[b]
    &&& forall|a: int| 0 <= a < lst.len() ==> #[trigger] lst[a] < n && lands(src, lst[a] as int, x, start, fin)
    &&& forall|k: int| 0 <= k < n && lands(src, k, x, start, fin) ==> lst.contains(k as usize)
}

/// Progress of the compiler: inputs below `ni` and injections below `nj`
/// are placed, epoch points below `ep_lim` and polls below `pl_lim` too.
pub struct Progress {
    pub ni: int,
    pub nj: int,
    pub ep_lim: int,
    pub pl_lim: int,
}

pub open spec fn is_point_upto(inputs: AgendaInputs, fin: int, s: Progress, x: int) -> bool {
    let start = inputs.start_icount as int;
    ||| x == fin
    ||| exists|k: int| 0 <= k < s.ni && lands(inputs.scheduled_inputs@, k, x, start, fin)
    ||| exists|k: int| 0 <= k < s.nj && lands(inputs.injections@, k, x, start, fin)
    ||| (is_epoch_point(inputs, fin, x) && x < s.ep_lim)
    ||| (is_poll_point(inputs, fin, x) && x < s.pl_lim)
}

pub open spec fn fields_ok_upto(
    inputs: AgendaInputs,
    fin: int,
    kind: StopKind,
    s: Progress,
    p: StopPoint,
) -> bool {
    let start = inputs.start_icount as int;
    let x = p.icount as int;
    &&& index_list_ok(p.inputs@, inputs.scheduled_inputs@, s.ni, x, start, fin)
    &&& index_list_ok(p.injections@, inputs.injections@, s.nj, x, start, fin)
    &&& p.epoch_hash == (is_epoch_point(inputs, fin, x) && x < s.ep_lim)
    &&& p.goal_poll == (is_poll_point(inputs, fin, x) && x < s.pl_lim)
    &&& p.final_stop == (if x == fin {
        Some(kind)
    } else {
        None::<StopKind>
    })
}

pub open spec fn sorted_points(pts: Seq<StopPoint>) -> bool {
    forall|a: int, b: int| 0 <= a < b < pts.len() ==> pts[a].icount < pts[b].icount
}

pub open spec fn agenda_inv(
    inputs: AgendaInputs,
    fin: int,
    kind: StopKind,
    s: Progress,
    pts: Seq<StopPoint>,
) -> bool {
    &&& sorted_points(pts)
    &&& forall|i: int|
        0 <= i < pts.len() ==> is_point_upto(inputs, fin, s, #[trigger] pts[i].icount as int)
            && fields_ok_upto(inputs, fin, kind, s, pts[i])
    &&& forall|x: int|
        is_point_upto(inputs, fin, s, x) ==> exists|i: int|
            0 <= i < pts.len() && #[trigger] pts[i].icount == x
}

/// The progress of a finished compile: everything placed.
pub open spec fn full_progress(inputs: AgendaInputs, fin: int) -> Progress {
    Progress {
        ni: inputs.scheduled_inputs@.len() as int,
        nj: inputs.injections@.len() as int,
        ep_lim: fin + 1,
        pl_lim: fin + 1,
    }
}

/// `x` is a stop point of the agenda with final icount `fin`.
pub open spec fn is_agenda_point(inputs: AgendaInputs, fin: int, x: int) -> bool {
    is_point_upto(inputs, fin, full_progress(inputs, fin), x)
}

/// `pts` is exactly the agenda: strictly ascending icounts, one point per
/// agenda icount and no other, each carrying exactly the actions of its
/// icount (indices ascending, epoch/poll flags by the grids, the final
/// kind on the final icount only).
pub open spec fn is_agenda(inputs: AgendaInputs, fin: int, kind: StopKind, pts: Seq<StopPoint>) -> bool {
    agenda_inv(inputs, fin, kind, full_progress(inputs, fin), pts)
}

// ---------------------------------------------------------------------
// Compilation.
// ---------------------------------------------------------------------

fn final_point(inputs: &AgendaInputs) -> (r: Result<(u64, StopKind), AgendaError>)
    ensures
        spec_final(*inputs) matches Some(fk) ==> r == Ok::<(u64, StopKind), AgendaError>(fk),
        spec_final(*inputs) is None ==> r == Err::<(u64, StopKind), AgendaError>(
            AgendaError::BudgetOverflow,
        ),
{
    let start = inputs.start_icount;
    match inputs.final_stop {
        FinalStop::IcountBudget(b) => match start.checked_add(b) {
            Some(f) => Ok((f, StopKind::Budget)),
            None => Err(AgendaError::BudgetOverflow),
        },
        FinalStop::HardCap(b) => match start.checked_add(b) {
            Some(f) => Ok((f, StopKind::HardCap)),
            None => Err(AgendaError::BudgetOverflow),
        },
        FinalStop::VnsBudget(b) => {
            let start_vns = match inputs.clock.vns_from_icount(start) {
                Some(v) => v,
                None => return Err(AgendaError::BudgetOverflow),
            };
            let target_vns = match start_vns.checked_add(b) {
                Some(v) => v,
                None => return Err(AgendaError::BudgetOverflow),
            };
            let target = match inputs.clock.icount_for_vns_target(target_vns) {
                Some(t) => t,
                None => return Err(AgendaError::BudgetOverflow),
            };
            if target < start {
                Ok((start, StopKind::Budget))
            } else {
                Ok((target, StopKind::Budget))
            }
        },
    }
}

/// What one push contributes to a point.
enum Action {
    Input(usize),
    Injection(usize),
    Epoch,
    Poll,
}

/// First position whose icount is >= x.
fn lower_bound(pts: &Vec<StopPoint>, x: u64) -> (r: usize)
    requires
        sorted_points(pts@),
    ensures
        r <= pts@.len(),
        forall|i: int| 0 <= i < r ==> pts@[i].icount < x,
        forall|i: int| r <= i < pts@.len() ==> pts@[i].icount >= x,
{
    let mut lo: usize = 0;
    let mut hi: usize = pts.len();
    while lo < hi
        invariant
            lo <= hi <= pts@.len(),
            sorted_points(pts@),
            forall|i: int| 0 <= i < lo ==> pts@[i].icount < x,
            forall|i: int| hi <= i < pts@.len() ==> pts@[i].icount >= x,
        decreases hi - lo,
    {
        let mid = lo + (hi - lo) / 2;
        if pts[mid].icount < x {
            lo = mid + 1;
        } else {
            hi = mid;
        }
    }
    lo
}

pub open spec fn empty_point_at(p: StopPoint, x: u64) -> bool {
    &&& p.icount == x
    &&& p.inputs@.len() == 0
    &&& p.injections@.len() == 0
    &&& !p.epoch_hash
    &&& !p.goal_poll
    &&& p.final_stop is None
}

/// `q` is `p` with `a` applied.
spec fn applied(p: StopPoint, a: Action, q: StopPoint) -> bool {
    &&& q.icount == p.icount
    &&& q.final_stop == p.final_stop
    &&& match a {
        Action::Input(k) => q.inputs@ == p.inputs@.push(k) && q.injections@ == p.injections@
            && q.epoch_hash == p.epoch_hash && q.goal_poll == p.goal_poll,
        Action::Injection(k) => q.inputs@ == p.inputs@ && q.injections@ == p.injections@.push(k)
            && q.epoch_hash == p.epoch_hash && q.goal_poll == p.goal_poll,
        Action::Epoch => q.inputs@ == p.inputs@ && q.injections@ == p.injections@ && q.epoch_hash
            && q.goal_poll == p.goal_poll,
        Action::Poll => q.inputs@ == p.inputs@ && q.injections@ == p.injections@ && q.epoch_hash
            == p.epoch_hash && q.goal_poll,
    }
}

fn apply_action(p: &mut StopPoint, a: Action)
    ensures
        applied(*old(p), a, *final(p)),
{
    match a {
        Action::Input(k) => p.inputs.push(k),
        Action::Injection(k) => p.injections.push(k),
        Action::Epoch => p.epoch_hash = true,
        Action::Poll => p.goal_poll = true,
    }
}

/// Merge action `a` into the point at `x`, creating it if absent.
fn push_action(pts: &mut Vec<StopPoint>, x: u64, a: Action) -> (r: (usize, Ghost<bool>))
    requires
        sorted_points(old(pts)@),
    ensures
        ({
            let (idx, had) = r;
            let had = had@;
            let o = old(pts)@;
            let n = final(pts)@;
            &&& sorted_points(n)
            &&& idx < n.len()
            &&& had <==> exists|i: int| 0 <= i < o.len() && #[trigger] o[i].icount == x
            &&& had ==> idx < o.len() && o[idx as int].icount == x && n.len() == o.len()
                && applied(o[idx as int], a, n[idx as int])
            &&& !had ==> n.len() == o.len() + 1 && exists|e: StopPoint|
                empty_point_at(e, x) && applied(e, a, n[idx as int])
            &&& forall|i: int| 0 <= i < idx ==> n[i] == o[i]
            &&& had ==> forall|i: int| idx < i < n.len() ==> n[i] == o[i]
            &&& !had ==> forall|i: int| idx < i < n.len() ==> n[i] == o[i - 1]
        }),
{
    let idx = lower_bound(pts, x);
    let ghost o = pts@;
    if idx < pts.len() && pts[idx].icount == x {
        let mut p = pts.remove(idx);
        apply_action(&mut p, a);
        proof {
            o.remove_ensures(idx as int);
        }
        let ghost mid = pts@;
        pts.insert(idx, p);
        proof {
            mid.insert_ensures(idx as int, p);
            assert forall|i: int| idx < i < pts@.len() implies pts@[i] == o[i] by {
                assert(pts@[i] == mid[i - 1]);
            }
            assert(o[idx as int].icount == x);
        }
        (idx, Ghost(true))
    } else {
        let mut p = StopPoint {
            icount: x,
            inputs: Vec::new(),
            injections: Vec::new(),
            epoch_hash: false,
            goal_poll: false,
            final_stop: None,
        };
        let ghost e = p;
        apply_action(&mut p, a);
        pts.insert(idx, p);
        proof {
            o.insert_ensures(idx as int, p);
            assert(empty_point_at(e, x));
            assert forall|i: int| 0 <= i < o.len() implies #[trigger] o[i].icount != x by {
                if i < idx {
                } else {
                }
            }
            assert forall|aa: int, bb: int| 0 <= aa < bb < pts@.len() implies pts@[aa].icount
                < pts@[bb].icount by {
                if bb < idx {
                } else if bb == idx {
                } else if aa < idx {
                    assert(pts@[bb] == o[bb - 1]);
                } else if aa == idx {
                    assert(pts@[bb] == o[bb - 1]);
                } else {
                    assert(pts@[bb] == o[bb - 1]);
                    assert(pts@[aa] == o[aa - 1]);
                }
            }
            assert forall|i: int| idx < i < pts@.len() implies pts@[i] == o[i - 1] by {}
        }
        (idx, Ghost(false))
    }
}

/// The contribution of one step: action `a` at `x`, taking progress
/// `s` to `s2`; nothing else changes.
spec fn step_ok(
    inputs: AgendaInputs,
    fin: int,
    s: Progress,
    s2: Progress,
    x: int,
    a: Action,
) -> bool {
    let start = inputs.start_icount as int;
    match a {
        Action::Input(k) => s2.ni == s.ni + 1 && k == s.ni && s2.nj == s.nj && s2.ep_lim
            == s.ep_lim && s2.pl_lim == s.pl_lim && lands(
            inputs.scheduled_inputs@,
            k as int,
            x,
            start,
            fin,
        ),
        Action::Injection(k) => s2.nj == s.nj + 1 && k == s.nj && s2.ni == s.ni && s2.ep_lim
            == s.ep_lim && s2.pl_lim == s.pl_lim && lands(inputs.injections@, k as int, x, start, fin),
        Action::Epoch => s2.ni == s.ni && s2.nj == s.nj && s2.pl_lim == s.pl_lim
            && is_epoch_point(inputs, fin, x) && s.ep_lim == x && (forall|y: int|
            is_epoch_point(inputs, fin, y) && y < s2.ep_lim ==> y <= x) && s2.ep_lim > x,
        Action::Poll => s2.ni == s.ni && s2.nj == s.nj && s2.ep_lim == s.ep_lim
            && is_poll_point(inputs, fin, x) && s.pl_lim == x && (forall|y: int|
            is_poll_point(inputs, fin, y) && y < s2.pl_lim ==> y <= x) && s2.pl_lim > x,
    }
}

proof fn lemma_step_preserves(
    inputs: AgendaInputs,
    fin: int,
    kind: StopKind,
    s: Progress,
    s2: Progress,
    x: u64,
    a: Action,
    o: Seq<StopPoint>,
    n: Seq<StopPoint>,
    idx: int,
    had: bool,
)
    requires
        agenda_inv(inputs, fin, kind, s, o),
        step_ok(inputs, fin, s, s2, x as int, a),
        sorted_points(n),
        0 <= idx < n.len(),
        had <==> exists|i: int| 0 <= i < o.len() && #[trigger] o[i].icount == x,
        had ==> idx < o.len() && o[idx].icount == x && n.len() == o.len() && applied(
            o[idx],
            a,
            n[idx],
        ),
        !had ==> n.len() == o.len() + 1 && exists|e: StopPoint|
            empty_point_at(e, x) && applied(e, a, n[idx]),
        forall|i: int| 0 <= i < idx ==> n[i] == o[i],
        had ==> forall|i: int| idx < i < n.len() ==> n[i] == o[i],
        !had ==> forall|i: int| idx < i < n.len() ==> n[i] == o[i - 1],
    ensures
        agenda_inv(inputs, fin, kind, s2, n),
{
    let start = inputs.start_icount as int;
    // Every point other than x keeps its facts.
    assert forall|i: int| 0 <= i < n.len() implies is_point_upto(
        inputs,
        fin,
        s2,
        #[trigger] n[i].icount as int,
    ) && fields_ok_upto(inputs, fin, kind, s2, n[i]) by {
        if i == idx {
            lemma_point_at_step(inputs, fin, kind, s, s2, x, a, o, n, idx, had);
        } else {
            let j = if i < idx || had {
                i
            } else {
                i - 1
            };
            assert(n[i] == o[j]);
            assert(o[j].icount != x) by {
                if had {
                    assert(n[idx].icount == x);
                } else {
                }
            }
            lemma_other_point_stable(inputs, fin, kind, s, s2, x as int, a, o[j]);
        }
    }
    assert forall|y: int| is_point_upto(inputs, fin, s2, y) implies exists|i: int|
        0 <= i < n.len() && #[trigger] n[i].icount == y by {
        if y == x {
            lemma_point_at_step(inputs, fin, kind, s, s2, x, a, o, n, idx, had);
            assert(n[idx].icount == y);
        } else {
            lemma_is_point_stable(inputs, fin, s, s2, x as int, a, y);
            let j = choose|j: int| 0 <= j < o.len() && #[trigger] o[j].icount == y;
            if j < idx {
                assert(n[j] == o[j]);
            } else if had {
                assert(j != idx);
                assert(n[j] == o[j]);
            } else {
                assert(n[j + 1] == o[j]);
            }
        }
    }
}

/// Facts about points whose icount is not where the step lands.
proof fn lemma_is_point_stable(
    inputs: AgendaInputs,
    fin: int,
    s: Progress,
    s2: Progress,
    x: int,
    a: Action,
    y: int,
)
    requires
        step_ok(inputs, fin, s, s2, x, a),
        y != x,
    ensures
        is_point_upto(inputs, fin, s, y) == is_point_upto(inputs, fin, s2, y),
{
    let start = inputs.start_icount as int;
    match a {
        Action::Input(k) => {
            if exists|kk: int| 0 <= kk < s2.ni && lands(inputs.scheduled_inputs@, kk, y, start, fin) {
                let kk = choose|kk: int|
                    0 <= kk < s2.ni && lands(inputs.scheduled_inputs@, kk, y, start, fin);
                assert(kk != k);
            }
        },
        Action::Injection(k) => {
            if exists|kk: int| 0 <= kk < s2.nj && lands(inputs.injections@, kk, y, start, fin) {
                let kk = choose|kk: int|
                    0 <= kk < s2.nj && lands(inputs.injections@, kk, y, start, fin);
                assert(kk != k);
            }
        },
        Action::Epoch => {},
        Action::Poll => {},
    }
}

proof fn lemma_other_point_stable(
    inputs: AgendaInputs,
    fin: int,
    kind: StopKind,
    s: Progress,
    s2: Progress,
    x: int,
    a: Action,
    p: StopPoint,
)
    requires
        step_ok(inputs, fin, s, s2, x, a),
        p.icount != x,
        is_point_upto(inputs, fin, s, p.icount as int),
        fields_ok_upto(inputs, fin, kind, s, p),
    ensures
        is_point_upto(inputs, fin, s2, p.icount as int),
        fields_ok_upto(inputs, fin, kind, s2, p),
{
    lemma_is_point_stable(inputs, fin, s, s2, x, a, p.icount as int);
    let start = inputs.start_icount as int;
    let y = p.icount as int;
    match a {
        Action::Input(k) => {
            assert forall|kk: int|
                0 <= kk < s2.ni && lands(inputs.scheduled_inputs@, kk, y, start, fin) implies p.inputs@.contains(
                kk as usize,
            ) by {
                assert(kk != k);
            }
        },
        Action::Injection(k) => {
            assert forall|kk: int|
                0 <= kk < s2.nj && lands(inputs.injections@, kk, y, start, fin) implies p.injections@.contains(
                kk as usize,
            ) by {
                assert(kk != k);
            }
        },
        Action::Epoch => {},
        Action::Poll => {},
    }
}

proof fn lemma_point_at_step(
    inputs: AgendaInputs,
    fin: int,
    kind: StopKind,
    s: Progress,
    s2: Progress,
    x: u64,
    a: Action,
    o: Seq<StopPoint>,
    n: Seq<StopPoint>,
    idx: int,
    had: bool,
)
    requires
        agenda_inv(inputs, fin, kind, s, o),
        step_ok(inputs, fin, s, s2, x as int, a),
        0 <= idx < n.len(),
        had <==> exists|i: int| 0 <= i < o.len() && #[trigger] o[i].icount == x,
        had ==> idx < o.len() && o[idx].icount == x && applied(o[idx], a, n[idx]),
        !had ==> exists|e: StopPoint| empty_point_at(e, x) && applied(e, a, n[idx]),
    ensures
        n[idx].icount == x,
        is_point_upto(inputs, fin, s2, x as int),
        fields_ok_upto(inputs, fin, kind, s2, n[idx]),
{
    let start = inputs.start_icount as int;
    let q = n[idx];
    let base = if had {
        o[idx]
    } else {
        choose|e: StopPoint| empty_point_at(e, x) && applied(e, a, n[idx])
    };
    assert(applied(base, a, q));
    // The base point is consistent with the old progress.
    if !had {
        assert(!is_point_upto(inputs, fin, s, x as int)) by {
            if is_point_upto(inputs, fin, s, x as int) {
                let i = choose|i: int| 0 <= i < o.len() && #[trigger] o[i].icount == x;
                assert(o[i].icount == x);
            }
        }
        assert(fields_ok_upto(inputs, fin, kind, s, base)) by {
            assert forall|k: int|
                0 <= k < s.ni && lands(inputs.scheduled_inputs@, k, x as int, start, fin) implies base.inputs@.contains(
                k as usize,
            ) by {
                assert(exists|kk: int|
                    0 <= kk < s.ni && lands(inputs.scheduled_inputs@, kk, x as int, start, fin));
            }
            assert forall|k: int|
                0 <= k < s.nj && lands(inputs.injections@, k, x as int, start, fin) implies base.injections@.contains(
                k as usize,
            ) by {
                assert(exists|kk: int|
                    0 <= kk < s.nj && lands(inputs.injections@, kk, x as int, start, fin));
            }
        }
    } else {
        assert(fields_ok_upto(inputs, fin, kind, s, base));
    }
    match a {
        Action::Input(k) => {
            let l = base.inputs@;
            let l2 = q.inputs@;
            assert(l2 == l.push(k));
            assert forall|aa: int, bb: int| 0 <= aa < bb < l2.len() implies l2[aa] < l2[bb] by {
                if bb == l.len() {
                    assert(l[aa] < s.ni);
                } else {
                }
            }
            assert forall|aa: int| 0 <= aa < l2.len() implies #[trigger] l2[aa] < s2.ni && lands(
                inputs.scheduled_inputs@,
                l2[aa] as int,
                x as int,
                start,
                fin,
            ) by {
                if aa < l.len() {
                    assert(l2[aa] == l[aa]);
                }
            }
            assert forall|kk: int|
                0 <= kk < s2.ni && lands(inputs.scheduled_inputs@, kk, x as int, start, fin) implies l2.contains(
                kk as usize,
            ) by {
                if kk == k {
                    assert(l2[l.len() as int] == k);
                } else {
                    assert(l.contains(kk as usize));
                    let w = choose|w: int| 0 <= w < l.len() && l[w] == kk as usize;
                    assert(l2[w] == kk as usize);
                }
            }
            assert(exists|kk: int|
                0 <= kk < s2.ni && lands(inputs.scheduled_inputs@, kk, x as int, start, fin)) by {
                assert(lands(inputs.scheduled_inputs@, k as int, x as int, start, fin));
            }
        },
        Action::Injection(k) => {
            let l = base.injections@;
            let l2 = q.injections@;
            assert(l2 == l.push(k));
            assert forall|aa: int, bb: int| 0 <= aa < bb < l2.len() implies l2[aa] < l2[bb] by {
                if bb == l.len() {
                    assert(l[aa] < s.nj);
                } else {
                }
            }
            assert forall|aa: int| 0 <= aa < l2.len() implies #[trigger] l2[aa] < s2.nj && lands(
                inputs.injections@,
                l2[aa] as int,
                x as int,
                start,
                fin,
            ) by {
                if aa < l.len() {
                    assert(l2[aa] == l[aa]);
                }
            }
            assert forall|kk: int|
                0 <= kk < s2.nj && lands(inputs.injections@, kk, x as int, start, fin) implies l2.contains(
                kk as usize,
            ) by {
                if kk == k {
                    assert(l2[l.len() as int] == k);
                } else {
                    assert(l.contains(kk as usize));
                    let w = choose|w: int| 0 <= w < l.len() && l[w] == kk as usize;
                    assert(l2[w] == kk as usize);
                }
            }
            assert(exists|kk: int|
                0 <= kk < s2.nj && lands(inputs.injections@, kk, x as int, start, fin)) by {
                assert(lands(inputs.injections@, k as int, x as int, start, fin));
            }
        },
        Action::Epoch => {},
        Action::Poll => {},
    }
}

/// Multiples of `l` above `start` start at `(start / l + 1) * l`.
proof fn lemma_first_multiple(start: int, l: int, y: int)
    requires
        l > 0,
        start >= 0,
        y > start,
        y % l == 0,
    ensures
        y >= (start / l + 1) * l,
        (start / l + 1) * l > start,
{
    vstd::arithmetic::div_mod::lemma_fundamental_div_mod(start, l);
    vstd::arithmetic::div_mod::lemma_mod_bound(start, l);
    vstd::arithmetic::div_mod::lemma_fundamental_div_mod(y, l);
    let q = y / l;
    let qs = start / l;
    assert(y == l * q);
    assert(start == l * qs + start % l);
    assert((qs + 1) * l > start) by (nonlinear_arith)
        requires
            start == l * qs + start % l,
            start % l < l,
    ;
    if q <= qs {
        assert(l * q <= l * qs) by (nonlinear_arith)
            requires
                q <= qs,
                l > 0,
        ;
    }
    assert(y >= (qs + 1) * l) by (nonlinear_arith)
        requires
            q >= qs + 1,
            l > 0,
            y == l * q,
    ;
}

/// No multiple of `l` lies strictly between `k * l` and `(k + 1) * l`.
proof fn lemma_next_multiple(k: int, l: int, y: int, base: int)
    requires
        l > 0,
        (y - base) % l == 0,
        y < base + (k + 1) * l,
        y >= base,
    ensures
        y <= base + k * l,
{
    vstd::arithmetic::div_mod::lemma_fundamental_div_mod(y - base, l);
    let q = (y - base) / l;
    assert(y - base == l * q);
    if q > k {
        assert(l * q >= l * (k + 1)) by (nonlinear_arith)
            requires
                q >= k + 1,
                l > 0,
        ;
        assert(l * (k + 1) == (k + 1) * l) by (nonlinear_arith);
    } else {
        assert(l * q <= l * k) by (nonlinear_arith)
            requires
                q <= k,
                l > 0,
        ;
        assert(l * k == k * l) by (nonlinear_arith);
    }
}

/// Compile the sorted agenda. Pure: identical inputs yield identical output.
pub fn compile(inputs: &AgendaInputs) -> (r: Result<Vec<StopPoint>, AgendaError>)
    requires
        // The first grid step `start / len + 1` overflows (and panics) here.
        inputs.start_icount == u64::MAX ==> !(inputs.epoch_len matches Some(l) && l.spec_get()
            == 1),
    ensures
        spec_final(*inputs) is None ==> r == Err::<Vec<StopPoint>, AgendaError>(
            AgendaError::BudgetOverflow,
        ),
        spec_final(*inputs) matches Some(fk) ==> r matches Ok(pts) && is_agenda(
            *inputs,
            fk.0 as int,
            fk.1,
            pts@,
        ),
{
    let (final_icount, stop_kind) = match final_point(inputs) {
        Ok(fk) => fk,
        Err(e) => return Err(e),
    };
    let start = inputs.start_icount;
    // Both spacings are nonzero.
    match inputs.epoch_len {
        Some(l) => {
            let _ = l.get();
        },
        None => {},
    }
    match inputs.goal_poll_period {
        Some(p) => {
            let _ = p.get();
        },
        None => {},
    }
    let ghost fin = final_icount as int;
    let ghost inp = *inputs;
    let ghost first_ep: int = match inputs.epoch_len {
        Some(l) => (start / l.spec_get() + 1) * l.spec_get(),
        None => 0,
    };
    let ghost first_pl: int = match inputs.goal_poll_period {
        Some(p) => start + p.spec_get(),
        None => 0,
    };
    let ghost mut s = Progress { ni: 0, nj: 0, ep_lim: first_ep, pl_lim: first_pl };

    let mut points: Vec<StopPoint> = Vec::new();
    points.push(
        StopPoint {
            icount: final_icount,
            inputs: Vec::new(),
            injections: Vec::new(),
            epoch_hash: false,
            goal_poll: false,
            final_stop: Some(stop_kind),
        },
    );
    proof {
        let p0 = points@[0];
        assert(!(is_epoch_point(inp, fin, fin) && fin < first_ep)) by {
            if let Some(l) = inp.epoch_len {
                if is_epoch_point(inp, fin, fin) {
                    lemma_first_multiple(start as int, l.spec_get() as int, fin);
                }
            }
        }
        assert(!(is_poll_point(inp, fin, fin) && fin < first_pl)) by {
            if let Some(p) = inp.goal_poll_period {
                if is_poll_point(inp, fin, fin) {
                    vstd::arithmetic::div_mod::lemma_mod_pos_bound(fin - start, p.spec_get() as int);
                    if fin - start < p.spec_get() {
                        vstd::arithmetic::div_mod::lemma_small_mod((fin - start) as nat, p.spec_get() as nat);
                    }
                }
            }
        }
        assert forall|x: int| is_point_upto(inp, fin, s, x) implies exists|i: int|
            0 <= i < points@.len() && #[trigger] points@[i].icount == x by {
            if let Some(l) = inp.epoch_len {
                if is_epoch_point(inp, fin, x) && x < s.ep_lim {
                    lemma_first_multiple(start as int, l.spec_get() as int, x);
                }
            }
            if let Some(p) = inp.goal_poll_period {
                if is_poll_point(inp, fin, x) && x < s.pl_lim {
                    if x - start < p.spec_get() {
                        vstd::arithmetic::div_mod::lemma_small_mod((x - start) as nat, p.spec_get() as nat);
                    }
                }
            }
            assert(points@[0].icount == x);
        }
        assert(agenda_inv(inp, fin, stop_kind, s, points@));
    }

    // Scheduled inputs within (start, final].
    let n_inputs = inputs.scheduled_inputs.len();
    let mut idx: usize = 0;
    while idx < n_inputs
        invariant
            n_inputs == inp.scheduled_inputs@.len(),
            *inputs == inp,
            idx <= n_inputs,
            s.ni == idx,
            s.nj == 0,
            s.ep_lim == first_ep,
            s.pl_lim == first_pl,
            fin == final_icount,
            start == inp.start_icount,
            agenda_inv(inp, fin, stop_kind, s, points@),
        decreases n_inputs - idx,
    {
        let at = inputs.scheduled_inputs[idx];
        let ghost s2 = Progress { ni: s.ni + 1, ..s };
        if at > start && at <= final_icount {
            let ghost o = points@;
            let (pos, had) = push_action(&mut points, at, Action::Input(idx));
            proof {
                lemma_step_preserves(inp, fin, stop_kind, s, s2, at, Action::Input(idx), o, points@, pos as int, had@);
            }
        } else {
            proof {
                let o = points@;
                assert forall|i: int| 0 <= i < o.len() implies is_point_upto(
                    inp,
                    fin,
                    s2,
                    #[trigger] o[i].icount as int,
                ) && fields_ok_upto(inp, fin, stop_kind, s2, o[i]) by {
                    assert forall|kk: int|
                        0 <= kk < s2.ni && lands(inp.scheduled_inputs@, kk, o[i].icount as int, start as int, fin) implies o[i].inputs@.contains(
                        kk as usize,
                    ) by {
                        assert(kk != idx);
                    }
                }
                assert forall|y: int| is_point_upto(inp, fin, s2, y) implies is_point_upto(inp, fin, s, y) by {
                    if exists|kk: int| 0 <= kk < s2.ni && lands(inp.scheduled_inputs@, kk, y, start as int, fin) {
                        let kk = choose|kk: int|
                            0 <= kk < s2.ni && lands(inp.scheduled_inputs@, kk, y, start as int, fin);
                        assert(kk != idx);
                    }
                }
            }
        }
        proof {
            s = s2;
        }
        idx = idx + 1;
    }

    // Scheduled injections within (start, final].
    let n_inj = inputs.injections.len();
    let mut idx: usize = 0;
    while idx < n_inj
        invariant
            n_inj == inp.injections@.len(),
            *inputs == inp,
            idx <= n_inj,
            s.ni == inp.scheduled_inputs@.len(),
            s.nj == idx,
            s.ep_lim == first_ep,
            s.pl_lim == first_pl,
            fin == final_icount,
            start == inp.start_icount,
            agenda_inv(inp, fin, stop_kind, s, points@),
        decreases n_inj - idx,
    {
        let at = inputs.injections[idx];
        let ghost s2 = Progress { nj: s.nj + 1, ..s };
        if at > start && at <= final_icount {
            let ghost o = points@;
            let (pos, had) = push_action(&mut points, at, Action::Injection(idx));
            proof {
                lemma_step_preserves(inp, fin, stop_kind, s, s2, at, Action::Injection(idx), o, points@, pos as int, had@);
            }
        } else {
            proof {
                let o = points@;
                assert forall|i: int| 0 <= i < o.len() implies is_point_upto(
                    inp,
                    fin,
                    s2,
                    #[trigger] o[i].icount as int,
                ) && fields_ok_upto(inp, fin, stop_kind, s2, o[i]) by {
                    assert forall|kk: int|
                        0 <= kk < s2.nj && lands(inp.injections@, kk, o[i].icount as int, start as int, fin) implies o[i].injections@.contains(
                        kk as usize,
                    ) by {
                        assert(kk != idx);
                    }
                }
                assert forall|y: int| is_point_upto(inp, fin, s2, y) implies is_point_upto(inp, fin, s, y) by {
                    if exists|kk: int| 0 <= kk < s2.nj && lands(inp.injections@, kk, y, start as int, fin) {
                        let kk = choose|kk: int|
                            0 <= kk < s2.nj && lands(inp.injections@, kk, y, start as int, fin);
                        assert(kk != idx);
                    }
                }
            }
        }
        proof {
            s = s2;
        }
        idx = idx + 1;
    }

    // Epoch grid: multiples of epoch_len from segment start within (start, final].
    match inputs.epoch_len {
        Some(len_nz) => {
            let len = len_nz.get();
            proof {
                if len == 1 {
                    vstd::arithmetic::div_mod::lemma_div_basics(start as int);
                    assert(start < u64::MAX);
                } else if start > 0 {
                    vstd::arithmetic::div_mod::lemma_div_decreases(start as int, len as int);
                } else {
                    assert(start / len == 0);
                }
            }
            let mut k: u64 = start / len + 1;
            proof {
                assert(s.ep_lim == k * len);
                vstd::arithmetic::div_mod::lemma_fundamental_div_mod(start as int, len as int);
                vstd::arithmetic::div_mod::lemma_mod_bound(start as int, len as int);
                assert(k * len > start) by (nonlinear_arith)
                    requires
                        start == len * (start / len) + start % len,
                        start % len < len,
                        k == start / len + 1,
                ;
            }
            loop
                invariant_except_break
                    *inputs == inp,
                    inp.epoch_len == Some(len_nz),
                    len == len_nz.spec_get(),
                    len > 0,
                    s.ni == inp.scheduled_inputs@.len(),
                    s.nj == inp.injections@.len(),
                    s.pl_lim == first_pl,
                    s.ep_lim == k * len,
                    s.ep_lim > start,
                    fin == final_icount,
                    start == inp.start_icount,
                    agenda_inv(inp, fin, stop_kind, s, points@),
                ensures
                    s.ni == inp.scheduled_inputs@.len(),
                    s.nj == inp.injections@.len(),
                    s.pl_lim == first_pl,
                    s.ep_lim > fin,
                    agenda_inv(inp, fin, stop_kind, s, points@),
                decreases u64::MAX - k,
            {
                let at = match k.checked_mul(len) {
                    Some(v) => v,
                    None => {
                        proof {
                            assert(k * len > u64::MAX);
                        }
                        break;
                    },
                };
                if at > final_icount {
                    break;
                }
                let ghost s2 = Progress { ep_lim: (k + 1) * len, ..s };
                let ghost o = points@;
                proof {
                    assert((k + 1) * len == k * len + len) by (nonlinear_arith);
                    assert(is_epoch_point(inp, fin, at as int)) by {
                        vstd::arithmetic::div_mod::lemma_mod_multiples_basic(k as int, len as int);
                    }
                    assert forall|y: int| is_epoch_point(inp, fin, y) && y < s2.ep_lim implies y <= at by {
                        lemma_next_multiple(k as int, len as int, y, 0);
                    }
                }
                let (pos, had) = push_action(&mut points, at, Action::Epoch);
                proof {
                    lemma_step_preserves(inp, fin, stop_kind, s, s2, at, Action::Epoch, o, points@, pos as int, had@);
                    s = s2;
                }
                match k.checked_add(1) {
                    Some(next) => {
                        k = next;
                    },
                    None => {
                        proof {
                            assert(s.ep_lim >= u64::MAX + 1) by (nonlinear_arith)
                                requires
                                    s.ep_lim == (k + 1) * len,
                                    k == u64::MAX,
                                    len >= 1,
                            ;
                        }
                        break;
                    },
                }
            }
        },
        None => {},
    }
    let ghost s_ep = s;
    proof {
        assert forall|y: int| is_epoch_point(inp, fin, y) implies y < s.ep_lim by {
            if inp.epoch_len is None {
            }
        }
    }

    // Goal polls: start + k * period, k >= 1, within (start, final].
    match inputs.goal_poll_period {
        Some(period_nz) => {
            let period = period_nz.get();
            let mut at_opt = start.checked_add(period);
            let ghost mut kk: int = 1;
            loop
                invariant_except_break
                    *inputs == inp,
                    inp.goal_poll_period == Some(period_nz),
                    period == period_nz.spec_get(),
                    period > 0,
                    kk >= 1,
                    s.ni == inp.scheduled_inputs@.len(),
                    s.nj == inp.injections@.len(),
                    s.ep_lim == s_ep.ep_lim,
                    s.pl_lim == start + kk * period,
                    at_opt matches Some(v) ==> v == s.pl_lim,
                    at_opt is None ==> s.pl_lim > u64::MAX,
                    fin == final_icount,
                    start == inp.start_icount,
                    agenda_inv(inp, fin, stop_kind, s, points@),
                ensures
                    s.ni == inp.scheduled_inputs@.len(),
                    s.nj == inp.injections@.len(),
                    s.ep_lim == s_ep.ep_lim,
                    s.pl_lim > fin,
                    agenda_inv(inp, fin, stop_kind, s, points@),
                decreases (if at_opt is Some {
                    u64::MAX + 1 - s.pl_lim
                } else {
                    0
                }),
            {
                let p_at = match at_opt {
                    Some(v) => v,
                    None => break,
                };
                if p_at > final_icount {
                    break;
                }
                let ghost s2 = Progress { pl_lim: start + (kk + 1) * period, ..s };
                let ghost o = points@;
                proof {
                    assert(start + (kk + 1) * period == p_at + period) by (nonlinear_arith)
                        requires
                            p_at == start + kk * period,
                    ;
                    assert(is_poll_point(inp, fin, p_at as int)) by {
                        assert(p_at - start == kk * period);
                        vstd::arithmetic::div_mod::lemma_mod_multiples_basic(kk, period as int);
                        assert(kk * period > 0) by (nonlinear_arith)
                            requires
                                kk >= 1,
                                period > 0,
                        ;
                    }
                    assert forall|y: int| is_poll_point(inp, fin, y) && y < s2.pl_lim implies y <= p_at by {
                        lemma_next_multiple(kk, period as int, y, start as int);
                    }
                }
                let (pos, had) = push_action(&mut points, p_at, Action::Poll);
                proof {
                    lemma_step_preserves(inp, fin, stop_kind, s, s2, p_at, Action::Poll, o, points@, pos as int, had@);
                    s = s2;
                    kk = kk + 1;
                }
                at_opt = p_at.checked_add(period);
            }
        },
        None => {},
    }
    proof {
        let full = full_progress(inp, fin);
        assert forall|y: int| is_poll_point(inp, fin, y) implies y < s.pl_lim by {
            if inp.goal_poll_period is None {
            }
        }
        assert forall|y: int| is_epoch_point(inp, fin, y) implies y < s.ep_lim by {}
        // The final progress and the full progress describe the same points.
        assert forall|y: int| is_point_upto(inp, fin, s, y) == is_point_upto(inp, fin, full, y) by {}
        assert forall|i: int| 0 <= i < points@.len() implies is_point_upto(
            inp,
            fin,
            full,
            #[trigger] points@[i].icount as int,
        ) && fields_ok_upto(inp, fin, stop_kind, full, points@[i]) by {
            assert(fields_ok_upto(inp, fin, stop_kind, s, points@[i]));
        }
        assert(agenda_inv(inp, fin, stop_kind, full, points@));
    }
    Ok(points)
}

/// What an agenda is, point by point: its points strictly ascend inside
/// the window and the last one is the final stop (the only one with a
/// final kind); every point carries an action; each scheduled input and
/// injection that lands in the window is listed on exactly one point, the
/// one at its icount, and one outside the window on none; the epoch and
/// poll flags follow their grids, and every grid icount in the window is a
/// point.
pub proof fn lemma_agenda_laws(inputs: AgendaInputs, fin: int, kind: StopKind, pts: Seq<StopPoint>)
    requires
        is_agenda(inputs, fin, kind, pts),
        inputs.start_icount <= fin,
    ensures
        pts.len() > 0,
        pts.last().icount == fin,
        pts.last().final_stop == Some(kind),
        forall|a: int| 0 <= a < pts.len() - 1 ==> #[trigger] pts[a].final_stop is None,
        forall|a: int, b: int| 0 <= a < b < pts.len() ==> pts[a].icount < pts[b].icount,
        forall|a: int|
            0 <= a < pts.len() ==> {
                let p = #[trigger] pts[a];
                &&& (p.icount > inputs.start_icount || (p.icount == inputs.start_icount
                    && p.final_stop is Some))
                &&& p.icount <= fin
                &&& (p.inputs@.len() > 0 || p.injections@.len() > 0 || p.epoch_hash || p.goal_poll
                    || p.final_stop is Some)
                &&& p.epoch_hash == is_epoch_point(inputs, fin, p.icount as int)
                &&& p.goal_poll == is_poll_point(inputs, fin, p.icount as int)
            },
        forall|k: usize|
            k < inputs.injections@.len() ==> (lands(
                inputs.injections@,
                k as int,
                inputs.injections@[k as int] as int,
                inputs.start_icount as int,
                fin,
            ) <==> exists|a: int| 0 <= a < pts.len() && #[trigger] pts[a].injections@.contains(k)),
        forall|k: usize, a: int|
            k < inputs.injections@.len() && 0 <= a < pts.len() && #[trigger] pts[a].injections@.contains(
                k,
            ) ==> pts[a].icount == inputs.injections@[k as int],
        forall|k: usize|
            k < inputs.scheduled_inputs@.len() ==> (lands(
                inputs.scheduled_inputs@,
                k as int,
                inputs.scheduled_inputs@[k as int] as int,
                inputs.start_icount as int,
                fin,
            ) <==> exists|a: int| 0 <= a < pts.len() && #[trigger] pts[a].inputs@.contains(k)),
        forall|k: usize, a: int|
            k < inputs.scheduled_inputs@.len() && 0 <= a < pts.len() && #[trigger] pts[a].inputs@.contains(
                k,
            ) ==> pts[a].icount == inputs.scheduled_inputs@[k as int],
        forall|x: int|
            is_epoch_point(inputs, fin, x) || is_poll_point(inputs, fin, x) ==> exists|a: int|
                0 <= a < pts.len() && #[trigger] pts[a].icount == x,
{
    let s = full_progress(inputs, fin);
    let start = inputs.start_icount as int;
    assert(is_point_upto(inputs, fin, s, fin));
    let f = choose|a: int| 0 <= a < pts.len() && #[trigger] pts[a].icount == fin;
    assert forall|a: int| 0 <= a < pts.len() implies #[trigger] pts[a].icount <= fin by {
        assert(is_point_upto(inputs, fin, s, pts[a].icount as int));
    }
    if f < pts.len() - 1 {
        assert(pts[f].icount < pts[pts.len() - 1].icount);
    }
    assert(f == pts.len() - 1);
    assert forall|a: int| 0 <= a < pts.len() implies {
        let p = #[trigger] pts[a];
        &&& (p.icount > inputs.start_icount || (p.icount == inputs.start_icount
            && p.final_stop is Some))
        &&& p.icount <= fin
        &&& (p.inputs@.len() > 0 || p.injections@.len() > 0 || p.epoch_hash || p.goal_poll
            || p.final_stop is Some)
        &&& p.epoch_hash == is_epoch_point(inputs, fin, p.icount as int)
        &&& p.goal_poll == is_poll_point(inputs, fin, p.icount as int)
    } by {
        let p = pts[a];
        let x = p.icount as int;
        assert(is_point_upto(inputs, fin, s, x));
        assert(fields_ok_upto(inputs, fin, kind, s, p));
        if x != fin {
            if exists|k: int| 0 <= k < s.ni && lands(inputs.scheduled_inputs@, k, x, start, fin) {
                let k = choose|k: int| 0 <= k < s.ni && lands(inputs.scheduled_inputs@, k, x, start, fin);
                assert(p.inputs@.contains(k as usize));
            } else if exists|k: int| 0 <= k < s.nj && lands(inputs.injections@, k, x, start, fin) {
                let k = choose|k: int| 0 <= k < s.nj && lands(inputs.injections@, k, x, start, fin);
                assert(p.injections@.contains(k as usize));
            }
        }
    }
    assert forall|a: int| 0 <= a < pts.len() - 1 implies #[trigger] pts[a].final_stop is None by {
        assert(fields_ok_upto(inputs, fin, kind, s, pts[a]));
        assert(pts[a].icount < pts[pts.len() - 1].icount);
    }
    assert(fields_ok_upto(inputs, fin, kind, s, pts[f]));
    assert forall|k: usize|
        k < inputs.injections@.len() implies (lands(
        inputs.injections@,
        k as int,
        inputs.injections@[k as int] as int,
        start,
        fin,
    ) <==> exists|a: int| 0 <= a < pts.len() && #[trigger] pts[a].injections@.contains(k)) by {
        let x = inputs.injections@[k as int] as int;
        if lands(inputs.injections@, k as int, x, start, fin) {
            assert(is_point_upto(inputs, fin, s, x));
            let a = choose|a: int| 0 <= a < pts.len() && #[trigger] pts[a].icount == x;
            assert(fields_ok_upto(inputs, fin, kind, s, pts[a]));
            assert(pts[a].injections@.contains(k));
        }
        if exists|a: int| 0 <= a < pts.len() && #[trigger] pts[a].injections@.contains(k) {
            let a = choose|a: int| 0 <= a < pts.len() && #[trigger] pts[a].injections@.contains(k);
            assert(fields_ok_upto(inputs, fin, kind, s, pts[a]));
            let t = choose|t: int| 0 <= t < pts[a].injections@.len() && pts[a].injections@[t] == k;
            assert(lands(inputs.injections@, pts[a].injections@[t] as int, pts[a].icount as int, start, fin));
        }
    }
    assert forall|k: usize, a: int|
        k < inputs.injections@.len() && 0 <= a < pts.len() && #[trigger] pts[a].injections@.contains(
            k,
        ) implies pts[a].icount == inputs.injections@[k as int] by {
        assert(fields_ok_upto(inputs, fin, kind, s, pts[a]));
        let t = choose|t: int| 0 <= t < pts[a].injections@.len() && pts[a].injections@[t] == k;
        assert(lands(inputs.injections@, pts[a].injections@[t] as int, pts[a].icount as int, start, fin));
    }
    assert forall|k: usize|
        k < inputs.scheduled_inputs@.len() implies (lands(
        inputs.scheduled_inputs@,
        k as int,
        inputs.scheduled_inputs@[k as int] as int,
        start,
        fin,
    ) <==> exists|a: int| 0 <= a < pts.len() && #[trigger] pts[a].inputs@.contains(k)) by {
        let x = inputs.scheduled_inputs@[k as int] as int;
        if lands(inputs.scheduled_inputs@, k as int, x, start, fin) {
            assert(is_point_upto(inputs, fin, s, x));
            let a = choose|a: int| 0 <= a < pts.len() && #[trigger] pts[a].icount == x;
            assert(fields_ok_upto(inputs, fin, kind, s, pts[a]));
            assert(pts[a].inputs@.contains(k));
        }
        if exists|a: int| 0 <= a < pts.len() && #[trigger] pts[a].inputs@.contains(k) {
            let a = choose|a: int| 0 <= a < pts.len() && #[trigger] pts[a].inputs@.contains(k);
            assert(fields_ok_upto(inputs, fin, kind, s, pts[a]));
            let t = choose|t: int| 0 <= t < pts[a].inputs@.len() && pts[a].inputs@[t] == k;
            assert(lands(inputs.scheduled_inputs@, pts[a].inputs@[t] as int, pts[a].icount as int, start, fin));
        }
    }
    assert forall|k: usize, a: int|
        k < inputs.scheduled_inputs@.len() && 0 <= a < pts.len() && #[trigger] pts[a].inputs@.contains(
            k,
        ) implies pts[a].icount == inputs.scheduled_inputs@[k as int] by {
        assert(fields_ok_upto(inputs, fin, kind, s, pts[a]));
        let t = choose|t: int| 0 <= t < pts[a].inputs@.len() && pts[a].inputs@[t] == k;
        assert(lands(inputs.scheduled_inputs@, pts[a].inputs@[t] as int, pts[a].icount as int, start, fin));
    }
    assert forall|x: int| is_epoch_point(inputs, fin, x) || is_poll_point(inputs, fin, x) implies exists|a: int|
        0 <= a < pts.len() && #[trigger] pts[a].icount == x by {
        assert(is_point_upto(inputs, fin, s, x));
    }
}

/// The final stop never lies before the start: a compiled agenda always
/// ends at or after `start_icount` (so `lemma_agenda_laws` applies to it).
pub proof fn lemma_final_not_before_start(inputs: AgendaInputs)
    ensures
        spec_final(inputs) matches Some(fk) ==> inputs.start_icount <= fk.0,
{
}

} // verus!
