//! Default-deny MSR policy: the allow ranges the filter lets through, and
//! the deterministic emulation of every denied access (a fixed read value,
//! a #GP on write).

use vstd::prelude::*;

verus! {

pub const MSR_SPEC_CTRL: u32 = 0x48;
pub const MSR_SYSENTER_CS: u32 = 0x174;
pub const MSR_SYSENTER_ESP: u32 = 0x175;
pub const MSR_SYSENTER_EIP: u32 = 0x176;
pub const MSR_PAT: u32 = 0x277;
pub const MSR_EFER: u32 = 0xC000_0080;
pub const MSR_STAR: u32 = 0xC000_0081;
pub const MSR_LSTAR: u32 = 0xC000_0082;
pub const MSR_CSTAR: u32 = 0xC000_0083;
pub const MSR_SFMASK: u32 = 0xC000_0084;
pub const MSR_FS_BASE: u32 = 0xC000_0100;
pub const MSR_GS_BASE: u32 = 0xC000_0101;
pub const MSR_KERNEL_GS_BASE: u32 = 0xC000_0102;
pub const MSR_TSC_AUX: u32 = 0xC000_0103;

/// IA32_APIC_BASE, served by the local APIC model.
pub const MSR_IA32_APIC_BASE: u32 = 0x1B;

/// First x2APIC register MSR.
pub const MSR_X2APIC_BASE: u32 = 0x800;

/// Last x2APIC register MSR.
pub const MSR_X2APIC_END: u32 = 0x8FF;

/// The allow ranges `(base, count)`, each `[base, base + count)`.
pub open spec fn spec_allow_ranges() -> Seq<(u32, u32)> {
    seq![(MSR_SPEC_CTRL, 1u32), (MSR_SYSENTER_CS, 3u32), (MSR_PAT, 1u32), (MSR_EFER, 5u32), (
        MSR_FS_BASE,
        4u32,
    )]
}

/// The MSRs the filter lets through, in range order.
pub open spec fn spec_allowed_msrs() -> Seq<u32> {
    seq![
        MSR_SPEC_CTRL,
        MSR_SYSENTER_CS,
        MSR_SYSENTER_ESP,
        MSR_SYSENTER_EIP,
        MSR_PAT,
        MSR_EFER,
        MSR_STAR,
        MSR_LSTAR,
        MSR_CSTAR,
        MSR_SFMASK,
        MSR_FS_BASE,
        MSR_GS_BASE,
        MSR_KERNEL_GS_BASE,
        MSR_TSC_AUX,
    ]
}

/// The allow ranges of the default-deny filter.
pub fn allow_ranges() -> (r: Vec<(u32, u32)>)
    ensures
        r@ == spec_allow_ranges(),
{
    let v = vec![(MSR_SPEC_CTRL, 1u32), (MSR_SYSENTER_CS, 3u32), (MSR_PAT, 1u32), (MSR_EFER, 5u32), (
        MSR_FS_BASE,
        4u32,
    )];
    assert(v@ =~= spec_allow_ranges());
    v
}

/// Every MSR the allow ranges cover, range by range.
pub fn allowed_msrs() -> (r: Vec<u32>)
    ensures
        r@ == spec_allowed_msrs(),
{
    let ranges = allow_ranges();
    let mut out: Vec<u32> = Vec::new();
    let mut k: usize = 0;
    while k < ranges.len()
        invariant
            ranges@ == spec_allow_ranges(),
            k <= ranges@.len(),
            out@ == spec_allowed_prefix(k as int),
        decreases ranges@.len() - k,
    {
        let (base, count) = ranges[k];
        let mut i: u32 = 0;
        while i < count
            invariant
                ranges@ == spec_allow_ranges(),
                k < ranges@.len(),
                (base, count) == ranges@[k as int],
                i <= count,
                out@ == spec_allowed_prefix(k as int) + Seq::new(i as nat, |t: int| (base + t) as u32),
            decreases count - i,
        {
            out.push(base + i);
            i = i + 1;
            assert(out@ =~= spec_allowed_prefix(k as int) + Seq::new(i as nat, |t: int| (base + t) as u32));
        }
        proof {
            lemma_allowed_prefix_step(k as int);
        }
        k = k + 1;
    }
    proof {
        lemma_allowed_prefix_all();
    }
    out
}

/// The MSRs of the first `k` allow ranges.
pub open spec fn spec_allowed_prefix(k: int) -> Seq<u32>
    decreases k,
{
    if k <= 0 {
        Seq::empty()
    } else {
        let (base, count) = spec_allow_ranges()[k - 1];
        spec_allowed_prefix(k - 1) + Seq::new(count as nat, |t: int| (base + t) as u32)
    }
}

proof fn lemma_allowed_prefix_step(k: int)
    requires
        0 <= k < 5,
    ensures
        spec_allowed_prefix(k + 1) == spec_allowed_prefix(k) + Seq::new(
            spec_allow_ranges()[k].1 as nat,
            |t: int| (spec_allow_ranges()[k].0 + t) as u32,
        ),
{
}

proof fn lemma_allowed_prefix_all()
    ensures
        spec_allowed_prefix(5) == spec_allowed_msrs(),
{
    reveal_with_fuel(spec_allowed_prefix, 6);
    assert(spec_allowed_prefix(5) =~= spec_allowed_msrs());
}

/// The bitmap of one allow range: one set bit per MSR, whole bytes.
pub fn allow_range_bitmap(count: u32) -> (r: Vec<u8>)
    ensures
        r@.len() == (count as int + 7) / 8,
        forall|i: int| 0 <= i < r@.len() ==> #[trigger] r@[i] == 0xff,
{
    let whole: u32 = count / 8;
    let n: usize = if count % 8 == 0 { whole as usize } else { whole as usize + 1 };
    let mut out: Vec<u8> = Vec::new();
    let mut i: usize = 0;
    while i < n
        invariant
            i <= n,
            out@.len() == i,
            forall|t: int| 0 <= t < i ==> #[trigger] out@[t] == 0xff,
        decreases n - i,
    {
        out.push(0xff);
        i = i + 1;
    }
    out
}

/// Installing the MSR filter failed.
#[derive(Clone, Debug, PartialEq, Eq)]
pub struct MsrFilterError(pub String);

/// Deterministic emulation of a filter-denied access.
#[derive(Clone, Copy, Debug, PartialEq, Eq, Structural)]
pub enum MsrAction {
    /// RDMSR: supply this fixed value.
    SupplyValue(u64),
    /// WRMSR: inject #GP.
    InjectGp,
}

/// A denied read yields the fixed value 0, never the hardware value.
pub fn on_denied_rdmsr(_index: u32) -> (r: MsrAction)
    ensures
        r == MsrAction::SupplyValue(0),
{
    MsrAction::SupplyValue(0)
}

/// A denied write raises #GP, always.
pub fn on_denied_wrmsr(_index: u32) -> (r: MsrAction)
    ensures
        r == MsrAction::InjectGp,
{
    MsrAction::InjectGp
}

} // verus!
