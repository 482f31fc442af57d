//! Minimal deterministic xAPIC model for Linux early boot: plain state, no
//! host irqchip, no PIT, no host clock and no TSC-deadline surface. It
//! serves the xAPIC MMIO registers Linux probes and refuses every timer or
//! IPI that would need host time.

use crate::codec::{le32, u32_at};
use crate::msr::{MSR_IA32_APIC_BASE, MSR_X2APIC_BASE, MSR_X2APIC_END};
use vstd::prelude::*;

verus! {

pub const XAPIC_MMIO_BASE: u64 = 0xfee0_0000;
pub const XAPIC_MMIO_LEN: u64 = 0x1000;

pub const APIC_BASE_BSP: u64 = 0x100;
pub const APIC_BASE_X2APIC: u64 = 0x400;
pub const APIC_BASE_ENABLE: u64 = 0x800;
pub const APIC_BASE_ADDR_MASK: u64 = 0x000f_ffff_ffff_f000;
pub const RESET_APIC_BASE_MSR: u64 = XAPIC_MMIO_BASE | APIC_BASE_BSP | APIC_BASE_ENABLE;

pub const REG_ID: u64 = 0x020;
pub const REG_VERSION: u64 = 0x030;
pub const REG_TPR: u64 = 0x080;
pub const REG_APR: u64 = 0x090;
pub const REG_PPR: u64 = 0x0a0;
pub const REG_EOI: u64 = 0x0b0;
pub const REG_LDR: u64 = 0x0d0;
pub const REG_DFR: u64 = 0x0e0;
pub const REG_SVR: u64 = 0x0f0;
pub const REG_ISR_BASE: u64 = 0x100;
pub const REG_ISR_END: u64 = 0x170;
pub const REG_TMR_BASE: u64 = 0x180;
pub const REG_TMR_END: u64 = 0x1f0;
pub const REG_IRR_BASE: u64 = 0x200;
pub const REG_IRR_END: u64 = 0x270;
pub const REG_ESR: u64 = 0x280;
pub const REG_ICR_LOW: u64 = 0x300;
pub const REG_ICR_HIGH: u64 = 0x310;
pub const REG_LVT_TIMER: u64 = 0x320;
pub const REG_LVT_THERMAL: u64 = 0x330;
pub const REG_LVT_PERF: u64 = 0x340;
pub const REG_LVT_LINT0: u64 = 0x350;
pub const REG_LVT_LINT1: u64 = 0x360;
pub const REG_LVT_ERROR: u64 = 0x370;
pub const REG_TIMER_INITIAL: u64 = 0x380;
pub const REG_TIMER_CURRENT: u64 = 0x390;
pub const REG_TIMER_DIVIDE: u64 = 0x3e0;

pub const APIC_VERSION: u32 = 0x50014;
pub const SVR_SOFTWARE_ENABLE: u32 = 0x100;
pub const LVT_MASKED: u32 = 0x10000;

/// The persisted lAPIC state (the LAPC snapshot section).
#[derive(Clone, Copy, Debug, PartialEq, Eq)]
pub struct LapcSection {
    pub apic_base_msr: u64,
    pub id: u8,
    pub tpr: u8,
    pub ldr: u32,
    pub dfr: u32,
    pub svr: u32,
    pub isr: [u32; 8],
    pub tmr: [u32; 8],
    pub irr: [u32; 8],
    pub esr: u32,
    pub icr_low: u32,
    pub icr_high: u32,
    pub lvt_timer: u32,
    pub lvt_thermal: u32,
    pub lvt_perf: u32,
    pub lvt_lint0: u32,
    pub lvt_lint1: u32,
    pub lvt_error: u32,
    pub timer_initial: u32,
    pub timer_divide: u32,
}

/// The mathematical state of the local APIC.
pub struct LapicModel {
    pub apic_base_msr: u64,
    pub id: u8,
    pub tpr: u8,
    pub ldr: u32,
    pub dfr: u32,
    pub svr: u32,
    pub isr: Seq<u32>,
    pub tmr: Seq<u32>,
    pub irr: Seq<u32>,
    pub esr: u32,
    pub icr_low: u32,
    pub icr_high: u32,
    pub lvt_timer: u32,
    pub lvt_thermal: u32,
    pub lvt_perf: u32,
    pub lvt_lint0: u32,
    pub lvt_lint1: u32,
    pub lvt_error: u32,
    pub timer_initial: u32,
    pub timer_divide: u32,
}

impl View for LapcSection {
    type V = LapicModel;

    open spec fn view(&self) -> LapicModel {
        LapicModel {
            apic_base_msr: self.apic_base_msr,
            id: self.id,
            tpr: self.tpr,
            ldr: self.ldr,
            dfr: self.dfr,
            svr: self.svr,
            isr: self.isr@,
            tmr: self.tmr@,
            irr: self.irr@,
            esr: self.esr,
            icr_low: self.icr_low,
            icr_high: self.icr_high,
            lvt_timer: self.lvt_timer,
            lvt_thermal: self.lvt_thermal,
            lvt_perf: self.lvt_perf,
            lvt_lint0: self.lvt_lint0,
            lvt_lint1: self.lvt_lint1,
            lvt_error: self.lvt_error,
            timer_initial: self.timer_initial,
            timer_divide: self.timer_divide,
        }
    }
}

/// The xAPIC model.
#[derive(Clone, Debug, PartialEq, Eq)]
pub struct LocalApic {
    apic_base_msr: u64,
    id: u8,
    tpr: u8,
    ldr: u32,
    dfr: u32,
    svr: u32,
    isr: [u32; 8],
    tmr: [u32; 8],
    irr: [u32; 8],
    esr: u32,
    icr_low: u32,
    icr_high: u32,
    lvt_timer: u32,
    lvt_thermal: u32,
    lvt_perf: u32,
    lvt_lint0: u32,
    lvt_lint1: u32,
    lvt_error: u32,
    timer_initial: u32,
    timer_divide: u32,
}

impl View for LocalApic {
    type V = LapicModel;

    closed spec fn view(&self) -> LapicModel {
        LapicModel {
            apic_base_msr: self.apic_base_msr,
            id: self.id,
            tpr: self.tpr,
            ldr: self.ldr,
            dfr: self.dfr,
            svr: self.svr,
            isr: self.isr@,
            tmr: self.tmr@,
            irr: self.irr@,
            esr: self.esr,
            icr_low: self.icr_low,
            icr_high: self.icr_high,
            lvt_timer: self.lvt_timer,
            lvt_thermal: self.lvt_thermal,
            lvt_perf: self.lvt_perf,
            lvt_lint0: self.lvt_lint0,
            lvt_lint1: self.lvt_lint1,
            lvt_error: self.lvt_error,
            timer_initial: self.timer_initial,
            timer_divide: self.timer_divide,
        }
    }
}

#[derive(Clone, Copy, Debug, PartialEq, Eq)]
pub enum LapicError {
    BadAccess { offset: u64, len: usize },
    X2ApicUnsupported,
    UnsupportedApicBase { value: u64 },
    UnsupportedTimer { offset: u64, value: u32 },
    UnsupportedIcr { offset: u64, value: u32 },
    MalformedSnapshot(&'static str),
    InterruptsDisabled,
    BadVector { vector: u8 },
}

pub open spec fn zero_words() -> Seq<u32> {
    seq![0u32, 0, 0, 0, 0, 0, 0, 0]
}

/// The reset state.
pub open spec fn reset_model() -> LapicModel {
    LapicModel {
        apic_base_msr: RESET_APIC_BASE_MSR,
        id: 0,
        tpr: 0,
        ldr: 0,
        dfr: 0xffff_ffff,
        svr: 0xff,
        isr: zero_words(),
        tmr: zero_words(),
        irr: zero_words(),
        esr: 0,
        icr_low: 0,
        icr_high: 0,
        lvt_timer: LVT_MASKED,
        lvt_thermal: LVT_MASKED,
        lvt_perf: LVT_MASKED,
        lvt_lint0: LVT_MASKED,
        lvt_lint1: LVT_MASKED,
        lvt_error: LVT_MASKED,
        timer_initial: 0,
        timer_divide: 0,
    }
}

/// The first rule a persisted state breaks, if any: only xAPIC mode at
/// the fixed base with the BSP bit set, a masked and unarmed timer, and no
/// pending ICR delivery can be restored.
pub open spec fn spec_section_error(s: LapicModel) -> Option<&'static str> {
    if s.apic_base_msr & APIC_BASE_X2APIC != 0 {
        Some("x2APIC mode is not persisted")
    } else if s.apic_base_msr & APIC_BASE_ADDR_MASK != XAPIC_MMIO_BASE {
        Some("APIC base address is not xAPIC")
    } else if s.apic_base_msr & !(APIC_BASE_ADDR_MASK | APIC_BASE_BSP | APIC_BASE_ENABLE) != 0 {
        Some("APIC base has unsupported bits")
    } else if s.apic_base_msr & APIC_BASE_BSP == 0 {
        Some("BSP bit must remain set")
    } else if s.lvt_timer & LVT_MASKED == 0 {
        Some("unmasked lAPIC timer")
    } else if s.timer_initial != 0 {
        Some("armed lAPIC timer")
    } else if s.icr_low != 0 || s.icr_high != 0 {
        Some("pending ICR delivery")
    } else {
        None
    }
}

/// A state the model can reach and restore.
pub open spec fn valid_state(s: LapicModel) -> bool {
    &&& spec_section_error(s) is None
    &&& s.isr.len() == 8
    &&& s.tmr.len() == 8
    &&& s.irr.len() == 8
}

pub open spec fn vector_bit(v: int) -> u32 {
    1u32 << ((v % 32) as u32)
}

pub open spec fn vec_is_set(w: Seq<u32>, v: int) -> bool {
    w[v / 32] & vector_bit(v) != 0
}

pub open spec fn with_vector(w: Seq<u32>, v: int) -> Seq<u32> {
    w.update(v / 32, w[v / 32] | vector_bit(v))
}

pub open spec fn without_vector(w: Seq<u32>, v: int) -> Seq<u32> {
    w.update(v / 32, w[v / 32] & !vector_bit(v))
}

/// The highest set vector from `v` down to 32.
pub open spec fn highest_set(w: Seq<u32>, v: int) -> Option<int>
    decreases v,
{
    if v < 32 {
        None
    } else if vec_is_set(w, v) {
        Some(v)
    } else {
        highest_set(w, v - 1)
    }
}

/// The highest vector from `v` down to 32 that is requested and whose
/// priority class is above `min_priority`.
pub open spec fn highest_pending(w: Seq<u32>, v: int, min_priority: u8) -> Option<int>
    decreases v,
{
    if v < 32 {
        None
    } else if (v as u8) & 0xf0u8 > min_priority && vec_is_set(w, v) {
        Some(v)
    } else {
        highest_pending(w, v - 1, min_priority)
    }
}

/// End of interrupt: the highest in-service vector retires.
pub open spec fn spec_eoi(s: LapicModel) -> LapicModel {
    match highest_set(s.isr, 255) {
        Some(v) => LapicModel { isr: without_vector(s.isr, v), ..s },
        None => s,
    }
}

/// A 32-bit register read at a 16-byte-aligned offset.
pub open spec fn spec_read_reg(s: LapicModel, off: u64) -> u32 {
    if off == REG_ID {
        (s.id as u32) << 24u32
    } else if off == REG_VERSION {
        APIC_VERSION
    } else if off == REG_TPR {
        s.tpr as u32
    } else if off == REG_APR || off == REG_PPR {
        0
    } else if off == REG_LDR {
        s.ldr
    } else if off == REG_DFR {
        s.dfr
    } else if off == REG_SVR {
        s.svr
    } else if REG_ISR_BASE <= off <= REG_ISR_END {
        s.isr[(off - REG_ISR_BASE) / 16]
    } else if REG_TMR_BASE <= off <= REG_TMR_END {
        s.tmr[(off - REG_TMR_BASE) / 16]
    } else if REG_IRR_BASE <= off <= REG_IRR_END {
        s.irr[(off - REG_IRR_BASE) / 16]
    } else if off == REG_ESR {
        s.esr
    } else if off == REG_ICR_LOW {
        s.icr_low
    } else if off == REG_ICR_HIGH {
        s.icr_high
    } else if off == REG_LVT_TIMER {
        s.lvt_timer
    } else if off == REG_LVT_THERMAL {
        s.lvt_thermal
    } else if off == REG_LVT_PERF {
        s.lvt_perf
    } else if off == REG_LVT_LINT0 {
        s.lvt_lint0
    } else if off == REG_LVT_LINT1 {
        s.lvt_lint1
    } else if off == REG_LVT_ERROR {
        s.lvt_error
    } else if off == REG_TIMER_DIVIDE {
        s.timer_divide
    } else {
        0
    }
}

/// A 32-bit register write at a 16-byte-aligned offset.
pub open spec fn spec_write_reg(s: LapicModel, off: u64, value: u32) -> Result<
    LapicModel,
    LapicError,
> {
    if off == REG_ID || off == REG_VERSION || off == REG_APR || off == REG_PPR || off
        == REG_TIMER_CURRENT {
        Ok(s)
    } else if off == REG_TPR {
        Ok(LapicModel { tpr: (value & 0xff) as u8, ..s })
    } else if off == REG_EOI {
        Ok(spec_eoi(s))
    } else if off == REG_LDR {
        Ok(LapicModel { ldr: value, ..s })
    } else if off == REG_DFR {
        Ok(LapicModel { dfr: value, ..s })
    } else if off == REG_SVR {
        Ok(LapicModel { svr: value, ..s })
    } else if off == REG_ESR {
        Ok(LapicModel { esr: 0, ..s })
    } else if off == REG_ICR_LOW || off == REG_ICR_HIGH {
        if value != 0 {
            Err(LapicError::UnsupportedIcr { offset: off, value })
        } else if off == REG_ICR_LOW {
            Ok(LapicModel { icr_low: 0, ..s })
        } else {
            Ok(LapicModel { icr_high: 0, ..s })
        }
    } else if off == REG_LVT_TIMER {
        if value & LVT_MASKED == 0 {
            Err(LapicError::UnsupportedTimer { offset: off, value })
        } else {
            Ok(LapicModel { lvt_timer: value, ..s })
        }
    } else if off == REG_LVT_THERMAL {
        Ok(LapicModel { lvt_thermal: value, ..s })
    } else if off == REG_LVT_PERF {
        Ok(LapicModel { lvt_perf: value, ..s })
    } else if off == REG_LVT_LINT0 {
        Ok(LapicModel { lvt_lint0: value, ..s })
    } else if off == REG_LVT_LINT1 {
        Ok(LapicModel { lvt_lint1: value, ..s })
    } else if off == REG_LVT_ERROR {
        Ok(LapicModel { lvt_error: value, ..s })
    } else if off == REG_TIMER_INITIAL {
        if value != 0 {
            Err(LapicError::UnsupportedTimer { offset: off, value })
        } else {
            Ok(LapicModel { timer_initial: 0, ..s })
        }
    } else if off == REG_TIMER_DIVIDE {
        Ok(LapicModel { timer_divide: value, ..s })
    } else {
        Ok(s)
    }
}

/// The register offset of a guest access, or why it is refused: only
/// 4- and 8-byte accesses, naturally aligned, inside the xAPIC page.
pub open spec fn spec_mmio_offset(gpa: u64, len: usize) -> Result<u64, LapicError> {
    if !(len == 4 || len == 8) || !(XAPIC_MMIO_BASE <= gpa < XAPIC_MMIO_BASE + XAPIC_MMIO_LEN) {
        Err(
            LapicError::BadAccess {
                offset: if gpa >= XAPIC_MMIO_BASE {
                    (gpa - XAPIC_MMIO_BASE) as u64
                } else {
                    0
                },
                len,
            },
        )
    } else if (gpa - XAPIC_MMIO_BASE) % (len as int) != 0 || (gpa - XAPIC_MMIO_BASE) + len
        > XAPIC_MMIO_LEN {
        Err(LapicError::BadAccess { offset: (gpa - XAPIC_MMIO_BASE) as u64, len })
    } else {
        Ok((gpa - XAPIC_MMIO_BASE) as u64)
    }
}

/// An IA32_APIC_BASE write: only xAPIC mode at the fixed base; the BSP bit
/// stays set and only the enable bit follows the guest.
pub open spec fn spec_write_apic_base(s: LapicModel, value: u64) -> Result<LapicModel, LapicError> {
    if value & APIC_BASE_X2APIC != 0 {
        Err(LapicError::X2ApicUnsupported)
    } else if value & APIC_BASE_ADDR_MASK != XAPIC_MMIO_BASE {
        Err(LapicError::UnsupportedApicBase { value })
    } else {
        Ok(
            LapicModel {
                apic_base_msr: (value & APIC_BASE_ADDR_MASK) | APIC_BASE_BSP | (value
                    & APIC_BASE_ENABLE),
                ..s
            },
        )
    }
}

pub open spec fn is_x2apic_msr(index: u32) -> bool {
    MSR_X2APIC_BASE <= index <= MSR_X2APIC_END
}

/// The bytes a register read hands the guest: the value, then zeros.
pub open spec fn read_image(value: u32, len: int) -> Seq<u8> {
    le32(value) + Seq::new((len - 4) as nat, |i: int| 0u8)
}

fn vector_word(vector: u8) -> (r: (usize, u32))
    ensures
        r.0 == vector as int / 32,
        r.1 == vector_bit(vector as int),
        r.0 < 8,
    no_unwind
{
    let word = (vector / 32) as usize;
    let bit = (vector % 32) as u32;
    (word, 1u32 << bit)
}

fn set_vector(words: &mut [u32; 8], vector: u8)
    ensures
        final(words)@ == with_vector(old(words)@, vector as int),
    no_unwind
{
    let (word, bit) = vector_word(vector);
    words[word] = words[word] | bit;
}

fn clear_vector(words: &mut [u32; 8], vector: u8)
    ensures
        final(words)@ == without_vector(old(words)@, vector as int),
    no_unwind
{
    let (word, bit) = vector_word(vector);
    words[word] = words[word] & !bit;
}

fn vector_is_set(words: &[u32; 8], vector: u8) -> (r: bool)
    ensures
        r == vec_is_set(words@, vector as int),
{
    let (word, bit) = vector_word(vector);
    words[word] & bit != 0
}

fn words_zero(words: &[u32; 8]) -> (r: bool)
    ensures
        r == (words@ == zero_words()),
{
    let r = words[0] == 0 && words[1] == 0 && words[2] == 0 && words[3] == 0 && words[4] == 0
        && words[5] == 0 && words[6] == 0 && words[7] == 0;
    proof {
        if r {
            assert(words@ =~= zero_words());
        }
    }
    r
}

fn checked_mmio_offset(gpa: u64, len: usize) -> (r: Result<u64, LapicError>)
    ensures
        r == spec_mmio_offset(gpa, len),
{
    if !(len == 4 || len == 8) || !LocalApic::contains_mmio(gpa) {
        let offset = if gpa >= XAPIC_MMIO_BASE {
            gpa - XAPIC_MMIO_BASE
        } else {
            0
        };
        return Err(LapicError::BadAccess { offset, len });
    }
    let off = gpa - XAPIC_MMIO_BASE;
    if off % (len as u64) != 0 || off + len as u64 > XAPIC_MMIO_LEN {
        return Err(LapicError::BadAccess { offset: off, len });
    }
    Ok(off)
}

fn read_le32(data: &[u8]) -> (r: u32)
    requires
        data@.len() >= 4,
    ensures
        r == u32_at(data@, 0),
{
    crate::codec::read_le32(data, 0)
}

fn write_le(data: &mut [u8], value: u32)
    requires
        old(data)@.len() >= 4,
    ensures
        final(data)@ == read_image(value, old(data)@.len() as int),
{
    let n = data.len();
    let mut i: usize = 0;
    while i < n
        invariant
            n == data@.len(),
            i <= n,
            forall|t: int| 0 <= t < i ==> #[trigger] data@[t] == 0,
        decreases n - i,
    {
        data[i] = 0;
        i = i + 1;
    }
    data[0] = value as u8;
    data[1] = (value >> 8u32) as u8;
    data[2] = (value >> 16u32) as u8;
    data[3] = (value >> 24u32) as u8;
    assert(data@ =~= read_image(value, n as int));
}

impl LocalApic {
    /// The reset state.
    pub fn new() -> (r: Self)
        ensures
            r@ == reset_model(),
            valid_state(r@),
    {
        let r = LocalApic {
            apic_base_msr: RESET_APIC_BASE_MSR,
            id: 0,
            tpr: 0,
            ldr: 0,
            dfr: 0xffff_ffff,
            svr: 0xff,
            isr: [0u32; 8],
            tmr: [0u32; 8],
            irr: [0u32; 8],
            esr: 0,
            icr_low: 0,
            icr_high: 0,
            lvt_timer: LVT_MASKED,
            lvt_thermal: LVT_MASKED,
            lvt_perf: LVT_MASKED,
            lvt_lint0: LVT_MASKED,
            lvt_lint1: LVT_MASKED,
            lvt_error: LVT_MASKED,
            timer_initial: 0,
            timer_divide: 0,
        };
        assert(r.isr@ =~= zero_words());
        assert(r.tmr@ =~= zero_words());
        assert(r.irr@ =~= zero_words());
        assert(RESET_APIC_BASE_MSR & APIC_BASE_X2APIC == 0) by (bit_vector);
        assert(RESET_APIC_BASE_MSR & APIC_BASE_ADDR_MASK == XAPIC_MMIO_BASE) by (bit_vector);
        assert(RESET_APIC_BASE_MSR & !(APIC_BASE_ADDR_MASK | APIC_BASE_BSP | APIC_BASE_ENABLE) == 0)
            by (bit_vector);
        assert(RESET_APIC_BASE_MSR & APIC_BASE_BSP != 0) by (bit_vector);
        assert(LVT_MASKED & LVT_MASKED != 0) by (bit_vector);
        r
    }

    /// The MSRs the model owns: IA32_APIC_BASE and the x2APIC range.
    pub fn is_lapic_msr(index: u32) -> (r: bool)
        ensures
            r == (index == MSR_IA32_APIC_BASE || is_x2apic_msr(index)),
    {
        index == MSR_IA32_APIC_BASE || (MSR_X2APIC_BASE <= index && index <= MSR_X2APIC_END)
    }

    /// The guest-physical page of the xAPIC registers.
    pub fn contains_mmio(gpa: u64) -> (r: bool)
        ensures
            r == (XAPIC_MMIO_BASE <= gpa < XAPIC_MMIO_BASE + XAPIC_MMIO_LEN),
    {
        XAPIC_MMIO_BASE <= gpa && gpa < XAPIC_MMIO_BASE + XAPIC_MMIO_LEN
    }

    pub fn read_msr(&self, index: u32) -> (r: Result<u64, LapicError>)
        ensures
            index == MSR_IA32_APIC_BASE ==> r == Ok::<u64, LapicError>(self@.apic_base_msr),
            is_x2apic_msr(index) ==> r == Err::<u64, LapicError>(LapicError::X2ApicUnsupported),
            index != MSR_IA32_APIC_BASE && !is_x2apic_msr(index) ==> r == Err::<u64, LapicError>(
                LapicError::BadAccess { offset: index as u64, len: 8 },
            ),
    {
        if index == MSR_IA32_APIC_BASE {
            Ok(self.apic_base_msr)
        } else if MSR_X2APIC_BASE <= index && index <= MSR_X2APIC_END {
            Err(LapicError::X2ApicUnsupported)
        } else {
            Err(LapicError::BadAccess { offset: index as u64, len: 8 })
        }
    }

    pub fn write_msr(&mut self, index: u32, value: u64) -> (r: Result<(), LapicError>)
        ensures
            valid_state(old(self)@) ==> valid_state(final(self)@),
            index == MSR_IA32_APIC_BASE ==> match spec_write_apic_base(old(self)@, value) {
                Ok(t) => r == Ok::<(), LapicError>(()) && final(self)@ == t,
                Err(e) => r == Err::<(), LapicError>(e) && final(self)@ == old(self)@,
            },
            is_x2apic_msr(index) ==> r == Err::<(), LapicError>(LapicError::X2ApicUnsupported)
                && final(self)@ == old(self)@,
            index != MSR_IA32_APIC_BASE && !is_x2apic_msr(index) ==> r == Err::<(), LapicError>(
                LapicError::BadAccess { offset: index as u64, len: 8 },
            ) && final(self)@ == old(self)@,
    {
        if index == MSR_IA32_APIC_BASE {
            self.write_apic_base_msr(value)
        } else if MSR_X2APIC_BASE <= index && index <= MSR_X2APIC_END {
            Err(LapicError::X2ApicUnsupported)
        } else {
            Err(LapicError::BadAccess { offset: index as u64, len: 8 })
        }
    }

    /// A guest read of `data.len()` bytes at `gpa`; unaligned register
    /// offsets read as zero.
    pub fn read_mmio(&self, gpa: u64, data: &mut [u8]) -> (r: Result<(), LapicError>)
        ensures
            match spec_mmio_offset(gpa, old(data)@.len() as usize) {
                Err(e) => r == Err::<(), LapicError>(e) && final(data)@ == old(data)@,
                Ok(off) => r == Ok::<(), LapicError>(()) && final(data)@ == read_image(
                    if off % 16 == 0 {
                        spec_read_reg(self@, off)
                    } else {
                        0
                    },
                    old(data)@.len() as int,
                ),
            },
    {
        let off = match checked_mmio_offset(gpa, data.len()) {
            Ok(o) => o,
            Err(e) => return Err(e),
        };
        let value = if off % 16 == 0 {
            self.read_reg32(off)
        } else {
            0
        };
        write_le(data, value);
        Ok(())
    }

    /// A guest write of `data` at `gpa`; unaligned register offsets are
    /// ignored.
    pub fn write_mmio(&mut self, gpa: u64, data: &[u8]) -> (r: Result<(), LapicError>)
        ensures
            valid_state(old(self)@) ==> valid_state(final(self)@),
            match spec_mmio_offset(gpa, data@.len() as usize) {
                Err(e) => r == Err::<(), LapicError>(e) && final(self)@ == old(self)@,
                Ok(off) => if off % 16 != 0 {
                    r == Ok::<(), LapicError>(()) && final(self)@ == old(self)@
                } else {
                    match spec_write_reg(old(self)@, off, u32_at(data@, 0)) {
                        Ok(t) => r == Ok::<(), LapicError>(()) && final(self)@ == t,
                        Err(e) => r == Err::<(), LapicError>(e) && final(self)@ == old(self)@,
                    }
                },
            },
    {
        let off = match checked_mmio_offset(gpa, data.len()) {
            Ok(o) => o,
            Err(e) => return Err(e),
        };
        if off % 16 != 0 {
            return Ok(());
        }
        let v = read_le32(data);
        self.write_reg32(off, v)
    }

    /// Request `vector`: refused below 32 and while the APIC is disabled.
    pub fn accept_interrupt(&mut self, vector: u8) -> (r: Result<(), LapicError>)
        ensures
            valid_state(old(self)@) ==> valid_state(final(self)@),
            vector < 32 ==> r == Err::<(), LapicError>(LapicError::BadVector { vector })
                && final(self)@ == old(self)@,
            vector >= 32 && (old(self)@.apic_base_msr & APIC_BASE_ENABLE == 0 || old(self)@.svr
                & SVR_SOFTWARE_ENABLE == 0) ==> r == Err::<(), LapicError>(
                LapicError::InterruptsDisabled,
            ) && final(self)@ == old(self)@,
            vector >= 32 && old(self)@.apic_base_msr & APIC_BASE_ENABLE != 0 && old(self)@.svr
                & SVR_SOFTWARE_ENABLE != 0 ==> r == Ok::<(), LapicError>(()) && final(self)@
                == (LapicModel { irr: with_vector(old(self)@.irr, vector as int), ..old(self)@ }),
    {
        if vector < 32 {
            return Err(LapicError::BadVector { vector });
        }
        if self.apic_base_msr & APIC_BASE_ENABLE == 0 || self.svr & SVR_SOFTWARE_ENABLE == 0 {
            return Err(LapicError::InterruptsDisabled);
        }
        set_vector(&mut self.irr, vector);
        Ok(())
    }

    /// Whether the state is the reset state.
    pub fn is_reset(&self) -> (r: bool)
        ensures
            r == (self@ == reset_model()),
    {
        let r = self.apic_base_msr == RESET_APIC_BASE_MSR && self.id == 0 && self.tpr == 0
            && self.ldr == 0 && self.dfr == 0xffff_ffff && self.svr == 0xff && words_zero(&self.isr)
            && words_zero(&self.tmr) && words_zero(&self.irr) && self.esr == 0 && self.icr_low == 0
            && self.icr_high == 0 && self.lvt_timer == LVT_MASKED && self.lvt_thermal == LVT_MASKED
            && self.lvt_perf == LVT_MASKED && self.lvt_lint0 == LVT_MASKED && self.lvt_lint1
            == LVT_MASKED && self.lvt_error == LVT_MASKED && self.timer_initial == 0
            && self.timer_divide == 0;
        r
    }

    /// The state as a snapshot section.
    pub fn to_lapc_section(&self) -> (r: LapcSection)
        ensures
            r@ == self@,
    {
        LapcSection {
            apic_base_msr: self.apic_base_msr,
            id: self.id,
            tpr: self.tpr,
            ldr: self.ldr,
            dfr: self.dfr,
            svr: self.svr,
            isr: self.isr,
            tmr: self.tmr,
            irr: self.irr,
            esr: self.esr,
            icr_low: self.icr_low,
            icr_high: self.icr_high,
            lvt_timer: self.lvt_timer,
            lvt_thermal: self.lvt_thermal,
            lvt_perf: self.lvt_perf,
            lvt_lint0: self.lvt_lint0,
            lvt_lint1: self.lvt_lint1,
            lvt_error: self.lvt_error,
            timer_initial: self.timer_initial,
            timer_divide: self.timer_divide,
        }
    }

    /// Restore a snapshot section; any state the model could not have
    /// reached is refused.
    pub fn from_lapc_section(section: LapcSection) -> (r: Result<Self, LapicError>)
        ensures
            match spec_section_error(section@) {
                Some(msg) => r == Err::<LocalApic, LapicError>(LapicError::MalformedSnapshot(msg)),
                None => r matches Ok(a) && a@ == section@,
            },
    {
        let apic_base = section.apic_base_msr;
        if apic_base & APIC_BASE_X2APIC != 0 {
            return Err(LapicError::MalformedSnapshot("x2APIC mode is not persisted"));
        }
        if apic_base & APIC_BASE_ADDR_MASK != XAPIC_MMIO_BASE {
            return Err(LapicError::MalformedSnapshot("APIC base address is not xAPIC"));
        }
        if apic_base & !(APIC_BASE_ADDR_MASK | APIC_BASE_BSP | APIC_BASE_ENABLE) != 0 {
            return Err(LapicError::MalformedSnapshot("APIC base has unsupported bits"));
        }
        if apic_base & APIC_BASE_BSP == 0 {
            return Err(LapicError::MalformedSnapshot("BSP bit must remain set"));
        }
        if section.lvt_timer & LVT_MASKED == 0 {
            return Err(LapicError::MalformedSnapshot("unmasked lAPIC timer"));
        }
        if section.timer_initial != 0 {
            return Err(LapicError::MalformedSnapshot("armed lAPIC timer"));
        }
        if section.icr_low != 0 || section.icr_high != 0 {
            return Err(LapicError::MalformedSnapshot("pending ICR delivery"));
        }
        Ok(
            LocalApic {
                apic_base_msr: section.apic_base_msr,
                id: section.id,
                tpr: section.tpr,
                ldr: section.ldr,
                dfr: section.dfr,
                svr: section.svr,
                isr: section.isr,
                tmr: section.tmr,
                irr: section.irr,
                esr: section.esr,
                icr_low: section.icr_low,
                icr_high: section.icr_high,
                lvt_timer: section.lvt_timer,
                lvt_thermal: section.lvt_thermal,
                lvt_perf: section.lvt_perf,
                lvt_lint0: section.lvt_lint0,
                lvt_lint1: section.lvt_lint1,
                lvt_error: section.lvt_error,
                timer_initial: section.timer_initial,
                timer_divide: section.timer_divide,
            },
        )
    }

    /// Deliver the highest requested vector whose priority class is above
    /// the task priority: it moves from requested to in service.
    pub fn next_pending_interrupt(&mut self) -> (r: Option<u8>)
        ensures
            valid_state(old(self)@) ==> valid_state(final(self)@),
            match highest_pending(old(self)@.irr, 255, old(self)@.tpr & 0xf0u8) {
                Some(v) => r == Some(v as u8) && final(self)@ == (LapicModel {
                    irr: without_vector(old(self)@.irr, v),
                    isr: with_vector(old(self)@.isr, v),
                    ..old(self)@
                }),
                None => r is None && final(self)@ == old(self)@,
            },
    {
        let min_priority = self.tpr & 0xf0u8;
        let mut v: u32 = 255;
        while v >= 32
            invariant
                v <= 255,
                highest_pending(self.irr@, 255, min_priority) == highest_pending(
                    self.irr@,
                    v as int,
                    min_priority,
                ),
                self@ == old(self)@,
                min_priority == old(self)@.tpr & 0xf0u8,
            decreases v,
        {
            let vector = v as u8;
            if vector & 0xf0u8 > min_priority && vector_is_set(&self.irr, vector) {
                clear_vector(&mut self.irr, vector);
                set_vector(&mut self.isr, vector);
                return Some(vector);
            }
            v = v - 1;
        }
        None
    }

    /// End of interrupt: retire the highest in-service vector.
    pub fn eoi(&mut self)
        ensures
            valid_state(old(self)@) ==> valid_state(final(self)@),
            final(self)@ == spec_eoi(old(self)@),
    {
        let mut v: u32 = 255;
        while v >= 32
            invariant
                v <= 255,
                highest_set(self.isr@, 255) == highest_set(self.isr@, v as int),
                self@ == old(self)@,
            decreases v,
        {
            let vector = v as u8;
            if vector_is_set(&self.isr, vector) {
                clear_vector(&mut self.isr, vector);
                return;
            }
            v = v - 1;
        }
    }

    fn write_apic_base_msr(&mut self, value: u64) -> (r: Result<(), LapicError>)
        ensures
            valid_state(old(self)@) ==> valid_state(final(self)@),
            match spec_write_apic_base(old(self)@, value) {
                Ok(t) => r == Ok::<(), LapicError>(()) && final(self)@ == t,
                Err(e) => r == Err::<(), LapicError>(e) && final(self)@ == old(self)@,
            },
    {
        if value & APIC_BASE_X2APIC != 0 {
            return Err(LapicError::X2ApicUnsupported);
        }
        let base = value & APIC_BASE_ADDR_MASK;
        if base != XAPIC_MMIO_BASE {
            return Err(LapicError::UnsupportedApicBase { value });
        }
        let nv = base | APIC_BASE_BSP | (value & APIC_BASE_ENABLE);
        assert(nv & APIC_BASE_X2APIC == 0 && nv & APIC_BASE_ADDR_MASK == XAPIC_MMIO_BASE && nv & !(
        APIC_BASE_ADDR_MASK | APIC_BASE_BSP | APIC_BASE_ENABLE) == 0 && nv & APIC_BASE_BSP != 0)
            by (bit_vector)
            requires
                nv == base | APIC_BASE_BSP | (value & APIC_BASE_ENABLE),
                base == XAPIC_MMIO_BASE,
        ;
        self.apic_base_msr = nv;
        Ok(())
    }

    fn read_reg32(&self, off: u64) -> (r: u32)
        ensures
            r == spec_read_reg(self@, off),
    {
        if off == REG_ID {
            (self.id as u32) << 24u32
        } else if off == REG_VERSION {
            APIC_VERSION
        } else if off == REG_TPR {
            self.tpr as u32
        } else if off == REG_APR || off == REG_PPR {
            0
        } else if off == REG_LDR {
            self.ldr
        } else if off == REG_DFR {
            self.dfr
        } else if off == REG_SVR {
            self.svr
        } else if REG_ISR_BASE <= off && off <= REG_ISR_END {
            self.isr[((off - REG_ISR_BASE) / 16) as usize]
        } else if REG_TMR_BASE <= off && off <= REG_TMR_END {
            self.tmr[((off - REG_TMR_BASE) / 16) as usize]
        } else if REG_IRR_BASE <= off && off <= REG_IRR_END {
            self.irr[((off - REG_IRR_BASE) / 16) as usize]
        } else if off == REG_ESR {
            self.esr
        } else if off == REG_ICR_LOW {
            self.icr_low
        } else if off == REG_ICR_HIGH {
            self.icr_high
        } else if off == REG_LVT_TIMER {
            self.lvt_timer
        } else if off == REG_LVT_THERMAL {
            self.lvt_thermal
        } else if off == REG_LVT_PERF {
            self.lvt_perf
        } else if off == REG_LVT_LINT0 {
            self.lvt_lint0
        } else if off == REG_LVT_LINT1 {
            self.lvt_lint1
        } else if off == REG_LVT_ERROR {
            self.lvt_error
        } else if off == REG_TIMER_DIVIDE {
            self.timer_divide
        } else {
            0
        }
    }

    fn write_reg32(&mut self, off: u64, value: u32) -> (r: Result<(), LapicError>)
        ensures
            valid_state(old(self)@) ==> valid_state(final(self)@),
            match spec_write_reg(old(self)@, off, value) {
                Ok(t) => r == Ok::<(), LapicError>(()) && final(self)@ == t,
                Err(e) => r == Err::<(), LapicError>(e) && final(self)@ == old(self)@,
            },
    {
        if off == REG_ID || off == REG_VERSION || off == REG_APR || off == REG_PPR || off
            == REG_TIMER_CURRENT {
        } else if off == REG_TPR {
            self.tpr = (value & 0xff) as u8;
        } else if off == REG_EOI {
            self.eoi();
        } else if off == REG_LDR {
            self.ldr = value;
        } else if off == REG_DFR {
            self.dfr = value;
        } else if off == REG_SVR {
            self.svr = value;
        } else if off == REG_ESR {
            self.esr = 0;
        } else if off == REG_ICR_LOW || off == REG_ICR_HIGH {
            if value != 0 {
                return Err(LapicError::UnsupportedIcr { offset: off, value });
            }
            if off == REG_ICR_LOW {
                self.icr_low = 0;
            } else {
                self.icr_high = 0;
            }
        } else if off == REG_LVT_TIMER {
            if value & LVT_MASKED == 0 {
                return Err(LapicError::UnsupportedTimer { offset: off, value });
            }
            self.lvt_timer = value;
        } else if off == REG_LVT_THERMAL {
            self.lvt_thermal = value;
        } else if off == REG_LVT_PERF {
            self.lvt_perf = value;
        } else if off == REG_LVT_LINT0 {
            self.lvt_lint0 = value;
        } else if off == REG_LVT_LINT1 {
            self.lvt_lint1 = value;
        } else if off == REG_LVT_ERROR {
            self.lvt_error = value;
        } else if off == REG_TIMER_INITIAL {
            if value != 0 {
                return Err(LapicError::UnsupportedTimer { offset: off, value });
            }
            self.timer_initial = 0;
        } else if off == REG_TIMER_DIVIDE {
            self.timer_divide = value;
        }
        Ok(())
    }
}

impl Default for LocalApic {
    fn default() -> (r: Self)
        ensures
            r@ == reset_model(),
    {
        LocalApic::new()
    }
}


/// Every state the model reaches can be persisted and restored: a valid
/// state passes every restore check, so restoring its section gives it
/// back.
pub proof fn lemma_section_roundtrip(s: LapicModel)
    requires
        valid_state(s),
    ensures
        spec_section_error(s) is None,
{
}

/// The reset state is valid, and so is every state reached from it (each
/// mutating method keeps `valid_state`).
pub proof fn lemma_reset_is_valid()
    ensures
        valid_state(reset_model()),
{
    assert(RESET_APIC_BASE_MSR & APIC_BASE_X2APIC == 0) by (bit_vector);
    assert(RESET_APIC_BASE_MSR & APIC_BASE_ADDR_MASK == XAPIC_MMIO_BASE) by (bit_vector);
    assert(RESET_APIC_BASE_MSR & !(APIC_BASE_ADDR_MASK | APIC_BASE_BSP | APIC_BASE_ENABLE) == 0)
        by (bit_vector);
    assert(RESET_APIC_BASE_MSR & APIC_BASE_BSP != 0) by (bit_vector);
    assert(LVT_MASKED & LVT_MASKED != 0) by (bit_vector);
}

/// A register write is seen by the next read of that register: plain
/// registers read back the value written, the task priority its low byte,
/// and the error status reads zero after any write.
pub proof fn lemma_read_after_write(s: LapicModel, off: u64, value: u32)
    requires
        off == REG_TPR || off == REG_LDR || off == REG_DFR || off == REG_SVR || off == REG_ESR
            || off == REG_LVT_THERMAL || off == REG_LVT_PERF || off == REG_LVT_LINT0 || off
            == REG_LVT_LINT1 || off == REG_LVT_ERROR || off == REG_TIMER_DIVIDE || (off
            == REG_LVT_TIMER && value & LVT_MASKED != 0),
    ensures
        spec_write_reg(s, off, value) is Ok,
        off == REG_TPR ==> spec_read_reg(spec_write_reg(s, off, value)->Ok_0, off) == value & 0xff,
        off == REG_ESR ==> spec_read_reg(spec_write_reg(s, off, value)->Ok_0, off) == 0,
        off != REG_TPR && off != REG_ESR ==> spec_read_reg(spec_write_reg(s, off, value)->Ok_0, off)
            == value,
{
    if off == REG_TPR {
        assert(((value & 0xff) as u8) as u32 == value & 0xff) by (bit_vector);
    }
}

proof fn lemma_highest_pending_bounds(w: Seq<u32>, v: int, mp: u8)
    ensures
        match highest_pending(w, v, mp) {
            Some(x) => {
                &&& 32 <= x <= v
                &&& (x as u8) & 0xf0u8 > mp
                &&& vec_is_set(w, x)
                &&& forall|y: int| x < y <= v && vec_is_set(w, y) ==> (y as u8) & 0xf0u8 <= mp
            },
            None => forall|y: int| 32 <= y <= v && vec_is_set(w, y) ==> (y as u8) & 0xf0u8 <= mp,
        },
    decreases v,
{
    if v >= 32 {
        lemma_highest_pending_bounds(w, v - 1, mp);
    }
}

/// Delivery respects the task priority: a delivered vector is requested
/// and its priority class (high nibble) is above the TPR's class, and no
/// higher requested vector was eligible; when nothing is delivered, every
/// requested vector's class is at or below the TPR's class.
pub proof fn lemma_delivery_respects_task_priority(s: LapicModel)
    ensures
        match highest_pending(s.irr, 255, s.tpr & 0xf0u8) {
            Some(x) => {
                &&& 32 <= x <= 255
                &&& (x as u8) & 0xf0u8 > s.tpr & 0xf0u8
                &&& vec_is_set(s.irr, x)
                &&& forall|y: int|
                    x < y <= 255 && vec_is_set(s.irr, y) ==> (y as u8) & 0xf0u8 <= s.tpr & 0xf0u8
            },
            None => forall|y: int|
                32 <= y <= 255 && vec_is_set(s.irr, y) ==> (y as u8) & 0xf0u8 <= s.tpr & 0xf0u8,
        },
{
    lemma_highest_pending_bounds(s.irr, 255, s.tpr & 0xf0u8);
}

/// Setting a vector requests it and nothing else; clearing it removes it
/// and nothing else.
pub proof fn lemma_vector_set_update(w: Seq<u32>, v: int, y: int)
    requires
        w.len() == 8,
        0 <= v < 256,
        0 <= y < 256,
    ensures
        vec_is_set(with_vector(w, v), y) == (y == v || vec_is_set(w, y)),
        vec_is_set(without_vector(w, v), y) == (y != v && vec_is_set(w, y)),
{
    let a = (v % 32) as u32;
    let b = (y % 32) as u32;
    if v / 32 == y / 32 {
        let x = w[v / 32];
        assert((x | (1u32 << a)) & (1u32 << b) != 0 <==> (a == b || x & (1u32 << b) != 0))
            by (bit_vector)
            requires
                a < 32,
                b < 32,
        ;
        assert((x & !(1u32 << a)) & (1u32 << b) != 0 <==> (a != b && x & (1u32 << b) != 0))
            by (bit_vector)
            requires
                a < 32,
                b < 32,
        ;
        assert(v == y <==> a == b);
    }
}

proof fn lemma_highest_set_bounds(w: Seq<u32>, v: int)
    ensures
        match highest_set(w, v) {
            Some(x) => 32 <= x <= v && vec_is_set(w, x) && forall|y: int|
                x < y <= v ==> !vec_is_set(w, y),
            None => forall|y: int| 32 <= y <= v ==> !vec_is_set(w, y),
        },
    decreases v,
{
    if v >= 32 {
        lemma_highest_set_bounds(w, v - 1);
    }
}

/// End of interrupt retires exactly the highest in-service vector: it
/// leaves service and every other in-service vector stays; with nothing
/// in service the state is unchanged.
pub proof fn lemma_eoi_retires_highest(s: LapicModel)
    requires
        s.isr.len() == 8,
    ensures
        match highest_set(s.isr, 255) {
            Some(x) => {
                &&& 32 <= x <= 255
                &&& vec_is_set(s.isr, x)
                &&& forall|y: int| x < y < 256 ==> !vec_is_set(s.isr, y)
                &&& forall|y: int|
                    0 <= y < 256 ==> vec_is_set(spec_eoi(s).isr, y) == (y != x && vec_is_set(
                        s.isr,
                        y,
                    ))
                &&& spec_eoi(s) == (LapicModel { isr: spec_eoi(s).isr, ..s })
            },
            None => spec_eoi(s) == s && forall|y: int| 32 <= y < 256 ==> !vec_is_set(s.isr, y),
        },
{
    lemma_highest_set_bounds(s.isr, 255);
    match highest_set(s.isr, 255) {
        Some(x) => {
            assert forall|y: int| 0 <= y < 256 implies vec_is_set(spec_eoi(s).isr, y) == (y != x
                && vec_is_set(s.isr, y)) by {
                lemma_vector_set_update(s.isr, x, y);
            }
        },
        None => {},
    }
}

} // verus!
