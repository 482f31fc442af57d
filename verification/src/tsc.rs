//! Guest-TSC alignment: the hardware TSC offset that makes the guest read a
//! chosen value (guest_tsc = host_tsc + offset, modulo 2^64).

use vstd::prelude::*;

verus! {

/// The offset, as the signed 64-bit value the TSC-offset attribute carries,
/// that turns host TSC `host_tsc` into guest TSC `value`: the two's
/// complement reading of `value - host_tsc` modulo 2^64.
pub open spec fn spec_tsc_offset(value: u64, host_tsc: u64) -> int {
    let d = value - host_tsc;
    if d > i64::MAX {
        d - 0x1_0000_0000_0000_0000
    } else if d < i64::MIN {
        d + 0x1_0000_0000_0000_0000
    } else {
        d
    }
}

/// `value.wrapping_sub(host_tsc) as i64`.
pub fn tsc_offset_for(value: u64, host_tsc: u64) -> (offset: i64)
    ensures
        offset == spec_tsc_offset(value, host_tsc),
{
    let w = value.wrapping_sub(host_tsc);
    if w <= 0x7fff_ffff_ffff_ffffu64 {
        w as i64
    } else {
        let below: u64 = 0xffff_ffff_ffff_ffffu64 - w;
        -(below as i64) - 1
    }
}

/// The guest reads exactly `value`: host TSC plus the offset, wrapped to 64
/// bits, is `value`.
pub proof fn lemma_offset_lands_on_value(value: u64, host_tsc: u64)
    ensures
        (host_tsc + spec_tsc_offset(value, host_tsc)) % 0x1_0000_0000_0000_0000 == value,
        i64::MIN <= spec_tsc_offset(value, host_tsc) <= i64::MAX,
{
}

} // verus!
