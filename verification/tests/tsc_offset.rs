use dh_vmm::tsc::tsc_offset_for;

#[test]
fn offset_is_the_wrapping_difference_as_signed() {
    assert_eq!(tsc_offset_for(1000, 400), 600);
    assert_eq!(tsc_offset_for(400, 1000), -600);
    assert_eq!(tsc_offset_for(0, u64::MAX), 1);
    assert_eq!(tsc_offset_for(u64::MAX, 0), -1);
}

#[test]
fn guest_reads_the_requested_value() {
    for (value, host) in [(5u64, 9u64), (u64::MAX - 3, 17), (123_456_789, 987_654_321_000)] {
        let off = tsc_offset_for(value, host);
        assert_eq!(host.wrapping_add(off as u64), value);
    }
}
