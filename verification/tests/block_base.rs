use dh_vmm::blkfile::file_read_span;

#[test]
fn reads_past_the_image_end_are_zero_filled() {
    // Inside the image: the whole buffer comes from the file.
    assert_eq!(file_read_span(10_000, 0, 4096), 4096);
    // Straddling the end: only the tail of the image.
    assert_eq!(file_read_span(10_000, 8192, 4096), 1808);
    // At or past the end: nothing from the file.
    assert_eq!(file_read_span(10_000, 10_000, 4096), 0);
    assert_eq!(file_read_span(10_000, u64::MAX, 4096), 0);
    assert_eq!(file_read_span(0, 0, 512), 0);
    // Empty buffer.
    assert_eq!(file_read_span(10_000, 5, 0), 0);
}
