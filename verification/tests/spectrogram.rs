use band::spectrogram::{build_row_ranges, N_BINS};

#[test]
fn row_ranges_are_clamped_into_the_spectrum() {
    let ranges = build_row_ranges(&[(5, 7), (2000, 3000), (10, 3), (1024, 1025), (0, 0)]);
    assert_eq!(ranges, vec![(5, 7), (1024, 1025), (10, 11), (1024, 1025), (0, 1)]);
    assert!(ranges.iter().all(|&(lo, hi)| lo < hi && hi <= N_BINS));
}
