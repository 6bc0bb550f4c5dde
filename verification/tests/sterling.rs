use katgpt_core::sterling::LiftCounts;

#[test]
fn lift_counts_are_histograms_of_both_passes() {
    let mut c = LiftCounts::new(5);
    c.observe_global(&[0, 1, 1, 4]);
    c.observe_global(&[1]);
    c.observe_tagged(&[4, 4, 2]);
    assert_eq!(c.global_counts, vec![1, 3, 0, 0, 1]);
    assert_eq!(c.n_global, 5);
    assert_eq!(c.tagged_counts, vec![0, 0, 1, 0, 2]);
    assert_eq!(c.n_tagged, 3);
}

#[test]
fn lift_counts_saturate() {
    let mut c = LiftCounts::new(2);
    c.n_global = u64::MAX;
    c.global_counts[1] = u64::MAX;
    c.observe_global(&[1, 0]);
    assert_eq!(c.n_global, u64::MAX);
    assert_eq!(c.global_counts, vec![1, u64::MAX]);
}
