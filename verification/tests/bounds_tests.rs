use staking_core::bounds::{SnapshotBounds, SnapshotBoundsBuilder};
use staking_core::snapshot::bounds_limits;

#[test]
fn builder_sets_both_bounds() {
    let bounds = SnapshotBoundsBuilder::new().size(100).count(5).build();
    assert_eq!(bounds.size_bound(), Some(100));
    assert_eq!(bounds.count_bound(), Some(5));
    assert!(bounds.is_bounded());
    assert!(!bounds.is_unbounded());
}

#[test]
fn unbounded_has_no_bounds() {
    let bounds = SnapshotBounds::new_unbounded();
    assert_eq!(bounds.size_bound(), None);
    assert_eq!(bounds.count_bound(), None);
    assert!(bounds.is_unbounded());
    assert!(!bounds.is_bounded());
}

#[test]
fn exhaustion_checks_work() {
    let bounds = SnapshotBounds::new_size(10);
    assert!(!bounds.size_exhausted(10));
    assert!(bounds.size_exhausted(11));
    assert!(!bounds.count_exhausted(1_000_000));

    let bounds = SnapshotBounds::new_count(3);
    assert!(!bounds.count_exhausted(3));
    assert!(bounds.count_exhausted(4));
    assert!(!bounds.size_exhausted(1_000_000));
}

#[test]
fn empty_collection_never_exhausts() {
    // an empty vector encodes to one byte of length prefix and zero items;
    // that must not count as exhaustion even under a zero-byte bound
    let bounds = SnapshotBounds::new_size(0);
    assert!(!bounds.exhausts_size_count_non_zero(1, 0));
    assert!(!bounds.exhausts_size_count_non_zero(1, 7));
    assert!(!bounds.exhausts_size_count_non_zero(9, 0));
    assert!(bounds.exhausts_size_count_non_zero(2, 1));

    let bounds = SnapshotBounds::new_count(0);
    assert!(!bounds.exhausts_size_count_non_zero(1, 0));
    assert!(bounds.exhausts_size_count_non_zero(2, 1));
}

#[test]
fn predict_capacity_works() {
    assert_eq!(SnapshotBounds::new_unbounded().predict_capacity(10), None);
    assert_eq!(SnapshotBounds::new_count(7).predict_capacity(10), Some(7));
    assert_eq!(SnapshotBounds::new_size(100).predict_capacity(10), Some(10));
    let both = SnapshotBoundsBuilder::new().size(100).count(3).build();
    assert_eq!(both.predict_capacity(10), Some(3));
    // a zero item size must not divide by zero
    assert_eq!(SnapshotBounds::new_size(100).predict_capacity(0), Some(100));
}

#[test]
fn bounds_limits_ranges() {
    // unbounded supports anything
    assert_eq!(
        bounds_limits(SnapshotBounds::new_unbounded(), 16),
        (usize::MAX, usize::MAX, usize::MAX)
    );
    // count-only is exact
    assert_eq!(bounds_limits(SnapshotBounds::new_count(11), 16), (11, 11, 11));
    // a size bound divides the budget by the assumed voter size:
    // voter_size(16) = 1 + 16*8 + 16 = 145, voter_size(8) = 81,
    // voter_size(1) = 25; budget = 2904 - 4 = 2900
    let (low, mid, high) = bounds_limits(SnapshotBounds::new_size(2904), 16);
    assert_eq!(low, 2900 / 145);
    assert_eq!(mid, 2900 / 81);
    assert_eq!(high, 2900 / 25);
    assert!(low <= mid && mid <= high);
}
