use workshadow::storage::retention::{RetentionPolicy, MS_PER_DAY};

#[test]
fn cutoff_is_max_days_before_now() {
    let p = RetentionPolicy::new(90, 1000);
    let now = 100 * MS_PER_DAY + 5;
    assert_eq!(p.frame_cutoff_ms(now), 10 * MS_PER_DAY + 5);
}

#[test]
fn no_deletion_within_limit() {
    let p = RetentionPolicy::new(90, 1000);
    assert!(p.segments_to_delete(&vec![Some(600), Some(400)], 1000).is_empty());
}

#[test]
fn oldest_segments_deleted_until_excess_freed() {
    let p = RetentionPolicy::new(90, 1000);
    // usage 1500 exceeds the limit by 500
    let sizes = vec![Some(200), Some(200), Some(200), Some(900)];
    assert_eq!(p.segments_to_delete(&sizes, 1500), vec![0, 1, 2]);
}

#[test]
fn unreadable_segments_are_skipped() {
    let p = RetentionPolicy::new(90, 100);
    let sizes = vec![None, Some(50), None, Some(80), Some(10)];
    assert_eq!(p.segments_to_delete(&sizes, 200), vec![1, 3]);
}

#[test]
fn everything_deleted_when_not_enough() {
    let p = RetentionPolicy::new(90, 0);
    let sizes = vec![Some(1), Some(2)];
    assert_eq!(p.segments_to_delete(&sizes, 100), vec![0, 1]);
}
