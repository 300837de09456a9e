use auralis::prune::{max_age_nanos, prune_finished, PruneRecord};

fn rec(key: u64, updated_nanos: i64, terminal: bool) -> PruneRecord {
    PruneRecord {
        key,
        updated_nanos,
        terminal,
    }
}

#[test]
fn old_finished_records_are_forgotten() {
    let now = 1_700_000_000_000_000_000;
    let ten_minutes = 600_000_000_000;
    let records = [
        rec(1, now - 600_000_000_001, true),
        rec(2, now - 700_000_000_000, false),
        rec(3, now - 600_000_000_000, true),
    ];
    assert_eq!(prune_finished(&records, now, ten_minutes, 50), vec![1]);
}

#[test]
fn only_the_newest_finished_records_are_retained() {
    let now = 1_000;
    let records = [
        rec(1, 10, true),
        rec(2, 30, true),
        rec(3, 20, true),
        rec(4, 5, false),
        rec(5, 30, true),
    ];
    let mut gone = prune_finished(&records, now, 10_000, 2);
    gone.sort();
    // Newest first: 2 and 5 (tied, earlier record first), then 3, then 1.
    assert_eq!(gone, vec![1, 3]);
    assert!(prune_finished(&records, now, 10_000, 10).is_empty());
    let mut all = prune_finished(&records, now, 10_000, 0);
    all.sort();
    assert_eq!(all, vec![1, 2, 3, 5]);
}

#[test]
fn the_age_limit_is_the_requested_one_while_chrono_can_hold_it() {
    assert_eq!(max_age_nanos(600, 0), 600_000_000_000);
    assert_eq!(max_age_nanos(3600, 5), 3_600_000_000_005);
    assert_eq!(
        max_age_nanos(9_223_372_036_854_775, 807_000_000),
        9_223_372_036_854_775_807_000_000
    );
    assert_eq!(max_age_nanos(9_223_372_036_854_775, 807_000_001), 600_000_000_000);
    assert_eq!(max_age_nanos(u64::MAX, 0), 600_000_000_000);
}
