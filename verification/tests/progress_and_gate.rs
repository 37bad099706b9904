use shardfetch::gate::AdmissionGate;
use shardfetch::progress::ProgressAggregator;

#[test]
fn aggregate_is_100_after_every_shard_reports_100() {
    let mut agg = ProgressAggregator::new(7);
    // report in a scrambled order; only the final state matters
    let order = [3usize, 0, 6, 2, 5, 1, 4];
    let mut last = 0u32;
    for shard in order {
        last = agg.update(shard, 100);
    }
    assert_eq!(last, 100);
    assert_eq!(agg.aggregate(), 100);
}

#[test]
fn aggregate_starts_at_zero() {
    let agg = ProgressAggregator::new(5);
    assert_eq!(agg.aggregate(), 0);
}

#[test]
fn aggregate_is_the_floored_mean() {
    let mut agg = ProgressAggregator::new(3);
    assert_eq!(agg.update(0, 100), 33);
    assert_eq!(agg.update(1, 50), 50);
    assert_eq!(agg.update(2, 1), 50);
}

#[test]
fn update_is_last_write_wins_per_shard() {
    let mut agg = ProgressAggregator::new(2);
    assert_eq!(agg.update(0, 100), 50);
    // a later, lower report for the same shard lowers the aggregate again
    assert_eq!(agg.update(0, 10), 5);
}

#[test]
fn gate_admits_at_most_its_limit() {
    let mut gate = AdmissionGate::new(3);
    assert_eq!(gate.available(), 3);
    assert!(gate.try_acquire());
    assert!(gate.try_acquire());
    assert!(gate.try_acquire());
    assert!(!gate.try_acquire());
    assert_eq!(gate.available(), 0);
}

#[test]
fn releasing_restores_the_available_count() {
    let mut gate = AdmissionGate::new(2);
    let before = gate.available();
    assert!(gate.try_acquire());
    gate.release();
    assert_eq!(gate.available(), before);
}
