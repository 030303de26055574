use arp_presence::record::DeviceRecord;
use arp_presence::table::PresenceTable;

const A: u64 = 0x181b_5391_5118;
const B: u64 = 0x0000_0000_0001;

fn rec(identity: u64, count: u64, last: u64, mark: u64) -> DeviceRecord {
    DeviceRecord {
        identity,
        observation_count: count,
        last_seen_at: last,
        classification_mark: mark,
    }
}

#[test]
fn threshold_scenario() {
    let mut t = PresenceTable::new();
    t.record_observation(A, 0, 5000);
    let r = t.get(A).unwrap();
    assert_eq!((r.observation_count, r.classification_mark), (1, 0));
    t.record_observation(A, 3000, 5000);
    let r = t.get(A).unwrap();
    assert_eq!((r.observation_count, r.classification_mark), (2, 0));
    t.record_observation(A, 9000, 5000);
    let r = t.get(A).unwrap();
    assert_eq!((r.observation_count, r.classification_mark), (3, 9000));
    assert_eq!(r.last_seen_at, 9000);
}

#[test]
fn first_observation_creates_record() {
    let mut t = PresenceTable::new();
    assert_eq!(t.get(A), None);
    t.record_observation(A, 1234, 5000);
    assert_eq!(t.get(A), Some(rec(A, 1, 1234, 1234)));
    assert_eq!(t.len(), 1);
}

#[test]
fn count_and_last_seen_follow_the_sequence() {
    let mut t = PresenceTable::new();
    let times = [10u64, 20, 35, 1000, 1001, 7000];
    for &at in times.iter() {
        t.record_observation(A, at, 100);
    }
    let r = t.get(A).unwrap();
    assert_eq!(r.observation_count, times.len() as u64);
    assert_eq!(r.last_seen_at, 7000);
}

#[test]
fn gap_equal_to_threshold_moves_mark() {
    let mut t = PresenceTable::new();
    t.record_observation(A, 100, 50);
    t.record_observation(A, 149, 50);
    assert_eq!(t.get(A).unwrap().classification_mark, 100);
    t.record_observation(A, 199, 50);
    assert_eq!(t.get(A).unwrap().classification_mark, 199);
}

#[test]
fn earlier_time_keeps_mark() {
    let mut t = PresenceTable::new();
    t.record_observation(A, 10_000, 0);
    t.record_observation(A, 5_000, 0);
    assert_eq!(t.get(A), Some(rec(A, 2, 5_000, 10_000)));
}

#[test]
fn identities_are_kept_apart() {
    let mut t = PresenceTable::new();
    t.record_observation(A, 0, 10);
    t.record_observation(B, 5, 10);
    t.record_observation(A, 100, 10);
    assert_eq!(t.len(), 2);
    assert_eq!(t.get(A), Some(rec(A, 2, 100, 100)));
    assert_eq!(t.get(B), Some(rec(B, 1, 5, 5)));
}

#[test]
fn snapshot_orders_by_mark_then_identity() {
    let mut t = PresenceTable::new();
    t.record_observation(3, 50, 1000);
    t.record_observation(A, 70, 1000);
    t.record_observation(2, 50, 1000);
    t.record_observation(B, 10, 1000);
    let s = t.snapshot();
    let ids: Vec<u64> = s.iter().map(|r| r.identity).collect();
    assert_eq!(ids, vec![A, 2, 3, B]);
    assert_eq!(s[0], rec(A, 1, 70, 70));
}

#[test]
fn snapshots_without_writes_are_equal() {
    let mut t = PresenceTable::new();
    for (i, at) in [5u64, 1, 9, 9, 3].iter().enumerate() {
        t.record_observation(i as u64 + 1, *at, 4);
    }
    let first = t.snapshot();
    let second = t.snapshot();
    assert_eq!(first, second);
    assert_eq!(first.len(), 5);
}

#[test]
fn empty_table_snapshot() {
    let t = PresenceTable::new();
    assert_eq!(t.snapshot(), Vec::new());
    assert_eq!(t.len(), 0);
}

#[test]
fn count_stops_at_max() {
    let mut r = rec(A, u64::MAX, 0, 0);
    r.observe(10, 5);
    assert_eq!(r, rec(A, u64::MAX, 10, 10));
}

#[test]
fn first_seen_record() {
    assert_eq!(DeviceRecord::first_seen(B, 42), rec(B, 1, 42, 42));
}

#[test]
fn millis_since_last_seen() {
    let r = rec(A, 1, 1000, 1000);
    assert_eq!(r.millis_since_last_seen(1750), 750);
    assert_eq!(r.millis_since_last_seen(1000), 0);
    assert_eq!(r.millis_since_last_seen(10), 0);
}
