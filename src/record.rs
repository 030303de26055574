//! The record kept for one hardware address, and the rule that updates it.

use vstd::prelude::*;

verus! {

/// What is known of one device: how often it was heard, when it was heard
/// last, and when it last re-appeared after a silence.
#[derive(Clone, Copy, Debug, PartialEq, Eq, Structural)]
pub struct DeviceRecord {
    /// The device's hardware address, packed into the low 48 bits.
    pub identity: u64,
    /// How many observations were recorded; it stops growing at `u64::MAX`.
    pub observation_count: u64,
    /// Time of the latest observation, in milliseconds.
    pub last_seen_at: u64,
    /// Time of the latest observation that followed a silence of at least
    /// the threshold (or of the first observation).
    pub classification_mark: u64,
}

/// The record that a first observation of `identity` at `at` creates.
pub open spec fn first_record(identity: u64, at: u64) -> DeviceRecord {
    DeviceRecord { identity, observation_count: 1, last_seen_at: at, classification_mark: at }
}

/// An observation at `at`, after one at `last`, ends a silence of at least
/// `threshold` milliseconds.
pub open spec fn is_reappearance(last: u64, at: u64, threshold: u64) -> bool {
    at - last >= threshold
}

/// The count after one more observation, held at `u64::MAX`.
pub open spec fn next_count(count: u64) -> u64 {
    if count < u64::MAX {
        (count + 1) as u64
    } else {
        u64::MAX
    }
}

/// The record `r` after one more observation at `at`.
pub open spec fn next_record(r: DeviceRecord, at: u64, threshold: u64) -> DeviceRecord {
    DeviceRecord {
        identity: r.identity,
        observation_count: next_count(r.observation_count),
        last_seen_at: at,
        classification_mark: if is_reappearance(r.last_seen_at, at, threshold) {
            at
        } else {
            r.classification_mark
        },
    }
}

impl DeviceRecord {
    /// The record of a device heard for the first time, at `at`.
    pub fn first_seen(identity: u64, at: u64) -> (r: DeviceRecord)
        ensures
            r == first_record(identity, at),
    {
        DeviceRecord { identity, observation_count: 1, last_seen_at: at, classification_mark: at }
    }

    /// Records one more observation at `at`; the mark moves to `at` when the
    /// silence since the last observation is at least `threshold`.
    pub fn observe(&mut self, at: u64, threshold: u64)
        ensures
            *final(self) == next_record(*old(self), at, threshold),
    {
        let reappeared = at >= self.last_seen_at && at - self.last_seen_at >= threshold;
        self.observation_count = self.observation_count.saturating_add(1);
        if reappeared {
            self.classification_mark = at;
        }
        self.last_seen_at = at;
    }

    /// Milliseconds from the last observation to `now`; zero when `now` is
    /// not later than it.
    pub fn millis_since_last_seen(&self, now: u64) -> (r: u64)
        ensures
            r == (if now >= self.last_seen_at { now - self.last_seen_at } else { 0 }),
    {
        if now >= self.last_seen_at {
            now - self.last_seen_at
        } else {
            0
        }
    }
}

} // verus!
