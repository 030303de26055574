//! The presence table: one record per hardware address heard, never removed.

use vstd::prelude::*;
use crate::record::{DeviceRecord, first_record, next_record};

verus! {

/// No two records of `s` belong to the same identity.
pub open spec fn unique_identities(s: Seq<DeviceRecord>) -> bool {
    forall|i: int, j: int|
        0 <= i < s.len() && 0 <= j < s.len() && i != j ==> #[trigger] s[i].identity
            != #[trigger] s[j].identity
}

/// `s` holds a record of `identity`.
pub open spec fn holds_identity(s: Seq<DeviceRecord>, identity: u64) -> bool {
    exists|i: int| 0 <= i < s.len() && #[trigger] s[i].identity == identity
}

/// The position of the record of `identity` in `s`, where there is one.
pub open spec fn index_of(s: Seq<DeviceRecord>, identity: u64) -> int {
    choose|i: int| 0 <= i < s.len() && #[trigger] s[i].identity == identity
}

/// The record of `identity` in `s`, if any.
pub open spec fn record_of(s: Seq<DeviceRecord>, identity: u64) -> Option<DeviceRecord> {
    if holds_identity(s, identity) {
        Some(s[index_of(s, identity)])
    } else {
        None
    }
}

/// The records `s` after an observation of `identity` at `at`: its record is
/// updated in place, or a new one is appended.
pub open spec fn after_observation(s: Seq<DeviceRecord>, identity: u64, at: u64, threshold: u64) -> Seq<
    DeviceRecord,
> {
    if holds_identity(s, identity) {
        let i = index_of(s, identity);
        s.update(i, next_record(s[i], at, threshold))
    } else {
        s.push(first_record(identity, at))
    }
}

/// The order of a snapshot: the latest classification mark first, and on
/// equal marks the smaller identity first.
pub open spec fn comes_before(a: DeviceRecord, b: DeviceRecord) -> bool {
    a.classification_mark > b.classification_mark || (a.classification_mark
        == b.classification_mark && a.identity < b.identity)
}

/// Each record of `s` comes before every later one.
pub open spec fn is_ordered(s: Seq<DeviceRecord>) -> bool {
    forall|i: int, j: int| 0 <= i < j < s.len() ==> comes_before(#[trigger] s[i], #[trigger] s[j])
}

/// `a` and `b` hold the same records.
pub open spec fn same_records(a: Seq<DeviceRecord>, b: Seq<DeviceRecord>) -> bool {
    forall|r: DeviceRecord| a.contains(r) <==> b.contains(r)
}

/// `r` is a snapshot of the records `s`: the same records, in snapshot order.
pub open spec fn is_snapshot_of(r: Seq<DeviceRecord>, s: Seq<DeviceRecord>) -> bool {
    is_ordered(r) && same_records(r, s)
}

/// The records of every device heard so far, in the order they were first
/// heard.
pub struct PresenceTable {
    records: Vec<DeviceRecord>,
}

impl View for PresenceTable {
    type V = Seq<DeviceRecord>;

    closed spec fn view(&self) -> Seq<DeviceRecord> {
        self.records@
    }
}

/// Whether `a` comes before `b` in a snapshot.
fn precedes(a: &DeviceRecord, b: &DeviceRecord) -> (r: bool)
    ensures
        r == comes_before(*a, *b),
{
    a.classification_mark > b.classification_mark || (a.classification_mark
        == b.classification_mark && a.identity < b.identity)
}

impl PresenceTable {
    /// The table is well formed: one record per identity.
    pub open spec fn wf(&self) -> bool {
        unique_identities(self@)
    }

    /// An empty table.
    pub fn new() -> (t: PresenceTable)
        ensures
            t.wf(),
            t@ == Seq::<DeviceRecord>::empty(),
    {
        PresenceTable { records: Vec::new() }
    }

    /// The number of devices heard so far.
    pub fn len(&self) -> (n: usize)
        ensures
            n == self@.len(),
    {
        self.records.len()
    }

    /// The record of `identity`, if it was heard.
    pub fn get(&self, identity: u64) -> (r: Option<DeviceRecord>)
        requires
            self.wf(),
        ensures
            r == record_of(self@, identity),
    {
        let n = self.records.len();
        let mut i: usize = 0;
        while i < n
            invariant
                n == self.records@.len(),
                i <= n,
                unique_identities(self.records@),
                forall|k: int| 0 <= k < i ==> #[trigger] self.records@[k].identity != identity,
            decreases n - i,
        {
            if self.records[i].identity == identity {
                proof {
                    let s = self.records@;
                    assert(holds_identity(s, identity));
                    let j = index_of(s, identity);
                    assert(s[j].identity == s[i as int].identity);
                }
                return Some(self.records[i]);
            }
            i += 1;
        }
        None
    }

    /// Records an observation of `identity` at `observed_at`: a new record
    /// for an identity not heard before, else an update of its record.
    pub fn record_observation(&mut self, identity: u64, observed_at: u64, threshold: u64)
        requires
            old(self).wf(),
        ensures
            final(self).wf(),
            final(self)@ == after_observation(old(self)@, identity, observed_at, threshold),
    {
        let n = self.records.len();
        let mut i: usize = 0;
        while i < n
            invariant
                n == self.records@.len(),
                i <= n,
                self@ == old(self)@,
                unique_identities(self.records@),
                forall|k: int| 0 <= k < i ==> #[trigger] self.records@[k].identity != identity,
            decreases n - i,
        {
            if self.records[i].identity == identity {
                let ghost s = self.records@;
                proof {
                    assert(holds_identity(s, identity));
                    let j = index_of(s, identity);
                    assert(s[j].identity == s[i as int].identity);
                    assert(j == i);
                }
                let mut r = self.records[i];
                r.observe(observed_at, threshold);
                self.records.set(i, r);
                proof {
                    assert forall|a: int, b: int|
                        0 <= a < self.records@.len() && 0 <= b < self.records@.len() && a != b
                        implies #[trigger] self.records@[a].identity
                        != #[trigger] self.records@[b].identity by {
                        assert(s[a].identity != s[b].identity);
                    }
                }
                return;
            }
            i += 1;
        }
        let ghost s = self.records@;
        self.records.push(DeviceRecord::first_seen(identity, observed_at));
        proof {
            if holds_identity(s, identity) {
                let j = index_of(s, identity);
                assert(s[j].identity == identity);
            }
            assert forall|a: int, b: int|
                0 <= a < self.records@.len() && 0 <= b < self.records@.len() && a != b
                implies #[trigger] self.records@[a].identity
                != #[trigger] self.records@[b].identity by {
                if a < s.len() && b < s.len() {
                    assert(s[a].identity != s[b].identity);
                } else if a < s.len() {
                    assert(s[a].identity != identity);
                } else {
                    assert(s[b].identity != identity);
                }
            }
        }
    }
    /// A copy of every record, the latest classification mark first (on
    /// equal marks, the smaller identity first).
    pub fn snapshot(&self) -> (r: Vec<DeviceRecord>)
        requires
            self.wf(),
        ensures
            is_snapshot_of(r@, self@),
    {
        let n = self.records.len();
        let mut out: Vec<DeviceRecord> = Vec::new();
        let mut i: usize = 0;
        while i < n
            invariant
                n == self.records@.len(),
                i <= n,
                unique_identities(self.records@),
                is_ordered(out@),
                same_records(out@, self.records@.take(i as int)),
            decreases n - i,
        {
            let rec = self.records[i];
            let ghost before = out@;
            let mut p: usize = 0;
            while p < out.len() && !precedes(&rec, &out[p])
                invariant
                    p <= out@.len(),
                    out@ == before,
                    forall|k: int| 0 <= k < p ==> !comes_before(rec, #[trigger] out@[k]),
                decreases out@.len() - p,
            {
                p += 1;
            }
            proof {
                let taken = self.records@.take(i as int);
                assert forall|k: int| 0 <= k < out@.len() implies #[trigger] out@[k].identity
                    != rec.identity by {
                    assert(out@.contains(out@[k]));
                    assert(taken.contains(out@[k]));
                    let m = choose|m: int| 0 <= m < taken.len() && taken[m] == out@[k];
                    assert(self.records@[m].identity != self.records@[i as int].identity);
                }
                lemma_insert_ordered(out@, p as int, rec);
            }
            out.insert(p, rec);
            proof {
                lemma_insert_contains(before, p as int, rec);
                assert(self.records@.take(i + 1) == self.records@.take(i as int).push(rec));
                lemma_push_contains(self.records@.take(i as int), rec);
                assert(out@ == before.insert(p as int, rec));
                assert forall|r: DeviceRecord|
                    out@.contains(r) <==> self.records@.take(i + 1).contains(r) by {
                    assert(before.contains(r) <==> self.records@.take(i as int).contains(r));
                }
            }
            i += 1;
        }
        proof {
            assert(self.records@.take(n as int) == self.records@);
        }
        out
    }
}

/// Inserting `x` at `p` keeps `s` ordered, when `x` comes after everything
/// before `p` and before the record at `p`.
proof fn lemma_insert_ordered(s: Seq<DeviceRecord>, p: int, x: DeviceRecord)
    requires
        is_ordered(s),
        0 <= p <= s.len(),
        forall|k: int| 0 <= k < p ==> !comes_before(x, #[trigger] s[k]),
        p < s.len() ==> comes_before(x, s[p]),
        forall|k: int| 0 <= k < s.len() ==> #[trigger] s[k].identity != x.identity,
    ensures
        is_ordered(s.insert(p, x)),
{
    let t = s.insert(p, x);
    s.insert_ensures(p, x);
    assert forall|a: int, b: int| 0 <= a < b < t.len() implies comes_before(
        #[trigger] t[a],
        #[trigger] t[b],
    ) by {
        if b < p {
            assert(t[a] == s[a] && t[b] == s[b]);
        } else if b == p {
            assert(t[a] == s[a]);
            assert(s[a].identity != x.identity);
        } else if a < p {
            assert(t[a] == s[a] && t[b] == s[b - 1]);
            assert(s[a].identity != x.identity);
            assert(comes_before(x, s[p]));
            if b - 1 > p {
                assert(comes_before(s[p], s[b - 1]));
            }
        } else if a == p {
            assert(t[b] == s[b - 1]);
            if b - 1 > p {
                assert(comes_before(s[p], s[b - 1]));
            }
        } else {
            assert(t[a] == s[a - 1] && t[b] == s[b - 1]);
        }
    }
}

/// What `s` with `x` inserted holds: what `s` holds, and `x`.
proof fn lemma_insert_contains(s: Seq<DeviceRecord>, p: int, x: DeviceRecord)
    requires
        0 <= p <= s.len(),
    ensures
        forall|r: DeviceRecord| s.insert(p, x).contains(r) <==> (s.contains(r) || r == x),
{
    let t = s.insert(p, x);
    s.insert_ensures(p, x);
    assert forall|r: DeviceRecord| t.contains(r) <==> (s.contains(r) || r == x) by {
        if t.contains(r) {
            let k = choose|k: int| 0 <= k < t.len() && t[k] == r;
            if k < p {
                assert(s[k] == r);
            } else if k > p {
                assert(s[k - 1] == r);
            }
        }
        if s.contains(r) {
            let k = choose|k: int| 0 <= k < s.len() && s[k] == r;
            if k < p {
                assert(t[k] == r);
            } else {
                assert(t[k + 1] == r);
            }
        }
        if r == x {
            assert(t[p] == x);
        }
    }
}

/// What `s` with `x` pushed holds: what `s` holds, and `x`.
proof fn lemma_push_contains(s: Seq<DeviceRecord>, x: DeviceRecord)
    ensures
        forall|r: DeviceRecord| s.push(x).contains(r) <==> (s.contains(r) || r == x),
{
    let t = s.push(x);
    assert forall|r: DeviceRecord| t.contains(r) <==> (s.contains(r) || r == x) by {
        if t.contains(r) {
            let k = choose|k: int| 0 <= k < t.len() && t[k] == r;
            if k < s.len() {
                assert(s[k] == r);
            }
        }
        if s.contains(r) {
            let k = choose|k: int| 0 <= k < s.len() && s[k] == r;
            assert(t[k] == r);
        }
        if r == x {
            assert(t[s.len() as int] == x);
        }
    }
}

/// The records `s` after observations of `identity` at each of `times`, in
/// order.
pub open spec fn after_observations(
    s: Seq<DeviceRecord>,
    identity: u64,
    times: Seq<u64>,
    threshold: u64,
) -> Seq<DeviceRecord>
    decreases times.len(),
{
    if times.len() == 0 {
        s
    } else {
        after_observation(
            after_observations(s, identity, times.drop_last(), threshold),
            identity,
            times.last(),
            threshold,
        )
    }
}

/// An observation keeps one record per identity, and leaves the record of
/// its identity as the first record or the next record of the old one.
pub proof fn lemma_observation_effect(s: Seq<DeviceRecord>, identity: u64, at: u64, threshold: u64)
    requires
        unique_identities(s),
    ensures
        unique_identities(after_observation(s, identity, at, threshold)),
        record_of(after_observation(s, identity, at, threshold), identity) == (match record_of(
            s,
            identity,
        ) {
            Some(r) => Some(next_record(r, at, threshold)),
            None => Some(first_record(identity, at)),
        }),
{
    let t = after_observation(s, identity, at, threshold);
    if holds_identity(s, identity) {
        let i = index_of(s, identity);
        assert forall|a: int, b: int|
            0 <= a < t.len() && 0 <= b < t.len() && a != b implies #[trigger] t[a].identity
            != #[trigger] t[b].identity by {
            assert(s[a].identity != s[b].identity);
        }
        assert(t[i].identity == identity);
        let j = index_of(t, identity);
        assert(t[j].identity == t[i].identity);
    } else {
        let n = s.len() as int;
        assert forall|a: int, b: int|
            0 <= a < t.len() && 0 <= b < t.len() && a != b implies #[trigger] t[a].identity
            != #[trigger] t[b].identity by {
            if a < n && b < n {
                assert(s[a].identity != s[b].identity);
            } else if a < n {
                assert(s[a].identity != identity);
            } else {
                assert(s[b].identity != identity);
            }
        }
        assert(t[n].identity == identity);
        let j = index_of(t, identity);
        assert(t[j].identity == t[n].identity);
    }
}

/// After a non-empty run of observations of one identity that the table did
/// not know, its record counts every observation and was last seen at the
/// time of the last one.
pub proof fn lemma_count_and_last_seen(
    s: Seq<DeviceRecord>,
    identity: u64,
    times: Seq<u64>,
    threshold: u64,
)
    requires
        unique_identities(s),
        !holds_identity(s, identity),
        0 < times.len() <= u64::MAX,
    ensures
        unique_identities(after_observations(s, identity, times, threshold)),
        record_of(after_observations(s, identity, times, threshold), identity) is Some,
        record_of(after_observations(s, identity, times, threshold), identity)->0.observation_count
            == times.len(),
        record_of(after_observations(s, identity, times, threshold), identity)->0.last_seen_at
            == times.last(),
    decreases times.len(),
{
    let prefix = times.drop_last();
    let before = after_observations(s, identity, prefix, threshold);
    if prefix.len() == 0 {
        assert(before == s);
        lemma_observation_effect(s, identity, times.last(), threshold);
    } else {
        lemma_count_and_last_seen(s, identity, prefix, threshold);
        lemma_observation_effect(before, identity, times.last(), threshold);
    }
}

/// Of two consecutive observations of one identity, at `first` and then at
/// `second`: the classification mark moves to `second` when the gap is at
/// least the threshold, and stays where the first left it otherwise.
pub proof fn lemma_reappearance_mark(
    s: Seq<DeviceRecord>,
    identity: u64,
    first: u64,
    second: u64,
    threshold: u64,
)
    requires
        unique_identities(s),
    ensures
        ({
            let s1 = after_observation(s, identity, first, threshold);
            let s2 = after_observation(s1, identity, second, threshold);
            &&& record_of(s1, identity) is Some
            &&& record_of(s2, identity) is Some
            &&& record_of(s2, identity)->0.classification_mark == if second - first >= threshold {
                second
            } else {
                record_of(s1, identity)->0.classification_mark
            }
        }),
{
    let s1 = after_observation(s, identity, first, threshold);
    lemma_observation_effect(s, identity, first, threshold);
    lemma_observation_effect(s1, identity, second, threshold);
}

/// Two snapshots of the same records are equal: a snapshot depends on the
/// table's contents alone, so two taken with no write between them agree.
pub proof fn lemma_snapshot_unique(s: Seq<DeviceRecord>, a: Seq<DeviceRecord>, b: Seq<DeviceRecord>)
    requires
        is_snapshot_of(a, s),
        is_snapshot_of(b, s),
    ensures
        a == b,
{
    lemma_ordered_unique(a, b);
}

/// Two ordered sequences that hold the same records are equal.
proof fn lemma_ordered_unique(a: Seq<DeviceRecord>, b: Seq<DeviceRecord>)
    requires
        is_ordered(a),
        is_ordered(b),
        same_records(a, b),
    ensures
        a == b,
    decreases a.len(),
{
    if a.len() == 0 {
        if b.len() > 0 {
            assert(b.contains(b[0]));
        }
        assert(a =~= b);
    } else {
        assert(a.contains(a[0]));
        let j = choose|j: int| 0 <= j < b.len() && b[j] == a[0];
        assert(b.contains(b[0]));
        let k = choose|k: int| 0 <= k < a.len() && a[k] == b[0];
        if j > 0 {
            assert(comes_before(b[0], b[j]));
            if k > 0 {
                assert(comes_before(a[0], a[k]));
            }
        }
        assert(a[0] == b[0]);
        let a1 = a.drop_first();
        let b1 = b.drop_first();
        assert forall|r: DeviceRecord| a1.contains(r) <==> b1.contains(r) by {
            if a1.contains(r) {
                let m = choose|m: int| 0 <= m < a1.len() && a1[m] == r;
                assert(comes_before(a[0], a[m + 1]));
                assert(a.contains(r));
                let q = choose|q: int| 0 <= q < b.len() && b[q] == r;
                assert(q != 0);
                assert(b1[q - 1] == r);
            }
            if b1.contains(r) {
                let m = choose|m: int| 0 <= m < b1.len() && b1[m] == r;
                assert(comes_before(b[0], b[m + 1]));
                assert(b.contains(r));
                let q = choose|q: int| 0 <= q < a.len() && a[q] == r;
                assert(q != 0);
                assert(a1[q - 1] == r);
            }
        }
        assert forall|x: int, y: int| 0 <= x < y < a1.len() implies comes_before(
            #[trigger] a1[x],
            #[trigger] a1[y],
        ) by {
            assert(comes_before(a[x + 1], a[y + 1]));
        }
        assert forall|x: int, y: int| 0 <= x < y < b1.len() implies comes_before(
            #[trigger] b1[x],
            #[trigger] b1[y],
        ) by {
            assert(comes_before(b[x + 1], b[y + 1]));
        }
        lemma_ordered_unique(a1, b1);
        assert(a =~= b) by {
            assert forall|x: int| 0 <= x < a.len() implies a[x] == b[x] by {
                if x > 0 {
                    assert(a[x] == a1[x - 1]);
                    assert(b[x] == b1[x - 1]);
                }
            }
        }
    }
}

} // verus!
