//! The update hub: a registry of subscriptions, each with a one-slot mailbox
//! that coalesces notifications, so that no subscriber can hold up another or
//! the publisher.

use vstd::prelude::*;

verus! {

/// How often a subscriber is told to refresh.
#[derive(Clone, Copy, Debug, PartialEq, Eq, Structural)]
pub enum Cadence {
    /// On every change of the presence table.
    OnChange,
    /// Every `interval_ms` milliseconds, whether or not anything changed.
    Periodic { interval_ms: u64 },
}

/// One registered subscriber.
#[derive(Clone, Copy, Debug, PartialEq, Eq, Structural)]
pub struct Subscription {
    /// The session identifier, unique over the hub's lifetime.
    pub id: u64,
    pub cadence: Cadence,
    /// A notification waits to be taken. Further notifications coalesce
    /// into this one instead of queueing.
    pub pending: bool,
    /// For a periodic subscriber, the time of its next tick, in milliseconds.
    pub next_tick_at: u64,
}

/// `a + b`, held at `u64::MAX`.
pub open spec fn saturating_sum(a: u64, b: u64) -> u64 {
    if a + b > u64::MAX {
        u64::MAX
    } else {
        (a + b) as u64
    }
}

/// The time of the first tick after `now` for `cadence`.
pub open spec fn next_tick(cadence: Cadence, now: u64) -> u64 {
    match cadence {
        Cadence::OnChange => now,
        Cadence::Periodic { interval_ms } => saturating_sum(now, interval_ms),
    }
}

/// The subscription that `subscribe` registers.
pub open spec fn new_subscription(id: u64, cadence: Cadence, now: u64) -> Subscription {
    Subscription { id, cadence, pending: false, next_tick_at: next_tick(cadence, now) }
}

/// `s` with a notification waiting.
pub open spec fn with_pending(s: Subscription) -> Subscription {
    Subscription { id: s.id, cadence: s.cadence, pending: true, next_tick_at: s.next_tick_at }
}

/// `s` after a change of the table was published.
pub open spec fn after_change(s: Subscription) -> Subscription {
    if s.cadence is OnChange {
        with_pending(s)
    } else {
        s
    }
}

/// `s` is periodic and its tick has come at `now`.
pub open spec fn is_due(s: Subscription, now: u64) -> bool {
    s.cadence is Periodic && s.next_tick_at <= now
}

/// `s` after the clock reached `now`.
pub open spec fn after_tick(s: Subscription, now: u64) -> Subscription {
    if is_due(s, now) {
        Subscription {
            id: s.id,
            cadence: s.cadence,
            pending: true,
            next_tick_at: next_tick(s.cadence, now),
        }
    } else {
        s
    }
}

/// The identifiers of the subscriptions of `s` that `pick` selects, in
/// registry order.
pub open spec fn ids_where(s: Seq<Subscription>, pick: spec_fn(Subscription) -> bool) -> Seq<u64>
    decreases s.len(),
{
    if s.len() == 0 {
        Seq::empty()
    } else if pick(s.last()) {
        ids_where(s.drop_last(), pick).push(s.last().id)
    } else {
        ids_where(s.drop_last(), pick)
    }
}

/// The identifiers of the subscribers told of a change.
pub open spec fn change_targets(s: Seq<Subscription>) -> Seq<u64> {
    ids_where(s, |x: Subscription| x.cadence is OnChange)
}

/// The identifiers of the subscribers whose tick has come at `now`.
pub open spec fn due_targets(s: Seq<Subscription>, now: u64) -> Seq<u64> {
    ids_where(s, |x: Subscription| is_due(x, now))
}

/// No two subscriptions of `s` share an identifier, and every identifier
/// is below `next_id`.
pub open spec fn registry_wf(s: Seq<Subscription>, next_id: u64) -> bool {
    &&& 1 <= next_id
    &&& forall|i: int| 0 <= i < s.len() ==> #[trigger] s[i].id < next_id
    &&& forall|i: int, j: int|
        0 <= i < s.len() && 0 <= j < s.len() && i != j ==> #[trigger] s[i].id != #[trigger] s[j].id
}

/// `s` holds a subscription with identifier `id`.
pub open spec fn holds_subscription(s: Seq<Subscription>, id: u64) -> bool {
    exists|i: int| 0 <= i < s.len() && #[trigger] s[i].id == id
}

/// The position of the subscription `id` in `s`, where there is one.
pub open spec fn subscription_index(s: Seq<Subscription>, id: u64) -> int {
    choose|i: int| 0 <= i < s.len() && #[trigger] s[i].id == id
}

/// `s` without the subscription `id`.
pub open spec fn without(s: Seq<Subscription>, id: u64) -> Seq<Subscription> {
    if holds_subscription(s, id) {
        s.remove(subscription_index(s, id))
    } else {
        s
    }
}

/// The subscriptions of a hub, and the identifier that the next one gets.
pub struct UpdateHub {
    subscriptions: Vec<Subscription>,
    next_id: u64,
}

impl View for UpdateHub {
    type V = (Seq<Subscription>, u64);

    closed spec fn view(&self) -> (Seq<Subscription>, u64) {
        (self.subscriptions@, self.next_id)
    }
}

impl UpdateHub {
    /// The hub is well formed: identifiers are unique and below the next one.
    pub open spec fn wf(&self) -> bool {
        registry_wf(self@.0, self@.1)
    }

    /// A hub with no subscriptions; the first gets identifier 1.
    pub fn new() -> (h: UpdateHub)
        ensures
            h.wf(),
            h@ == (Seq::<Subscription>::empty(), 1u64),
    {
        UpdateHub { subscriptions: Vec::new(), next_id: 1 }
    }

    /// The number of registered subscriptions.
    pub fn len(&self) -> (n: usize)
        ensures
            n == self@.0.len(),
    {
        self.subscriptions.len()
    }

    /// Registers a subscriber with `cadence` at time `now` and returns its
    /// fresh identifier; `None`, with nothing changed, once identifiers are
    /// used up.
    pub fn subscribe(&mut self, cadence: Cadence, now: u64) -> (r: Option<u64>)
        requires
            old(self).wf(),
        ensures
            final(self).wf(),
            old(self)@.1 == u64::MAX ==> r is None && final(self)@ == old(self)@,
            old(self)@.1 < u64::MAX ==> r == Some(old(self)@.1) && final(self)@ == (
                old(self)@.0.push(new_subscription(old(self)@.1, cadence, now)),
                (old(self)@.1 + 1) as u64,
            ),
    {
        if self.next_id == u64::MAX {
            return None;
        }
        let id = self.next_id;
        let next_tick_at = match cadence {
            Cadence::OnChange => now,
            Cadence::Periodic { interval_ms } => now.saturating_add(interval_ms),
        };
        self.subscriptions.push(Subscription { id, cadence, pending: false, next_tick_at });
        self.next_id = id + 1;
        Some(id)
    }
    /// The position of the subscription `id`, if it is registered.
    fn position(&self, id: u64) -> (r: Option<usize>)
        requires
            self.wf(),
        ensures
            r is Some <==> holds_subscription(self@.0, id),
            r matches Some(i) ==> i == subscription_index(self@.0, id),
    {
        let n = self.subscriptions.len();
        let mut i: usize = 0;
        while i < n
            invariant
                n == self.subscriptions@.len(),
                i <= n,
                registry_wf(self.subscriptions@, self.next_id),
                forall|k: int| 0 <= k < i ==> #[trigger] self.subscriptions@[k].id != id,
            decreases n - i,
        {
            if self.subscriptions[i].id == id {
                proof {
                    let s = self.subscriptions@;
                    assert(holds_subscription(s, id));
                    let j = subscription_index(s, id);
                    assert(s[j].id == s[i as int].id);
                }
                return Some(i);
            }
            i += 1;
        }
        None
    }

    /// Removes the subscription `id` and returns whether it was registered.
    /// Removing one that is gone already changes nothing.
    pub fn unsubscribe(&mut self, id: u64) -> (r: bool)
        requires
            old(self).wf(),
        ensures
            final(self).wf(),
            r == holds_subscription(old(self)@.0, id),
            final(self)@ == (without(old(self)@.0, id), old(self)@.1),
    {
        match self.position(id) {
            Some(i) => {
                let ghost s = self.subscriptions@;
                self.subscriptions.remove(i);
                proof {
                    let t = self.subscriptions@;
                    s.remove_ensures(i as int);
                    assert forall|a: int| 0 <= a < t.len() implies #[trigger] t[a].id
                        < self.next_id by {
                        if a < i {
                            assert(t[a] == s[a]);
                        } else {
                            assert(t[a] == s[a + 1]);
                        }
                    }
                    assert forall|a: int, b: int|
                        0 <= a < t.len() && 0 <= b < t.len() && a != b implies #[trigger] t[a].id
                        != #[trigger] t[b].id by {
                        let a1 = if a < i { a } else { a + 1 };
                        let b1 = if b < i { b } else { b + 1 };
                        assert(t[a] == s[a1] && t[b] == s[b1]);
                    }
                }
                true
            },
            None => false,
        }
    }

    /// Takes the notification waiting for subscriber `id`: returns whether
    /// one was waiting, and leaves its mailbox empty.
    pub fn take_notification(&mut self, id: u64) -> (r: bool)
        requires
            old(self).wf(),
        ensures
            final(self).wf(),
            final(self)@.1 == old(self)@.1,
            holds_subscription(old(self)@.0, id) ==> ({
                let i = subscription_index(old(self)@.0, id);
                let s = old(self)@.0[i];
                &&& r == s.pending
                &&& final(self)@.0 == old(self)@.0.update(
                    i,
                    Subscription { id: s.id, cadence: s.cadence, pending: false, next_tick_at: s.next_tick_at },
                )
            }),
            !holds_subscription(old(self)@.0, id) ==> !r && final(self)@ == old(self)@,
    {
        match self.position(id) {
            Some(i) => {
                let ghost s = self.subscriptions@;
                let mut sub = self.subscriptions[i];
                let was_pending = sub.pending;
                sub.pending = false;
                self.subscriptions.set(i, sub);
                proof {
                    let t = self.subscriptions@;
                    assert forall|a: int, b: int|
                        0 <= a < t.len() && 0 <= b < t.len() && a != b implies #[trigger] t[a].id
                        != #[trigger] t[b].id by {
                        assert(s[a].id != s[b].id);
                    }
                    assert forall|a: int| 0 <= a < t.len() implies #[trigger] t[a].id
                        < self.next_id by {
                        assert(s[a].id < self.next_id);
                    }
                }
                was_pending
            },
            None => false,
        }
    }
    /// Publishes a change of the presence table: every on-change subscriber
    /// gets a notification (coalesced with one still waiting), and their
    /// identifiers are returned, so that the caller can wake them. Nothing
    /// here waits on a subscriber.
    pub fn publish_change(&mut self) -> (r: Vec<u64>)
        requires
            old(self).wf(),
        ensures
            final(self).wf(),
            final(self)@.0 == old(self)@.0.map_values(|s: Subscription| after_change(s)),
            final(self)@.1 == old(self)@.1,
            r@ == change_targets(old(self)@.0),
    {
        let ghost s0 = self.subscriptions@;
        let n = self.subscriptions.len();
        let mut ids: Vec<u64> = Vec::new();
        let mut i: usize = 0;
        while i < n
            invariant
                n == s0.len(),
                self.subscriptions@.len() == n,
                i <= n,
                self.next_id == old(self)@.1,
                s0 == old(self)@.0,
                forall|k: int| 0 <= k < i ==> #[trigger] self.subscriptions@[k] == after_change(s0[k]),
                forall|k: int| i <= k < n ==> #[trigger] self.subscriptions@[k] == s0[k],
                ids@ == change_targets(s0.take(i as int)),
            decreases n - i,
        {
            let mut sub = self.subscriptions[i];
            match sub.cadence {
                Cadence::OnChange => {
                    sub.pending = true;
                    self.subscriptions.set(i, sub);
                    ids.push(sub.id);
                },
                Cadence::Periodic { .. } => {},
            }
            proof {
                assert(s0.take(i + 1).drop_last() == s0.take(i as int));
            }
            i += 1;
        }
        proof {
            assert(s0.take(n as int) == s0);
            let t = self.subscriptions@;
            assert(t =~= s0.map_values(|s: Subscription| after_change(s)));
            assert forall|a: int| 0 <= a < t.len() implies #[trigger] t[a].id == s0[a].id by {}
        }
        ids
    }

    /// Advances the clock to `now`: every periodic subscriber whose tick has
    /// come gets a notification and its next tick, and their identifiers are
    /// returned.
    pub fn tick(&mut self, now: u64) -> (r: Vec<u64>)
        requires
            old(self).wf(),
        ensures
            final(self).wf(),
            final(self)@.0 == old(self)@.0.map_values(|s: Subscription| after_tick(s, now)),
            final(self)@.1 == old(self)@.1,
            r@ == due_targets(old(self)@.0, now),
    {
        let ghost s0 = self.subscriptions@;
        let n = self.subscriptions.len();
        let mut ids: Vec<u64> = Vec::new();
        let mut i: usize = 0;
        while i < n
            invariant
                n == s0.len(),
                self.subscriptions@.len() == n,
                i <= n,
                self.next_id == old(self)@.1,
                s0 == old(self)@.0,
                forall|k: int|
                    0 <= k < i ==> #[trigger] self.subscriptions@[k] == after_tick(s0[k], now),
                forall|k: int| i <= k < n ==> #[trigger] self.subscriptions@[k] == s0[k],
                ids@ == due_targets(s0.take(i as int), now),
            decreases n - i,
        {
            let mut sub = self.subscriptions[i];
            match sub.cadence {
                Cadence::OnChange => {},
                Cadence::Periodic { interval_ms } => {
                    if sub.next_tick_at <= now {
                        sub.pending = true;
                        sub.next_tick_at = now.saturating_add(interval_ms);
                        self.subscriptions.set(i, sub);
                        ids.push(sub.id);
                    }
                },
            }
            proof {
                assert(s0.take(i + 1).drop_last() == s0.take(i as int));
            }
            i += 1;
        }
        proof {
            assert(s0.take(n as int) == s0);
            let t = self.subscriptions@;
            assert(t =~= s0.map_values(|s: Subscription| after_tick(s, now)));
            assert forall|a: int| 0 <= a < t.len() implies #[trigger] t[a].id == s0[a].id by {}
        }
        ids
    }
}

/// A subscription that `pick` selects has its identifier among the picked.
proof fn lemma_ids_where_contains(s: Seq<Subscription>, pick: spec_fn(Subscription) -> bool, i: int)
    requires
        0 <= i < s.len(),
        pick(s[i]),
    ensures
        ids_where(s, pick).contains(s[i].id),
    decreases s.len(),
{
    let r = ids_where(s, pick);
    if i == s.len() - 1 {
        assert(r[r.len() - 1] == s[i].id);
    } else {
        let d = s.drop_last();
        assert(d[i] == s[i]);
        lemma_ids_where_contains(d, pick, i);
        let rd = ids_where(d, pick);
        let k = choose|k: int| 0 <= k < rd.len() && rd[k] == s[i].id;
        assert(r[k] == s[i].id);
    }
}

/// Subscribing and at once unsubscribing leaves the registry as it was, so
/// a publish after the two reaches exactly the subscribers it reached
/// before, and leaves them in the same state.
pub proof fn lemma_subscribe_then_unsubscribe(
    s: Seq<Subscription>,
    next_id: u64,
    cadence: Cadence,
    now: u64,
)
    requires
        registry_wf(s, next_id),
        next_id < u64::MAX,
    ensures
        ({
            let back = without(s.push(new_subscription(next_id, cadence, now)), next_id);
            &&& back == s
            &&& change_targets(back) == change_targets(s)
            &&& back.map_values(|x: Subscription| after_change(x)) == s.map_values(
                |x: Subscription| after_change(x),
            )
        }),
{
    let t = s.push(new_subscription(next_id, cadence, now));
    let n = s.len() as int;
    assert(t[n].id == next_id);
    assert(holds_subscription(t, next_id));
    let j = subscription_index(t, next_id);
    if j < n {
        assert(s[j].id < next_id);
    }
    assert(t.remove(n) =~= s);
}

/// A subscriber whose delivery failed, or whose mailbox is still full, keeps
/// no other on-change subscriber from its next update: a publish reaches
/// `other` both while `failed` stays registered and after it was dropped.
pub proof fn lemma_failure_isolated(s: Seq<Subscription>, next_id: u64, failed: u64, other: u64)
    requires
        registry_wf(s, next_id),
        failed != other,
        holds_subscription(s, other),
        s[subscription_index(s, other)].cadence is OnChange,
    ensures
        change_targets(s).contains(other),
        s.map_values(|x: Subscription| after_change(x))[subscription_index(s, other)].pending,
        holds_subscription(without(s, failed), other),
        change_targets(without(s, failed)).contains(other),
        without(s, failed).map_values(|x: Subscription| after_change(x))[subscription_index(
            without(s, failed),
            other,
        )].pending,
{
    let pick = |x: Subscription| x.cadence is OnChange;
    let oi = subscription_index(s, other);
    lemma_ids_where_contains(s, pick, oi);
    let rest = without(s, failed);
    if holds_subscription(s, failed) {
        let fi = subscription_index(s, failed);
        s.remove_ensures(fi);
        assert(fi != oi);
        let at = if oi < fi { oi } else { oi - 1 };
        assert(rest[at] == s[oi]);
        assert(holds_subscription(rest, other));
        let j = subscription_index(rest, other);
        let m = if j < fi { j } else { j + 1 };
        assert(rest[j] == s[m]);
        assert(s[m].id == s[oi].id);
        lemma_ids_where_contains(rest, pick, j);
    } else {
        lemma_ids_where_contains(rest, pick, oi);
    }
}

} // verus!
