use vstd::prelude::*;
use vstd::rwlock::{RwLock, RwLockPredicate};
use std::sync::Arc;
use std::sync::mpsc::{Receiver, SyncSender};
use std::time::Duration;
use crate::channel::{
    bounded_channel, holders, look, offer_to, outcomes_of, share, wait_at_most, wait_until_message,
    BlockingWait, Offered, Polled, TimedWait,
};
use crate::delivery::{
    all_received, blocking_answer, drain_step, drained, lemma_drained_push, summary_of, tally,
    PollOutcome, PublishResult, SendOutcome,
};
use crate::error::{OmnibusError, Result};
use crate::event::Event;
use crate::filter::Filter;
use crate::registry::{
    is_channel_of_admitting, law_offers_reach_exactly_the_admitting, lawful_eq, marked, routing, Registry, Subscription,
};

verus! {

/// The per-subscriber channel capacity of `Bus::new`.
pub const DEFAULT_CAPACITY: usize = 64;

/// Where the bus sends the events of one subscription: the sending half of
/// its channel, and a token that its receiver holds a second pointer to for as
/// long as it lives.
#[verifier::reject_recursive_types(O)]
#[verifier::reject_recursive_types(K)]
#[verifier::reject_recursive_types(T)]
pub struct Outlet<O, K, T> {
    tx: SyncSender<Arc<Event<O, K, T>>>,
    alive: Arc<()>,
}

impl<O, K, T> Outlet<O, K, T> {
    /// The channel that events for this subscription are sent on.
    pub closed spec fn channel(&self) -> SyncSender<Arc<Event<O, K, T>>> {
        self.tx
    }
}

/// Reads the channel off an outlet.
pub open spec fn outlet_channel<O, K, T>() -> spec_fn(Outlet<O, K, T>) -> SyncSender<
    Arc<Event<O, K, T>>,
> {
    |o: Outlet<O, K, T>| o.channel()
}

/// Any table of subscriptions may sit in the bus's lock.
struct AnyRegistry;

impl<O, K, S> RwLockPredicate<Registry<O, K, S>> for AnyRegistry {
    open spec fn inv(self, v: Registry<O, K, S>) -> bool {
        true
    }
}

/// The state that all clones of a bus share.
#[verifier::reject_recursive_types(O)]
#[verifier::reject_recursive_types(K)]
#[verifier::reject_recursive_types(T)]
struct BusInner<O, K, T> {
    subscribers: RwLock<Registry<O, K, Outlet<O, K, T>>, AnyRegistry>,
    capacity: usize,
}

/// An in-process publish/subscribe bus. Clones share one table of
/// subscriptions.
#[verifier::reject_recursive_types(O)]
#[verifier::reject_recursive_types(K)]
#[verifier::reject_recursive_types(T)]
pub struct Bus<O, K, T> {
    inner: Arc<BusInner<O, K, T>>,
}

impl<O, K, T> Bus<O, K, T> {
    /// How many events each subscriber's channel holds before new ones are
    /// dropped for it.
    pub closed spec fn channel_capacity(&self) -> usize {
        self.inner.capacity
    }
}

impl<O, K, T> Clone for Bus<O, K, T> {
    /// Another handle on the same bus.
    fn clone(&self) -> (r: Self)
        ensures
            r == *self,
    {
        Bus { inner: share(&self.inner) }
    }
}

/// The keep marks for observed holder counts of the liveness tokens: a
/// subscription stays while its token has a holder besides the table.
pub open spec fn marks_for(counts: Seq<usize>) -> Seq<bool> {
    Seq::new(counts.len(), |i: int| counts[i] > 1)
}

/// Turns the holder count of each subscription's liveness token into whether
/// the subscription stays: it stays exactly when someone besides the table
/// holds the token, that is when its receiver is still alive.
pub fn alive_marks(counts: &Vec<usize>) -> (keep: Vec<bool>)
    ensures
        keep@ == marks_for(counts@),
{
    let mut keep: Vec<bool> = Vec::new();
    let mut i: usize = 0;
    while i < counts.len()
        invariant
            i <= counts.len(),
            keep@ == marks_for(counts@.take(i as int)),
        decreases counts.len() - i,
    {
        keep.push(counts[i] > 1);
        i = i + 1;
        proof {
            assert(keep@ =~= marks_for(counts@.take(i as int)));
        }
    }
    proof {
        assert(counts@.take(counts.len() as int) =~= counts@);
    }
    keep
}

/// Unregisters the subscriptions whose receiver has been dropped: it reads
/// the holder count of each subscription's liveness token (at least one, the
/// table's own), marks by `alive_marks`, and keeps the marked ones, in order.
fn prune_dead<O, K, T>(table: &mut Registry<O, K, Outlet<O, K, T>>)
    ensures
        exists|counts: Seq<usize>|
            {
                &&& counts.len() == old(table).subscriptions().len()
                &&& forall|i: int| 0 <= i < counts.len() ==> #[trigger] counts[i] >= 1
                &&& final(table).subscriptions() == marked(
                    old(table).subscriptions(),
                    marks_for(counts),
                )
            },
{
    let mut counts: Vec<usize> = Vec::new();
    let mut i: usize = 0;
    while i < table.len()
        invariant
            i <= table.subscriptions().len(),
            counts.len() == i,
            forall|k: int| 0 <= k < counts.len() ==> #[trigger] counts[k] >= 1,
        decreases table.subscriptions().len() - i,
    {
        counts.push(holders(&table.sender_at(i).alive));
        i = i + 1;
    }
    let keep = alive_marks(&counts);
    table.retain_marked(&keep);
}

/// Offers the event to each subscription that `Registry::route` picks in the
/// table, in order, and returns the record of each offer. When `==` on
/// origins and kinds is lawful, the `i`-th offer goes to the channel of the
/// subscription at position `routing(..)[i]`: every channel offered the event
/// belongs to a subscription whose filters admit it, and every such
/// subscription is offered it, once.
pub fn fan_out<O: Clone + PartialEq, K: Clone + PartialEq, T: Clone>(
    table: &Registry<O, K, Outlet<O, K, T>>,
    event: &Arc<Event<O, K, T>>,
) -> (offers: Vec<Offered<Arc<Event<O, K, T>>>>)
    ensures
        offers.len() <= table.subscriptions().len(),
        lawful_eq::<O, K>() ==> offers.len() == routing(
            table.subscriptions(),
            event.origin_value(),
            event.kind_value(),
        ).len(),
        lawful_eq::<O, K>() ==> forall|i: int|
            0 <= i < offers.len() ==> #[trigger] offers[i].sent_on() == (*table.subscriptions()[routing(
                table.subscriptions(),
                event.origin_value(),
                event.kind_value(),
            )[i]].sender).channel(),
        lawful_eq::<O, K>() ==> forall|i: int|
            0 <= i < offers.len() ==> #[trigger] is_channel_of_admitting(
                table.subscriptions(),
                event.origin_value(),
                event.kind_value(),
                offers[i].sent_on(),
                outlet_channel::<O, K, T>(),
            ),
        lawful_eq::<O, K>() ==> forall|k: int|
            0 <= k < table.subscriptions().len() && #[trigger] table.subscriptions()[k].routes(
                event.origin_value(),
                event.kind_value(),
            ) ==> exists|i: int|
                0 <= i < offers.len() && offers[i].sent_on() == (
                *table.subscriptions()[k].sender).channel(),
{
    let hits = table.route(event.origin(), event.kind());
    let ghost subs = table.subscriptions();
    let mut offers: Vec<Offered<Arc<Event<O, K, T>>>> = Vec::new();
    let mut i: usize = 0;
    while i < hits.len()
        invariant
            i <= hits.len(),
            offers.len() == i,
            subs == table.subscriptions(),
            forall|a: int| 0 <= a < hits.len() ==> hits[a] < subs.len(),
            forall|a: int|
                0 <= a < i ==> #[trigger] offers[a].sent_on() == (*subs[hits[a] as int].sender).channel(),
        decreases hits.len() - i,
    {
        let outlet = table.sender_at(hits[i]);
        offers.push(offer_to(&outlet.tx, share(event)));
        i = i + 1;
    }
    proof {
        // positions are distinct and in range, so there are no more of them than subscriptions
        lemma_increasing_bounded(hits@, subs.len());
        if lawful_eq::<O, K>() {
            let origin = event.origin_value();
            let kind = event.kind_value();
            let r = routing(subs, origin, kind);
            assert(hits@.map_values(|x: usize| x as int).len() == hits.len());
            assert forall|a: int| 0 <= a < hits.len() implies r[a] == hits[a] as int by {
                assert(hits@.map_values(|x: usize| x as int)[a] == hits[a] as int);
            }
            let sent = offers@.map_values(|o: Offered<Arc<Event<O, K, T>>>| o.sent_on());
            let chan = outlet_channel::<O, K, T>();
            assert forall|a: int| 0 <= a < sent.len() implies sent[a] == chan(*subs[r[a]].sender) by {
                assert(sent[a] == offers[a].sent_on());
            }
            law_offers_reach_exactly_the_admitting(subs, origin, kind, sent, chan);
            assert forall|a: int| 0 <= a < offers.len() implies #[trigger] is_channel_of_admitting(
                subs,
                origin,
                kind,
                offers[a].sent_on(),
                chan,
            ) by {
                assert(sent[a] == offers[a].sent_on());
            }
            assert forall|k: int|
                0 <= k < subs.len() && #[trigger] subs[k].routes(origin, kind) implies exists|a: int|
                0 <= a < offers.len() && offers[a].sent_on() == (*subs[k].sender).channel() by {
                let a = choose|a: int| 0 <= a < sent.len() && r[a] == k && sent[a] == chan(*subs[k].sender);
                assert(sent[a] == offers[a].sent_on());
            }
        }
    }
    offers
}

/// A strictly increasing sequence of positions below `n` has at most `n`
/// entries.
proof fn lemma_increasing_bounded(s: Seq<usize>, n: nat)
    requires
        forall|a: int, b: int| 0 <= a < b < s.len() ==> s[a] < s[b],
        forall|a: int| 0 <= a < s.len() ==> s[a] < n,
    ensures
        s.len() <= n,
    decreases s.len(),
{
    if s.len() > 0 {
        let rest = s.drop_last();
        assert forall|a: int| 0 <= a < rest.len() implies rest[a] < s.last() as nat by {
            assert(rest[a] == s[a]);
        }
        lemma_increasing_bounded(rest, s.last() as nat);
    }
}

impl<O: Clone + Eq, K: Clone + Eq, T: Clone> Bus<O, K, T> {
    /// Creates a bus with a per-subscriber channel capacity of 64.
    pub fn new() -> (b: Self)
        ensures
            b.channel_capacity() == DEFAULT_CAPACITY,
    {
        Self::with_capacity(DEFAULT_CAPACITY)
    }

    /// Creates a bus whose per-subscriber channels each hold `capacity` events
    /// before silently dropping new ones for that subscriber.
    pub fn with_capacity(capacity: usize) -> (b: Self)
        ensures
            b.channel_capacity() == capacity,
    {
        let subscribers = RwLock::new(Registry::new(), Ghost(AnyRegistry));
        Bus { inner: Arc::new(BusInner { subscribers, capacity }) }
    }

    /// Registers a subscription for the events that pass both filters and
    /// returns its receiving end, which holds the very filters given and a
    /// handle on this bus. Subscriptions whose receiver has been dropped are
    /// unregistered on the way.
    pub fn subscribe(&self, origin: Filter<O>, kind: Filter<K>) -> (r: Result<BusReceiver<O, K, T>>)
        ensures
            r is Ok,
            r matches Ok(rx) ==> {
                &&& rx.origin_filter() == origin
                &&& rx.kind_filter() == kind
                &&& rx.bus() == *self
            },
    {
        let (tx, rx) = bounded_channel(self.inner.capacity);
        let alive = Arc::new(());
        let outlet = Outlet { tx, alive: share(&alive) };
        let origin_key = origin.clone();
        let kind_key = kind.clone();
        let (mut table, handle) = self.inner.subscribers.acquire_write();
        prune_dead(&mut table);
        table.insert(origin_key, kind_key, outlet);
        handle.release_write(table);
        Ok(BusReceiver { bus: self.clone(), origin, kind, rx, _alive: alive })
    }

    /// Hands the event to every subscription whose filters admit it and
    /// reports how many channels took it and how many were full.
    /// Subscriptions whose receiver has been dropped count as neither, and
    /// are then unregistered.
    pub fn publish(&self, event: Event<O, K, T>) -> (r: Result<PublishResult>)
        ensures
            r is Ok,
            r matches Ok(p) ==> exists|outcomes: Seq<SendOutcome>| p == summary_of(outcomes),
            lawful_eq::<O, K>() ==> (r matches Ok(p) ==> exists|
                snapshot: Seq<Subscription<O, K, Outlet<O, K, T>>>,
                outcomes: Seq<SendOutcome>,
            |
                {
                    &&& outcomes.len() == routing(
                        snapshot,
                        event.origin_value(),
                        event.kind_value(),
                    ).len()
                    &&& p == summary_of(outcomes)
                }),
    {
        let event = Arc::new(event);
        // Copy the table under the lock, sharing its parts, and route outside it,
        // so that no code of `O` or `K` runs while the lock is held.
        let reading = self.inner.subscribers.acquire_read();
        let table = reading.borrow().snapshot();
        reading.release_read();
        let ghost snapshot = table.subscriptions();
        let offers = fan_out(&table, &event);
        let outcomes = outcomes_of(&offers);
        let summary = tally(&outcomes);
        if summary.delivered + summary.dropped < outcomes.len() {
            let (mut table, handle) = self.inner.subscribers.acquire_write();
            prune_dead(&mut table);
            handle.release_write(table);
        }
        proof {
            if lawful_eq::<O, K>() {
                assert({
                    &&& outcomes@.len() == routing(
                        snapshot,
                        event.origin_value(),
                        event.kind_value(),
                    ).len()
                    &&& summary == summary_of(outcomes@)
                });
            }
        }
        Ok(summary)
    }
}

impl<O: Clone + Eq, K: Clone + Eq, T: Clone> Default for Bus<O, K, T> {
    /// Same as `Bus::new`.
    fn default() -> (r: Self)
        ensures
            r.channel_capacity() == DEFAULT_CAPACITY,
    {
        Self::new()
    }
}

/// The receiving end of one subscription. Dropping it closes its channel:
/// the bus counts it as neither delivered nor dropped from then on, and
/// unregisters it at its next `subscribe`, or at a `publish` that finds a
/// closed channel.
#[verifier::reject_recursive_types(O)]
#[verifier::reject_recursive_types(K)]
#[verifier::reject_recursive_types(T)]
pub struct BusReceiver<O, K, T> {
    bus: Bus<O, K, T>,
    origin: Filter<O>,
    kind: Filter<K>,
    rx: Receiver<Arc<Event<O, K, T>>>,
    _alive: Arc<()>,
}

impl<O, K, T> BusReceiver<O, K, T> {
    /// The bus this subscription was made on.
    pub closed spec fn bus(&self) -> Bus<O, K, T> {
        self.bus
    }

    /// The origin filter of this subscription.
    pub closed spec fn origin_filter(&self) -> Filter<O> {
        self.origin
    }

    /// The kind filter of this subscription.
    pub closed spec fn kind_filter(&self) -> Filter<K> {
        self.kind
    }

    /// The channel this subscription's events arrive on.
    pub closed spec fn channel(&self) -> Receiver<Arc<Event<O, K, T>>> {
        self.rx
    }
}

impl<O: Clone + Eq, K: Clone + Eq, T: Clone> BusReceiver<O, K, T> {
    /// Creates a new independent subscription on the same bus with the same
    /// filters.
    pub fn resubscribe(&self) -> (r: Result<BusReceiver<O, K, T>>)
        ensures
            r is Ok,
            r matches Ok(rx) ==> {
                &&& rx.origin_filter().is_clone_of(self.origin_filter())
                &&& rx.kind_filter().is_clone_of(self.kind_filter())
                &&& rx.bus() == self.bus()
            },
    {
        self.bus.subscribe(self.origin.clone(), self.kind.clone())
    }

    /// Non-blocking receive: the oldest queued event, `Ok(None)` when nothing is
    /// queued, `Disconnected` when the channel has closed.
    pub fn recv(&self) -> (r: Result<Option<Arc<Event<O, K, T>>>>)
        ensures
            r matches Err(e) ==> e == OmnibusError::Disconnected,
            exists|p: Polled<Arc<Event<O, K, T>>>|
                p.looked_at() == self.channel() && r == p.found().answer(),
    {
        let p = look(&self.rx);
        let ghost seen = p;
        let r = p.into_outcome().into_answer();
        proof {
            assert(seen.looked_at() == self.channel() && r == seen.found().answer());
        }
        r
    }

    /// Blocking receive: waits until an event arrives, or fails with
    /// `Disconnected` when the channel has closed.
    pub fn recv_blocking(&self) -> (r: Result<Arc<Event<O, K, T>>>)
        ensures
            r matches Err(e) ==> e == OmnibusError::Disconnected,
            exists|w: BlockingWait<Arc<Event<O, K, T>>>|
                {
                    &&& w.waited_on() == self.channel()
                    &&& match w.brought() {
                        Some(m) => r == Ok::<Arc<Event<O, K, T>>, OmnibusError>(m),
                        None => r == Err::<Arc<Event<O, K, T>>, OmnibusError>(
                            OmnibusError::Disconnected,
                        ),
                    }
                },
    {
        let w = wait_until_message(&self.rx);
        let ghost seen = w;
        let r = blocking_answer(w.into_received());
        proof {
            assert(seen.waited_on() == self.channel());
        }
        r
    }

    /// Blocking receive with timeout: `Ok(None)` when nothing arrives within
    /// `timeout`.
    pub fn recv_timeout(&self, timeout: Duration) -> (r: Result<Option<Arc<Event<O, K, T>>>>)
        ensures
            r matches Err(e) ==> e == OmnibusError::Disconnected,
            exists|w: TimedWait<Arc<Event<O, K, T>>>|
                {
                    &&& w.waited_on() == self.channel()
                    &&& w.limit() == timeout
                    &&& r == w.found().answer()
                },
    {
        let w = wait_at_most(&self.rx, timeout);
        let ghost seen = w;
        let r = w.into_outcome().into_answer();
        proof {
            assert(seen.waited_on() == self.channel() && seen.limit() == timeout && r
                == seen.found().answer());
        }
        r
    }

    /// Takes the queued events, oldest first, without blocking: it looks at
    /// the channel again and again, keeping each event found by `drain_step`,
    /// until a look finds nothing (or a `Vec` could hold no more). The result
    /// is what `drained` takes from those looks, all made on this
    /// subscription's channel, the last of which found nothing.
    pub fn drain(&self) -> (r: Vec<Arc<Event<O, K, T>>>)
        ensures
            exists|looks: Seq<Polled<Arc<Event<O, K, T>>>>|
                {
                    &&& forall|i: int|
                        0 <= i < looks.len() ==> #[trigger] looks[i].looked_at() == self.channel()
                    &&& r@ == drained(looks.map_values(|p: Polled<Arc<Event<O, K, T>>>| p.found()))
                    &&& r.len() == usize::MAX || (looks.len() == r.len() + 1 && !(
                    looks.last().found() is Received))
                },
    {
        let limit = usize::MAX;
        let mut out: Vec<Arc<Event<O, K, T>>> = Vec::new();
        let ghost mut looks: Seq<Polled<Arc<Event<O, K, T>>>> = Seq::empty();
        let mut stopped = false;
        while !stopped && out.len() < limit
            invariant
                out.len() <= limit,
                limit == usize::MAX,
                forall|i: int| 0 <= i < looks.len() ==> #[trigger] looks[i].looked_at() == self.channel(),
                out@ == drained(looks.map_values(|p: Polled<Arc<Event<O, K, T>>>| p.found())),
                !stopped ==> looks.len() == out.len() && all_received(
                    looks.map_values(|p: Polled<Arc<Event<O, K, T>>>| p.found()),
                ),
                stopped ==> looks.len() == out.len() + 1 && !(looks.last().found() is Received),
            decreases limit - out.len(), if stopped { 0nat } else { 1nat },
        {
            let p = look(&self.rx);
            let ghost seen = p;
            let ghost before = looks;
            let ghost outs = before.map_values(|q: Polled<Arc<Event<O, K, T>>>| q.found());
            proof {
                lemma_drained_push(outs, seen.found());
            }
            let more = drain_step(&mut out, p.into_outcome());
            proof {
                looks = looks.push(seen);
                assert(looks.map_values(|q: Polled<Arc<Event<O, K, T>>>| q.found()) =~= outs.push(
                    seen.found(),
                ));
                let now = looks.map_values(|q: Polled<Arc<Event<O, K, T>>>| q.found());
                if more {
                    assert forall|i: int| 0 <= i < now.len() implies #[trigger] now[i] is Received by {
                        if i < before.len() {
                            assert(outs[i] is Received);
                        }
                    }
                }
                assert forall|i: int| 0 <= i < looks.len() implies #[trigger] looks[i].looked_at()
                    == self.channel() by {
                    if i < before.len() {
                        assert(looks[i] == before[i]);
                    }
                }
            }
            stopped = !more;
        }
        out
    }
}

} // verus!
