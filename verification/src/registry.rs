use vstd::prelude::*;
use vstd::std_specs::cmp::PartialEqSpec;
use std::sync::Arc;
use crate::channel::share;
use crate::filter::Filter;

verus! {

/// One registered subscription: its two filters, and the handle that events
/// for it are sent through. Each part sits behind an `Arc`, so that a copy of
/// the table can be taken without running any code of `O`, `K` or `S`.
pub struct Subscription<O, K, S> {
    pub origin: Arc<Filter<O>>,
    pub kind: Arc<Filter<K>>,
    pub sender: Arc<S>,
}

impl<O, K, S> Subscription<O, K, S> {
    /// An event with this origin and kind is routed to the subscription exactly
    /// when both filters admit it.
    pub open spec fn routes(self, origin: O, kind: K) -> bool
        where O: PartialEq, K: PartialEq
    {
        self.origin.admits(origin) && self.kind.admits(kind)
    }
}

/// `==` on origins and kinds behaves as their `PartialEq` specification says.
pub open spec fn lawful_eq<O: PartialEq, K: PartialEq>() -> bool {
    O::obeys_eq_spec() && K::obeys_eq_spec()
}

/// The subscriptions of `subs` whose mark in `keep` is `true`, in order.
pub open spec fn marked<O, K, S>(subs: Seq<Subscription<O, K, S>>, keep: Seq<bool>) -> Seq<
    Subscription<O, K, S>,
>
    decreases subs.len(),
{
    if subs.len() == 0 || keep.len() == 0 {
        Seq::empty()
    } else {
        let rest = marked(subs.drop_last(), keep.drop_last());
        if keep.last() {
            rest.push(subs.last())
        } else {
            rest
        }
    }
}

/// Positions, in increasing order, of the subscriptions in `subs` that route
/// an event with this origin and kind.
pub open spec fn routing<O: PartialEq, K: PartialEq, S>(
    subs: Seq<Subscription<O, K, S>>,
    origin: O,
    kind: K,
) -> Seq<int>
    decreases subs.len(),
{
    if subs.len() == 0 {
        Seq::empty()
    } else {
        let rest = routing(subs.drop_last(), origin, kind);
        if subs.last().routes(origin, kind) {
            rest.push(subs.len() - 1)
        } else {
            rest
        }
    }
}

/// The routing table of the bus: an event goes to a subscription exactly when
/// the origin filter admits its origin and the kind filter admits its kind,
/// and it goes there once.
pub proof fn law_routing_exact<O: PartialEq, K: PartialEq, S>(
    subs: Seq<Subscription<O, K, S>>,
    origin: O,
    kind: K,
)
    ensures
        forall|k: int|
            0 <= k < subs.len() ==> (routing(subs, origin, kind).contains(k) <==> #[trigger] subs[k].routes(
                origin,
                kind,
            )),
        forall|a: int, b: int|
            0 <= a < b < routing(subs, origin, kind).len() ==> routing(subs, origin, kind)[a]
                < routing(subs, origin, kind)[b],
        forall|a: int|
            0 <= a < routing(subs, origin, kind).len() ==> 0 <= #[trigger] routing(
                subs,
                origin,
                kind,
            )[a] < subs.len(),
    decreases subs.len(),
{
    if subs.len() > 0 {
        let rest = subs.drop_last();
        let rr = routing(rest, origin, kind);
        law_routing_exact(rest, origin, kind);
        let r = routing(subs, origin, kind);
        assert forall|k: int| 0 <= k < subs.len() implies (r.contains(k) <==> #[trigger] subs[k].routes(
            origin,
            kind,
        )) by {
            if k < subs.len() - 1 {
                assert(rest[k] == subs[k]);
                if r.contains(k) {
                    let w = choose|w: int| 0 <= w < r.len() && r[w] == k;
                    if w < rr.len() {
                        assert(rr[w] == k);
                    }
                }
                if rr.contains(k) {
                    let w = choose|w: int| 0 <= w < rr.len() && rr[w] == k;
                    assert(r[w] == k);
                }
            } else {
                if subs[k].routes(origin, kind) {
                    assert(r[r.len() - 1] == k);
                } else {
                    assert(r == rr);
                }
            }
        }
    }
}

/// `n` marks, all `true`.
pub open spec fn all_kept(n: nat) -> Seq<bool> {
    Seq::new(n, |i: int| true)
}

/// `c` is the channel (as `chan` reads it off a sender) of some subscription
/// in `subs` whose filters admit an event with this origin and kind.
pub open spec fn is_channel_of_admitting<O: PartialEq, K: PartialEq, S, C>(
    subs: Seq<Subscription<O, K, S>>,
    origin: O,
    kind: K,
    c: C,
    chan: spec_fn(S) -> C,
) -> bool {
    exists|k: int|
        0 <= k < subs.len() && #[trigger] subs[k].routes(origin, kind) && c == chan(*subs[k].sender)
}

/// Offering along `routing` reaches exactly the subscriptions whose filters
/// admit the event: when the `i`-th offer goes to the channel `chan` of the
/// subscription at `routing(..)[i]`, every channel offered belongs to an
/// admitting subscription, every admitting subscription is offered at its own
/// position, and no position is offered twice.
pub proof fn law_offers_reach_exactly_the_admitting<O: PartialEq, K: PartialEq, S, C>(
    subs: Seq<Subscription<O, K, S>>,
    origin: O,
    kind: K,
    sent: Seq<C>,
    chan: spec_fn(S) -> C,
)
    requires
        sent.len() == routing(subs, origin, kind).len(),
        forall|i: int|
            0 <= i < sent.len() ==> #[trigger] sent[i] == chan(
                *subs[routing(subs, origin, kind)[i]].sender,
            ),
    ensures
        forall|i: int|
            0 <= i < sent.len() ==> #[trigger] is_channel_of_admitting(
                subs,
                origin,
                kind,
                sent[i],
                chan,
            ),
        forall|k: int|
            0 <= k < subs.len() && #[trigger] subs[k].routes(origin, kind) ==> exists|i: int|
                0 <= i < sent.len() && routing(subs, origin, kind)[i] == k && sent[i] == chan(
                    *subs[k].sender,
                ),
        forall|i: int, j: int|
            0 <= i < j < sent.len() ==> routing(subs, origin, kind)[i] != routing(
                subs,
                origin,
                kind,
            )[j],
{
    let r = routing(subs, origin, kind);
    assert forall|i: int| 0 <= i < sent.len() implies #[trigger] is_channel_of_admitting(
        subs,
        origin,
        kind,
        sent[i],
        chan,
    ) by {
        law_routing_exact(subs, origin, kind);
        let k = r[i];
        assert(0 <= k < subs.len());
        assert(r.contains(k));
        assert(subs[k].routes(origin, kind));
        assert(sent[i] == chan(*subs[k].sender));
    }
    assert forall|k: int| 0 <= k < subs.len() && #[trigger] subs[k].routes(origin, kind) implies exists|i: int|
        0 <= i < sent.len() && r[i] == k && sent[i] == chan(*subs[k].sender) by {
        law_routing_exact(subs, origin, kind);
        assert(r.contains(k));
        let i = choose|i: int| 0 <= i < r.len() && r[i] == k;
        assert(sent[i] == chan(*subs[r[i]].sender));
    }
    assert forall|i: int, j: int| 0 <= i < j < sent.len() implies r[i] != r[j] by {
        law_routing_exact(subs, origin, kind);
    }
}

/// Keeping every position leaves the table as it is.
pub proof fn law_keep_all_changes_nothing<O, K, S>(subs: Seq<Subscription<O, K, S>>)
    ensures
        marked(subs, all_kept(subs.len())) == subs,
    decreases subs.len(),
{
    if subs.len() > 0 {
        let rest = subs.drop_last();
        law_keep_all_changes_nothing(rest);
        assert(all_kept(subs.len()).drop_last() =~= all_kept(rest.len()));
        assert(rest.push(subs.last()) =~= subs);
    }
}

/// Unregistering a subscription right after registering it gives back the
/// table as it was.
pub proof fn law_unsubscribe_undoes_subscribe<O, K, S>(
    subs: Seq<Subscription<O, K, S>>,
    sub: Subscription<O, K, S>,
)
    ensures
        marked(subs.push(sub), all_kept(subs.len()).push(false)) == subs,
{
    law_keep_all_changes_nothing(subs);
    assert(subs.push(sub).drop_last() =~= subs);
    assert(all_kept(subs.len()).push(false).drop_last() =~= all_kept(subs.len()));
}

/// A kept subscription is one that was there and was marked: the table after
/// pruning holds, in their old order, exactly the marked subscriptions, and
/// as many as there were `true` marks.
pub proof fn law_marked_keeps_exactly<O, K, S>(
    subs: Seq<Subscription<O, K, S>>,
    keep: Seq<bool>,
)
    requires
        keep.len() == subs.len(),
    ensures
        marked(subs, keep).len() == keep.filter(|b: bool| b).len(),
        forall|x: Subscription<O, K, S>| #[trigger]
            marked(subs, keep).contains(x) ==> subs.contains(x),
        forall|i: int| 0 <= i < subs.len() && keep[i] ==> marked(subs, keep).contains(
            #[trigger] subs[i],
        ),
    decreases subs.len(),
{
    reveal(Seq::filter);
    if subs.len() > 0 {
        let rest = subs.drop_last();
        let krest = keep.drop_last();
        law_marked_keeps_exactly(rest, krest);
        let m = marked(subs, keep);
        let mr = marked(rest, krest);
        assert forall|x: Subscription<O, K, S>| #[trigger] m.contains(x) implies subs.contains(
            x,
        ) by {
            if mr.contains(x) {
                let w = choose|w: int| 0 <= w < rest.len() && rest[w] == x;
                assert(subs[w] == x);
            } else {
                assert(x == subs.last());
                assert(subs[subs.len() - 1] == x);
            }
        }
        assert forall|i: int| 0 <= i < subs.len() && keep[i] implies m.contains(
            #[trigger] subs[i],
        ) by {
            if i < subs.len() - 1 {
                assert(rest[i] == subs[i]);
                assert(krest[i] == keep[i]);
                assert(mr.contains(rest[i]));
                let w = choose|w: int| 0 <= w < mr.len() && mr[w] == rest[i];
                assert(m[w] == subs[i]);
            } else {
                assert(m[m.len() - 1] == subs[i]);
            }
        }
    }
}

/// The table of subscriptions of a bus, in the order they were made.
pub struct Registry<O, K, S> {
    entries: Vec<Subscription<O, K, S>>,
}

impl<O, K, S> Registry<O, K, S> {
    /// The live subscriptions, oldest first.
    pub closed spec fn subscriptions(&self) -> Seq<Subscription<O, K, S>> {
        self.entries@
    }

    /// An empty table.
    pub fn new() -> (r: Self)
        ensures
            r.subscriptions() == Seq::<Subscription<O, K, S>>::empty(),
    {
        Registry { entries: Vec::new() }
    }

    /// Number of live subscriptions.
    pub fn len(&self) -> (n: usize)
        ensures
            n == self.subscriptions().len(),
    {
        self.entries.len()
    }

    /// Registers a subscription after the existing ones.
    pub fn insert(&mut self, origin: Filter<O>, kind: Filter<K>, sender: S)
        ensures
            final(self).subscriptions().len() == old(self).subscriptions().len() + 1,
            final(self).subscriptions().drop_last() == old(self).subscriptions(),
            *final(self).subscriptions().last().origin == origin,
            *final(self).subscriptions().last().kind == kind,
            *final(self).subscriptions().last().sender == sender,
    {
        self.entries.push(
            Subscription { origin: Arc::new(origin), kind: Arc::new(kind), sender: Arc::new(sender) },
        );
        proof {
            assert(self.entries@.drop_last() =~= old(self).entries@);
        }
    }

    /// Another table holding the same subscriptions, sharing every part with
    /// this one; no code of `O`, `K` or `S` runs.
    pub fn snapshot(&self) -> (r: Self)
        ensures
            r.subscriptions() == self.subscriptions(),
    {
        let mut entries: Vec<Subscription<O, K, S>> = Vec::new();
        let mut i: usize = 0;
        while i < self.entries.len()
            invariant
                i <= self.entries.len(),
                entries@ == self.entries@.take(i as int),
            decreases self.entries.len() - i,
        {
            let sub = &self.entries[i];
            entries.push(
                Subscription {
                    origin: share(&sub.origin),
                    kind: share(&sub.kind),
                    sender: share(&sub.sender),
                },
            );
            i = i + 1;
            proof {
                assert(entries@ =~= self.entries@.take(i as int));
            }
        }
        proof {
            assert(self.entries@.take(self.entries.len() as int) =~= self.entries@);
        }
        Registry { entries }
    }

    /// Keeps the subscriptions whose mark in `keep` (one mark per position)
    /// is `true`, in order, and unregisters the others.
    pub fn retain_marked(&mut self, keep: &Vec<bool>)
        requires
            keep.len() == old(self).subscriptions().len(),
        ensures
            final(self).subscriptions() == marked(old(self).subscriptions(), keep@),
    {
        let ghost orig = self.entries@;
        let mut i: usize = 0;
        let mut j: usize = 0;
        proof {
            assert(orig.take(0) =~= Seq::<Subscription<O, K, S>>::empty());
            assert(orig.skip(0) =~= orig);
            assert(marked(orig.take(0), keep@.take(0)) + orig.skip(0) =~= orig);
        }
        while j < keep.len()
            invariant
                j <= keep.len(),
                keep.len() == orig.len(),
                i == marked(orig.take(j as int), keep@.take(j as int)).len(),
                self.entries@ == marked(orig.take(j as int), keep@.take(j as int)) + orig.skip(
                    j as int,
                ),
            decreases keep.len() - j,
        {
            let ghost done = marked(orig.take(j as int), keep@.take(j as int));
            proof {
                assert(orig.take(j + 1).drop_last() =~= orig.take(j as int));
                assert(keep@.take(j + 1).drop_last() =~= keep@.take(j as int));
                assert(orig.take(j + 1).last() == orig[j as int]);
                assert(keep@.take(j + 1).last() == keep@[j as int]);
                assert(self.entries@[i as int] == orig[j as int]);
                assert(i < self.entries.len());
            }
            if keep[j] {
                proof {
                    assert(done.push(orig[j as int]) + orig.skip(j + 1) =~= done + orig.skip(
                        j as int,
                    ));
                }
                i = i + 1;
            } else {
                let _gone = self.entries.remove(i);
                proof {
                    assert(self.entries@ =~= done + orig.skip(j + 1));
                }
            }
            j = j + 1;
        }
        proof {
            assert(orig.take(orig.len() as int) =~= orig);
            assert(keep@.take(orig.len() as int) =~= keep@);
            assert(orig.skip(orig.len() as int) =~= Seq::<Subscription<O, K, S>>::empty());
            assert(self.entries@ =~= marked(orig, keep@));
        }
    }

    /// The sending handle of the subscription at position `i`.
    pub fn sender_at(&self, i: usize) -> (s: &S)
        requires
            i < self.subscriptions().len(),
        ensures
            *s == *self.subscriptions()[i as int].sender,
    {
        &*self.entries[i].sender
    }

    /// Positions of the subscriptions that an event with this origin and kind
    /// goes to, in increasing order, each at most once. A subscription with
    /// two `Any` filters is always among them; when `==` on origins and kinds
    /// is lawful, they are exactly the subscriptions whose filters admit the
    /// event.
    pub fn route(&self, origin: &O, kind: &K) -> (r: Vec<usize>)
        where O: PartialEq, K: PartialEq
        ensures
            forall|a: int, b: int| 0 <= a < b < r.len() ==> r[a] < r[b],
            forall|a: int| 0 <= a < r.len() ==> r[a] < self.subscriptions().len(),
            forall|k: int|
                0 <= k < self.subscriptions().len() && (*self.subscriptions()[k].origin is Any)
                    && (*self.subscriptions()[k].kind is Any) ==> r@.contains(k as usize),
            lawful_eq::<O, K>() ==> r@.map_values(|x: usize| x as int) == routing(
                self.subscriptions(),
                *origin,
                *kind,
            ),
    {
        let mut r: Vec<usize> = Vec::new();
        let mut k: usize = 0;
        while k < self.entries.len()
            invariant
                k <= self.entries.len(),
                forall|a: int, b: int| 0 <= a < b < r.len() ==> r[a] < r[b],
                forall|a: int| 0 <= a < r.len() ==> r[a] < k,
                forall|c: int|
                    0 <= c < k && (*self.entries@[c].origin is Any) && (*self.entries@[c].kind is Any)
                        ==> r@.contains(c as usize),
                lawful_eq::<O, K>() ==> r@.map_values(|x: usize| x as int) == routing(
                    self.entries@.take(k as int),
                    *origin,
                    *kind,
                ),
            decreases self.entries.len() - k,
        {
            let sub = &self.entries[k];
            let hit = sub.origin.matches(origin) && sub.kind.matches(kind);
            let ghost before = r@;
            if hit {
                r.push(k);
                proof {
                    assert(r@[r.len() - 1] == k);
                    assert forall|c: usize| before.contains(c) implies r@.contains(c) by {
                        let w = choose|w: int| 0 <= w < before.len() && before[w] == c;
                        assert(r@[w] == c);
                    }
                }
            }
            proof {
                if !hit {
                    assert(r@ == before);
                }
                assert forall|c: int|
                    0 <= c < k + 1 && (*self.entries@[c].origin is Any)
                        && (*self.entries@[c].kind is Any) implies r@.contains(c as usize) by {
                    if c == k {
                        assert(r@[r.len() - 1] == k);
                    }
                }
                let prefix = self.entries@.take(k + 1);
                assert(prefix.drop_last() =~= self.entries@.take(k as int));
                assert(prefix.last() == self.entries@[k as int]);
                if lawful_eq::<O, K>() {
                    assert(hit == self.entries@[k as int].routes(*origin, *kind));
                    assert(r@.map_values(|x: usize| x as int) =~= routing(prefix, *origin, *kind));
                }
            }
            k = k + 1;
        }
        proof {
            assert(self.entries@.take(k as int) =~= self.entries@);
        }
        r
    }
}

} // verus!
