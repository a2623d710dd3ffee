use vstd::prelude::*;
use crate::error::{OmnibusError, Result};

verus! {

/// Summary of a single `publish` call.
#[derive(Debug, Clone, Copy, PartialEq, Eq, Structural)]
pub struct PublishResult {
    /// Number of subscribers that received the event.
    pub delivered: usize,
    /// Number of subscribers whose channel was full (event silently dropped).
    pub dropped: usize,
}

/// What became of one attempt to hand an event to a subscriber's channel.
#[derive(Debug, Clone, Copy, PartialEq, Eq, Structural)]
pub enum SendOutcome {
    /// The channel accepted the event.
    Delivered,
    /// The channel was full; the event was dropped for that subscriber.
    Full,
    /// The receiving side is gone; the subscription is dead.
    Disconnected,
}

/// What one look at a subscriber's channel found.
#[derive(Debug)]
pub enum PollOutcome<M> {
    /// A queued message was taken from the channel.
    Received(M),
    /// Nothing was queued (or, for a timed wait, nothing arrived in time).
    Empty,
    /// Every sending side of the channel is gone.
    Closed,
}

/// Number of outcomes in `s` that are `Delivered`.
pub open spec fn count_delivered(s: Seq<SendOutcome>) -> nat
    decreases s.len(),
{
    if s.len() == 0 {
        0
    } else {
        count_delivered(s.drop_last()) + if s.last() == SendOutcome::Delivered { 1nat } else { 0nat }
    }
}

/// Number of outcomes in `s` that are `Full`.
pub open spec fn count_full(s: Seq<SendOutcome>) -> nat
    decreases s.len(),
{
    if s.len() == 0 {
        0
    } else {
        count_full(s.drop_last()) + if s.last() == SendOutcome::Full { 1nat } else { 0nat }
    }
}

/// The publish summary of a sequence of send outcomes.
pub open spec fn summary_of(s: Seq<SendOutcome>) -> PublishResult {
    PublishResult { delivered: count_delivered(s) as usize, dropped: count_full(s) as usize }
}

/// Every delivery and every drop is an attempt: the two counts together never
/// exceed the number of attempts.
pub proof fn lemma_counts_bounded(s: Seq<SendOutcome>)
    ensures
        count_delivered(s) + count_full(s) <= s.len(),
    decreases s.len(),
{
    if s.len() > 0 {
        lemma_counts_bounded(s.drop_last());
    }
}

/// Counts the outcomes of a fan-out: `delivered` is the number of channels that
/// took the event, `dropped` the number that were full. Sends to dead
/// subscriptions count as neither.
pub fn tally(outcomes: &Vec<SendOutcome>) -> (r: PublishResult)
    ensures
        r == summary_of(outcomes@),
        r.delivered + r.dropped <= outcomes.len(),
{
    let mut delivered: usize = 0;
    let mut dropped: usize = 0;
    let mut i: usize = 0;
    while i < outcomes.len()
        invariant
            i <= outcomes.len(),
            delivered == count_delivered(outcomes@.take(i as int)),
            dropped == count_full(outcomes@.take(i as int)),
            delivered + dropped <= i,
        decreases outcomes.len() - i,
    {
        proof {
            assert(outcomes@.take(i + 1).drop_last() =~= outcomes@.take(i as int));
            lemma_counts_bounded(outcomes@.take(i as int));
        }
        match outcomes[i] {
            SendOutcome::Delivered => delivered = delivered + 1,
            SendOutcome::Full => dropped = dropped + 1,
            SendOutcome::Disconnected => {},
        }
        i = i + 1;
    }
    proof {
        assert(outcomes@.take(outcomes.len() as int) =~= outcomes@);
    }
    PublishResult { delivered, dropped }
}

/// The messages that draining takes when successive looks at a channel find
/// `outcomes`: the received ones from the front, up to the first look that
/// found nothing.
pub open spec fn drained<M>(outcomes: Seq<PollOutcome<M>>) -> Seq<M>
    decreases outcomes.len(),
{
    if outcomes.len() == 0 {
        Seq::empty()
    } else {
        match outcomes[0] {
            PollOutcome::Received(m) => seq![m] + drained(outcomes.drop_first()),
            _ => Seq::empty(),
        }
    }
}

/// What draining takes is the run of received messages at the front of the
/// looks: exactly the first `n` looks received a message, those messages in
/// order are the result, and the look after them, if any, found nothing.
pub proof fn law_drained_is_received_prefix<M>(outcomes: Seq<PollOutcome<M>>)
    ensures
        drained(outcomes).len() <= outcomes.len(),
        forall|i: int|
            0 <= i < drained(outcomes).len() ==> outcomes[i] == PollOutcome::Received(
                #[trigger] drained(outcomes)[i],
            ),
        drained(outcomes).len() < outcomes.len() ==> !(outcomes[drained(outcomes).len() as int] is Received),
    decreases outcomes.len(),
{
    if outcomes.len() > 0 {
        let rest = outcomes.drop_first();
        law_drained_is_received_prefix(rest);
        match outcomes[0] {
            PollOutcome::Received(m) => {
                let d = drained(outcomes);
                assert(d == seq![m] + drained(rest));
                assert forall|i: int| 0 <= i < d.len() implies outcomes[i] == PollOutcome::Received(
                    #[trigger] d[i],
                ) by {
                    if i > 0 {
                        assert(d[i] == drained(rest)[i - 1]);
                        assert(outcomes[i] == rest[i - 1]);
                    }
                }
                if d.len() < outcomes.len() {
                    assert(outcomes[d.len() as int] == rest[drained(rest).len() as int]);
                }
            },
            _ => {},
        }
    }
}

/// Every look in `outcomes` received a message.
pub open spec fn all_received<M>(outcomes: Seq<PollOutcome<M>>) -> bool {
    forall|i: int| 0 <= i < outcomes.len() ==> #[trigger] outcomes[i] is Received
}

/// One more look after looks that all received: a message is added to what
/// was drained; anything else adds nothing.
pub proof fn lemma_drained_push<M>(outcomes: Seq<PollOutcome<M>>, o: PollOutcome<M>)
    requires
        all_received(outcomes),
    ensures
        drained(outcomes.push(o)) == match o {
            PollOutcome::Received(m) => drained(outcomes).push(m),
            _ => drained(outcomes),
        },
    decreases outcomes.len(),
{
    if outcomes.len() > 0 {
        let rest = outcomes.drop_first();
        assert(outcomes.push(o).drop_first() =~= rest.push(o));
        assert forall|i: int| 0 <= i < rest.len() implies #[trigger] rest[i] is Received by {
            assert(rest[i] == outcomes[i + 1]);
        }
        lemma_drained_push(rest, o);
        assert(outcomes.push(o)[0] == outcomes[0]);
        match o {
            PollOutcome::Received(m) => {
                assert(drained(outcomes.push(o)) =~= drained(outcomes).push(m));
            },
            _ => {},
        }
    } else {
        assert(outcomes.push(o).drop_first() =~= Seq::<PollOutcome<M>>::empty());
        assert(drained(Seq::<PollOutcome<M>>::empty()) =~= Seq::<M>::empty());
        assert(outcomes.push(o)[0] == o);
        assert(drained(outcomes) =~= Seq::<M>::empty());
        match o {
            PollOutcome::Received(m) => {
                assert(drained(outcomes.push(o)) =~= seq![m]);
            },
            _ => {},
        }
    }
}

/// One step of draining a channel: a received message is appended to `out`
/// and draining goes on; anything else leaves `out` as it was and stops it.
pub fn drain_step<M>(out: &mut Vec<M>, o: PollOutcome<M>) -> (more: bool)
    ensures
        match o {
            PollOutcome::Received(m) => final(out)@ == old(out)@.push(m) && more,
            _ => final(out)@ == old(out)@ && !more,
        },
{
    match o {
        PollOutcome::Received(m) => {
            out.push(m);
            true
        },
        _ => false,
    }
}

impl<M> PollOutcome<M> {
    /// The answer a non-blocking or timed receive gives for this outcome.
    pub open spec fn answer(self) -> Result<Option<M>> {
        match self {
            PollOutcome::Received(m) => Ok(Some(m)),
            PollOutcome::Empty => Ok(None),
            PollOutcome::Closed => Err(OmnibusError::Disconnected),
        }
    }

    /// Turns the outcome into a receive result: a message, nothing queued, or
    /// `Disconnected` when the channel is closed.
    pub fn into_answer(self) -> (r: Result<Option<M>>)
        ensures
            r == self.answer(),
    {
        match self {
            PollOutcome::Received(m) => Ok(Some(m)),
            PollOutcome::Empty => Ok(None),
            PollOutcome::Closed => Err(OmnibusError::Disconnected),
        }
    }
}

/// A receive answers `Ok(None)` exactly when the look or wait found nothing,
/// `Ok(Some(m))` exactly when it brought `m`, and fails exactly when the
/// channel was closed, and then only with `Disconnected`.
pub proof fn law_answer_reflects_outcome<M>(o: PollOutcome<M>, m: M)
    ensures
        (o.answer() == Ok::<Option<M>, OmnibusError>(None)) <==> (o is Empty),
        (o.answer() == Ok::<Option<M>, OmnibusError>(Some(m))) <==> (o == PollOutcome::Received(m)),
        (o.answer() is Err) <==> (o is Closed),
        o.answer() is Err ==> o.answer() == Err::<Option<M>, OmnibusError>(OmnibusError::Disconnected),
{
}

/// The answer a blocking receive gives: the message, or `Disconnected` when
/// the wait ended without one.
pub fn blocking_answer<M>(received: Option<M>) -> (r: Result<M>)
    ensures
        match received {
            Some(m) => r == Ok::<M, OmnibusError>(m),
            None => r == Err::<M, OmnibusError>(OmnibusError::Disconnected),
        },
{
    match received {
        Some(m) => Ok(m),
        None => Err(OmnibusError::Disconnected),
    }
}

} // verus!
