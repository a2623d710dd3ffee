use vstd::prelude::*;
use std::sync::Arc;
use std::sync::mpsc::{Receiver, RecvTimeoutError, SyncSender, TryRecvError, TrySendError};
use std::time::Duration;
use crate::delivery::{PollOutcome, SendOutcome};

verus! {

/// The sending half of a bounded `std::sync::mpsc` channel, carried through
/// the library as an opaque value.
#[verifier::external_type_specification]
#[verifier::external_body]
#[verifier::reject_recursive_types(T)]
pub struct ExSyncSender<T>(SyncSender<T>);

/// The receiving half of a `std::sync::mpsc` channel, carried through the
/// library as an opaque value.
#[verifier::external_type_specification]
#[verifier::external_body]
#[verifier::reject_recursive_types(T)]
pub struct ExReceiver<T>(Receiver<T>);

/// Calls `std::sync::mpsc::sync_channel(capacity)`: a channel that buffers up
/// to `capacity` messages (none at all for 0, where a send only succeeds
/// while a receiver is waiting). Nothing is claimed of the two halves.
#[verifier::external_body]
pub(crate) fn bounded_channel<M>(capacity: usize) -> (SyncSender<M>, Receiver<M>) {
    std::sync::mpsc::sync_channel(capacity)
}

/// Calls `SyncSender::try_send` and reports which of its three outcomes
/// happened. Which one happens depends on the receiving side and on other
/// threads, so nothing is claimed of it.
#[verifier::external_body]
fn offer<M>(tx: &SyncSender<M>, msg: M) -> SendOutcome {
    match tx.try_send(msg) {
        Ok(()) => SendOutcome::Delivered,
        Err(TrySendError::Full(_)) => SendOutcome::Full,
        Err(TrySendError::Disconnected(_)) => SendOutcome::Disconnected,
    }
}

/// Calls `Receiver::try_recv` and reports its outcome. What is queued
/// depends on other threads, so nothing is claimed of it.
#[verifier::external_body]
fn poll<M>(rx: &Receiver<M>) -> PollOutcome<M> {
    match rx.try_recv() {
        Ok(m) => PollOutcome::Received(m),
        Err(TryRecvError::Empty) => PollOutcome::Empty,
        Err(TryRecvError::Disconnected) => PollOutcome::Closed,
    }
}

/// Calls `Receiver::recv`, which blocks until a message arrives (`Some`) or
/// every sender is gone (`None`). Nothing is claimed of which.
#[verifier::external_body]
fn wait<M>(rx: &Receiver<M>) -> Option<M> {
    match rx.recv() {
        Ok(m) => Some(m),
        Err(_) => None,
    }
}

/// Calls `Receiver::recv_timeout`, which blocks for at most `timeout`; a
/// timeout is reported as `Empty`. Nothing is claimed of the outcome.
#[verifier::external_body]
fn wait_for<M>(rx: &Receiver<M>, timeout: Duration) -> PollOutcome<M> {
    match rx.recv_timeout(timeout) {
        Ok(m) => PollOutcome::Received(m),
        Err(RecvTimeoutError::Timeout) => PollOutcome::Empty,
        Err(RecvTimeoutError::Disconnected) => PollOutcome::Closed,
    }
}

/// Calls `Arc::strong_count`: how many `Arc`s point at this value, this one
/// included. Other threads may change it at any time, so only that it counts
/// `a` itself is claimed.
#[verifier::external_body]
pub(crate) fn holders<T>(a: &Arc<T>) -> (n: usize)
    ensures
        n >= 1,
{
    Arc::strong_count(a)
}

/// Calls `Arc::clone`: a new pointer to the same value, so the two are equal.
#[verifier::external_body]
pub(crate) fn share<T>(a: &Arc<T>) -> (r: Arc<T>)
    ensures
        r == *a,
{
    Arc::clone(a)
}

/// The record of one offer of a message to a channel: which channel the
/// message was offered to, and what became of the offer. Only `offer_to`
/// makes one.
#[verifier::reject_recursive_types(M)]
pub struct Offered<M> {
    channel: Ghost<SyncSender<M>>,
    outcome: SendOutcome,
}

impl<M> Offered<M> {
    /// The channel the message was offered to.
    pub closed spec fn sent_on(&self) -> SyncSender<M> {
        self.channel@
    }

    /// What became of the offer.
    pub closed spec fn outcome_value(&self) -> SendOutcome {
        self.outcome
    }

    /// What became of the offer.
    pub fn outcome(&self) -> (o: SendOutcome)
        ensures
            o == self.outcome_value(),
    {
        self.outcome
    }
}

/// Offers `msg` to the channel `tx` without blocking and records the offer.
pub fn offer_to<M>(tx: &SyncSender<M>, msg: M) -> (r: Offered<M>)
    ensures
        r.sent_on() == *tx,
{
    let outcome = offer(tx, msg);
    Offered { channel: Ghost(*tx), outcome }
}

/// What became of each of several offers, in order.
pub fn outcomes_of<M>(offers: &Vec<Offered<M>>) -> (r: Vec<SendOutcome>)
    ensures
        r@ == offers@.map_values(|o: Offered<M>| o.outcome_value()),
{
    let mut r: Vec<SendOutcome> = Vec::new();
    let mut i: usize = 0;
    while i < offers.len()
        invariant
            i <= offers.len(),
            r@ == offers@.take(i as int).map_values(|o: Offered<M>| o.outcome_value()),
        decreases offers.len() - i,
    {
        r.push(offers[i].outcome());
        i = i + 1;
        proof {
            assert(r@ =~= offers@.take(i as int).map_values(|o: Offered<M>| o.outcome_value()));
        }
    }
    proof {
        assert(offers@.take(offers.len() as int) =~= offers@);
    }
    r
}

/// The record of one non-blocking look at a channel: which channel was
/// looked at, and what the look found. Only `look` makes one.
#[verifier::reject_recursive_types(M)]
pub struct Polled<M> {
    channel: Ghost<Receiver<M>>,
    outcome: PollOutcome<M>,
}

impl<M> Polled<M> {
    /// The channel that was looked at.
    pub closed spec fn looked_at(&self) -> Receiver<M> {
        self.channel@
    }

    /// What the look found.
    pub closed spec fn found(&self) -> PollOutcome<M> {
        self.outcome
    }

    /// What the look found.
    pub fn into_outcome(self) -> (o: PollOutcome<M>)
        ensures
            o == self.found(),
    {
        self.outcome
    }
}

/// Looks once at the channel `rx` without blocking and records what it found.
pub fn look<M>(rx: &Receiver<M>) -> (r: Polled<M>)
    ensures
        r.looked_at() == *rx,
{
    let outcome = poll(rx);
    Polled { channel: Ghost(*rx), outcome }
}

/// The record of one wait on a channel bounded by a timeout: which channel,
/// how long at most, and what the wait found (`Empty` when nothing arrived in
/// time). Only `wait_at_most` makes one.
#[verifier::reject_recursive_types(M)]
pub struct TimedWait<M> {
    channel: Ghost<Receiver<M>>,
    timeout: Ghost<Duration>,
    outcome: PollOutcome<M>,
}

impl<M> TimedWait<M> {
    /// The channel that was waited on.
    pub closed spec fn waited_on(&self) -> Receiver<M> {
        self.channel@
    }

    /// The longest the wait could last.
    pub closed spec fn limit(&self) -> Duration {
        self.timeout@
    }

    /// What the wait found.
    pub closed spec fn found(&self) -> PollOutcome<M> {
        self.outcome
    }

    /// What the wait found.
    pub fn into_outcome(self) -> (o: PollOutcome<M>)
        ensures
            o == self.found(),
    {
        self.outcome
    }
}

/// Waits on the channel `rx` for at most `timeout` and records the wait.
pub fn wait_at_most<M>(rx: &Receiver<M>, timeout: Duration) -> (r: TimedWait<M>)
    ensures
        r.waited_on() == *rx,
        r.limit() == timeout,
{
    let outcome = wait_for(rx, timeout);
    TimedWait { channel: Ghost(*rx), timeout: Ghost(timeout), outcome }
}

/// The record of one wait on a channel with no time limit: which channel,
/// and the message it brought (`None` when every sender was gone). Only
/// `wait_until_message` makes one.
#[verifier::reject_recursive_types(M)]
pub struct BlockingWait<M> {
    channel: Ghost<Receiver<M>>,
    received: Option<M>,
}

impl<M> BlockingWait<M> {
    /// The channel that was waited on.
    pub closed spec fn waited_on(&self) -> Receiver<M> {
        self.channel@
    }

    /// The message the wait brought.
    pub closed spec fn brought(&self) -> Option<M> {
        self.received
    }

    /// The message the wait brought.
    pub fn into_received(self) -> (m: Option<M>)
        ensures
            m == self.brought(),
    {
        self.received
    }
}

/// Waits on the channel `rx` until a message arrives or every sender is gone,
/// and records the wait.
pub fn wait_until_message<M>(rx: &Receiver<M>) -> (r: BlockingWait<M>)
    ensures
        r.waited_on() == *rx,
{
    let received = wait(rx);
    BlockingWait { channel: Ghost(*rx), received }
}

} // verus!
