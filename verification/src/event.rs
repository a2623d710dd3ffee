use vstd::prelude::*;

verus! {

/// A single message carrying an origin, a kind, and a payload.
#[derive(Debug, Clone, PartialEq, Eq, Hash)]
pub struct Event<O, K, T> {
    origin: O,
    kind: K,
    payload: T,
}

impl<O, K, T> Event<O, K, T> {
    /// The origin the event was created with.
    pub closed spec fn origin_value(&self) -> O {
        self.origin
    }

    /// The kind the event was created with.
    pub closed spec fn kind_value(&self) -> K {
        self.kind
    }

    /// The payload the event was created with.
    pub closed spec fn payload_value(&self) -> T {
        self.payload
    }
}

impl<O: Clone, K: Clone, T: Clone> Event<O, K, T> {
    /// Creates a new event with the given origin, kind, and payload.
    pub fn new(origin: O, kind: K, payload: T) -> (ev: Self)
        ensures
            ev.origin_value() == origin,
            ev.kind_value() == kind,
            ev.payload_value() == payload,
    {
        Event { origin, kind, payload }
    }

    /// Returns a reference to the event's origin.
    pub fn origin(&self) -> (r: &O)
        ensures
            *r == self.origin_value(),
    {
        &self.origin
    }

    /// Returns a reference to the event's kind.
    pub fn kind(&self) -> (r: &K)
        ensures
            *r == self.kind_value(),
    {
        &self.kind
    }

    /// Returns a reference to the event's payload.
    pub fn payload(&self) -> (r: &T)
        ensures
            *r == self.payload_value(),
    {
        &self.payload
    }
}

} // verus!
