# omnibus

A lightweight, in-process publish/subscribe event bus, written in Verus.

A `Bus<O, K, T>` carries events with an origin `O`, a kind `K` and a payload
`T`. Subscribers register a `Filter` for each of the two dimensions and get a
`BusReceiver` back; `publish` hands each event, wrapped once in an `Arc`, to
every subscription whose filters admit it, through a bounded channel per
subscriber, and reports how many channels took it and how many were full.

## Layout

- `src/filter.rs` — `Filter` and what it admits.
- `src/event.rs` — `Event` and its accessors.
- `src/registry.rs` — the table of subscriptions: registering, unregistering,
  routing an event, keeping marked subscriptions, and the laws of routing
  and of unregistering.
- `src/delivery.rs` — `PublishResult`, counting send outcomes, draining a channel step by step, and turning
  channel outcomes into receive results.
- `src/channel.rs` — the bounded `std::sync::mpsc` channels and `Arc`
  operations that the bus uses, with what is assumed of each.
- `src/bus.rs` — `Bus` and `BusReceiver`; the table lives in a verified
  reader-writer lock shared by all clones of a bus.
- `src/error.rs` — `OmnibusError` and `Result`.
- `app/lib.rs` — a copy of `OmnibusError` with `Display` and
  `std::error::Error`, converting both ways.

Dropping a `BusReceiver` closes its channel at once, so the bus counts it as
neither delivered nor dropped; its entry is removed from the table at the next
`subscribe`, or at a `publish` that finds a closed channel.
