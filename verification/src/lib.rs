//! A lightweight, in-process publish/subscribe event bus.

pub mod bus;
pub mod channel;
pub mod delivery;
pub mod error;
pub mod event;
pub mod filter;
pub mod registry;

pub use bus::{Bus, BusReceiver};
pub use delivery::PublishResult;
pub use error::{OmnibusError, Result};
pub use event::Event;
pub use filter::Filter;
