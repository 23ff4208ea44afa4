//! Collects readings from a fixed set of wireless environmental sensors and
//! relays the completed batch to a remote sink, with a durable store-and-forward
//! fallback so that a failed delivery never loses data.
//!
//! The verified core is the collection state machine (`collector`), the
//! pending-store naming and ordering rules (`store`), and the delivery
//! decision machine (`relay`). Process I/O — the wireless stack, the HTTP
//! client, and the filesystem — lives outside the library and drives these
//! state machines with plain values.

pub mod collector;
pub mod relay;
pub mod sensor;
pub mod store;
