//! Storage and transport primitives for a replicated key-value store.
//!
//! The crate holds the decisions of two subsystems and proves them:
//!
//! * a durable, ordered log store: the key codec, the stored record formats,
//!   the commands each operation sends to the storage engine and the reading
//!   of what the engine hands back;
//! * a request/response transport: the route of each message kind and the
//!   classification of every way an exchange can end.
//!
//! The storage engine and the network are driven by the embedding program;
//! this crate neither opens files nor sockets.

pub mod codec;
pub mod record;
pub mod types;
pub mod engine;
pub mod range;
pub mod log_store;
pub mod laws;
pub mod transport;
pub mod membership;
