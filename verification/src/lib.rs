//! A JSON-RPC 2.0 transport core for an AMQP message broker.
//!
//! The crate verifies the parts of the transport that decide and compute:
//! the wire envelope codec, the client-side correlation of replies to
//! pending requests, and the worker-side dispatch of deliveries. Broker
//! I/O stays outside; the functions here take the values such I/O hands
//! back and state exactly what is done with them.

pub mod client;
pub mod encode;
pub mod ext;
pub mod json;
pub mod parse;
pub mod roundtrip;
pub mod rpc;
pub mod worker;
