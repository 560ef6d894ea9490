//! A resilient JSON-RPC client core and a message/acknowledgement protocol
//! pipeline core.
//!
//! The crate verifies the decision logic of both cores: the retry policy and
//! its backoff computation, the JSON-RPC request/response framing, the
//! request retry state machine, the snapshot record/replay store with its
//! file codec, and the per-event step functions of the protocol pipeline.
//! Asynchronous plumbing (HTTP, file I/O, task spawning) lives outside the
//! verified library and drives these functions.

pub mod client;
pub mod errors;
pub mod json;
pub mod numeric;
pub mod pipeline;
pub mod retry;
pub mod rpc;
pub mod snapshot;
pub mod text;
pub mod transport;
