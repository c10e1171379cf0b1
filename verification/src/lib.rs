//! A user-space TCP/IPv4 endpoint core.
//!
//! The crate holds the verified connection engine of a listen-only TCP
//! endpoint that rides on a layer-3 tunnel device: sequence-space
//! arithmetic, the per-flow state machine, segment acceptance, egress
//! header construction, and the demultiplexing coordinator. Reading from
//! and writing to the tunnel itself, threads and locking live outside the
//! library; the library consumes raw IPv4 frames and hands back the
//! datagrams to emit.
pub mod codec;
pub mod engine;
pub mod tcp;
pub mod wrap;

pub use wrap::is_between_wrapped;
pub use wrap::wrapping_lt;
