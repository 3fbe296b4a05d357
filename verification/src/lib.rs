//! A credit-based blob-transfer protocol: a sender streams one binary blob in
//! chunks to a receiver that reassembles it, checks a SHA-256 digest, and hands
//! the bytes to the application.
//!
//! The protocol logic lives here: the wire codec, the per-session state on the
//! receiver, and the sender's session state machine. The transport itself
//! (sockets, polling) is left to the embedding program, which shuttles frames
//! between the two state machines.

pub mod codec;
pub mod errors;
pub mod hashing;
pub mod receiver;
pub mod sender;
pub mod wire;

pub use codec::{bytes_to_int, int_to_bytes};
pub use errors::{ErrorKind, XactError};
