//! Core of a client-side X11 protocol connection: request framing, sequence
//! tracking, reply/event demultiplexing, resource-ID allocation and the
//! negotiation of the maximum request length. The byte streams, the locks
//! and the blocking reads belong to the caller, which runs the wait steps
//! that `connection` offers.
pub mod connection;
pub mod errors;
pub mod id_allocator;
pub mod inner;
pub mod request;
pub mod setup;
pub mod wire;
pub mod x11_utils;
