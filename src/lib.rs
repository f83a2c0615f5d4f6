//! A fixed-capacity single-producer / single-consumer ring buffer protocol
//! meant to live inside a shared-memory segment.
//!
//! - [`header`] holds the index protocol: the head / tail / capacity header and
//!   the full / empty decisions that both roles take on it.
//! - [`layout`] computes the byte layout of a segment: its size and the offset
//!   of each slot.
//! - [`ring`] runs the protocol over an in-process slot array, with the
//!   records it holds and the history of pushes and pops as its model.
//! - [`laws`] proves what holds over several calls: capacity of a fresh ring,
//!   order kept by a round trip, and strict alternation leaving it empty.
pub mod header;
pub mod laws;
pub mod layout;
pub mod ring;

pub use header::RingBufferHeader;
