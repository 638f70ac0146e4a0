//! Human-verification challenges: issue an identifier, show its five digits
//! once as a picture, and accept one answer before a deadline.
//!
//! The crate is organised bottom-up:
//!
//! - [`record`] holds the plain data: a challenge's record, its state, the
//!   errors, and what it means to be past the deadline;
//! - [`store`] keeps the live records by identifier and by age;
//! - [`allocator`] finds an identifier that is free and draws the digits;
//! - [`engine`] is the lifecycle: create, show once, answer once, sweep;
//! - [`laws`] proves what holds of the lifecycle as a whole;
//! - [`text`] reads and writes decimal numbers and counts tokens;
//! - [`registry`] holds the identities that passed a challenge;
//! - [`gateway`] is the set of operations offered to a transport;
//! - [`image`] and [`render`] turn the five digits into a picture.
//!
//! Time is a `u64` that the caller reads from a clock of its choice; the
//! time a challenge is given is counted in the same units. Nothing here
//! locks: the operations that change anything take `&mut self`, so a caller
//! that shares an engine between threads puts it behind one lock and holds
//! that lock for the whole of each operation.
pub mod allocator;
pub mod engine;
pub mod gateway;
pub mod image;
pub mod laws;
mod random;
pub mod record;
pub mod registry;
pub mod render;
pub mod store;
pub mod text;
