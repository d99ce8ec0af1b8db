//! Core of a line-oriented chat server: the client registry with its
//! admission check, join snapshot, broadcast fan-out and lazy pruning,
//! together with the text handling the wire protocol needs (line trimming,
//! message formatting). All connection I/O is left to the caller: the
//! registry takes plain events (a registration, a message, the outcome of
//! each write) and returns the lines to send.

pub mod message;
pub mod peer;
pub mod registry;
pub mod text;
