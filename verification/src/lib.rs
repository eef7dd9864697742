//! Core of a multi-client line-oriented chat relay: a bounded registry of
//! client slots, tokenization of inbound frames, and the command dispatch
//! that turns one frame into registry updates and outbound messages.
//!
//! All I/O (sockets, console) lives outside this crate; the functions here
//! compute, from a frame and the registry state, exactly which bytes must be
//! delivered to which slot's connection, and how the registry changes.

pub mod commands;
pub mod registry;
pub mod tokenizer;

use vstd::prelude::*;

verus! {

/// Number of slots in the client registry used by the server.
/// The registry itself takes its capacity as a constructor argument;
/// this is the value the server is configured with.
pub const MAX_CLIENTS: usize = 20;

/// Fixed byte length to which a display name is truncated and zero-padded.
pub const MAX_NAME_LEN: usize = 20;

/// Size of the per-session read buffer; one transport read is one frame.
pub const MAX_MESSAGE_SIZE: usize = 512;

} // verus!

