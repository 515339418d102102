//! Protocol engine for a narrow, unreliable, fixed-size-packet transport.
//!
//! The engine turns raw octet buffers into fixed-size *blocks*, reassembles
//! one or more blocks into logical *messages*, tracks outbound messages until
//! they are acknowledged (with bounded retry), drives a per-sender *session*
//! state machine gated on an established encryption state, and performs the
//! ephemeral key exchange that flips a session into the encrypted state.
//!
//! Everything that decides or computes lives here and is verified; transport
//! and bridge-worker I/O live outside and exchange plain values with this
//! crate.

pub mod block;
pub mod command;
pub mod credential_manager;
pub mod dispatch;
pub mod errors;
pub mod laws;
pub mod matrix_message;
pub mod message;
pub mod user;
pub mod outgoing_message;
pub mod text;
