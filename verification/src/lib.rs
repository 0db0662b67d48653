//! A local inter-process notification relay library.
//!
//! The library holds everything about the relay that is plain computation:
//! the wire codec for request messages, the command processor that turns a
//! decoded message into a response, and the per-connection decision step that
//! drives one request/response exchange. The surrounding program supplies the
//! socket I/O and the external desktop-notification command.
//!
//! Framing on the wire is one read per message: the relay reads into a
//! 1024-byte buffer and treats whatever one read yields as one whole request,
//! so a client must send each request in one write of at most 1024 bytes.
//! A request split across reads or longer than the buffer is not reassembled
//! and will be answered as a decode failure.

pub mod command;
pub mod json;
pub mod message;
pub mod server;
mod strutil;

pub use command::{notify_response, plan_command, CommandPlan};
pub use message::{DecodeError, NotifyCommand};
pub use server::{connection_step, Config, ConnAction, ReadEvent, UnixSocketServer};
