//! The listener-facing types and the per-connection decision step.
//!
//! Binding the socket, accepting connections, reading, writing and running
//! the external notification action are I/O and stand in the surrounding
//! program. The library fixes every decision the handler takes: what one read
//! means, what is written back, and when the connection ends.

use crate::command::{
    decode_error_response, decode_error_text, notify_cmd, plan_command, unknown_text, CommandPlan,
};
use crate::json::parse_msg;
use crate::message::{DecodeError, NotifyCommand};
use vstd::prelude::*;
use vstd::utf8::{decode_utf8, encode_utf8, valid_utf8};

verus! {

/// The socket path the relay binds to when nothing overrides it.
pub open spec fn default_socket_path() -> Seq<char> {
    "/tmp/display_notification_rc.sock"@
}

/// Startup configuration: the socket path and the debug flag.
pub struct Config {
    pub socket: String,
    pub debug: bool,
}

impl Config {
    /// The built-in defaults. Overrides from command-line options or the
    /// environment are applied by the surrounding program.
    pub fn new() -> (c: Config)
        ensures
            c.socket@ == default_socket_path(),
            c.debug == false,
    {
        Config { socket: "/tmp/display_notification_rc.sock".to_owned(), debug: false }
    }
}

/// Owns the filesystem path the listener binds to. The surrounding program
/// removes a stale entry at the path, creates the missing ancestor
/// directories, binds, and accepts connections in a loop.
pub struct UnixSocketServer {
    pub socket_path: String,
}

impl UnixSocketServer {
    /// Builds a server around the path it will bind to.
    pub fn new(socket_path: String) -> (s: Self)
        ensures
            s.socket_path@ == socket_path@,
    {
        UnixSocketServer { socket_path }
    }
}

/// What one read on a connection yielded: a clean close (zero bytes), one
/// message's bytes, or a read error.
pub enum ReadEvent {
    Closed,
    Data(Vec<u8>),
    Failed,
}

/// What the connection handler does next.
pub enum ConnAction {
    /// Close the connection, writing nothing. `failed` says whether the read
    /// ended in an error (to be logged) or the peer closed cleanly.
    Stop { failed: bool },
    /// Run the external notification action with these texts, answer with
    /// `notify_response` of its outcome, and keep the connection open.
    RunNotify { title: String, message: String },
    /// Write these bytes back and keep the connection open. When
    /// `stop_on_write_error` holds (the reply answers a decoded command) a
    /// failed write ends the handler; a decode-failure report is best-effort
    /// and a failed write of it is ignored.
    Reply { bytes: Vec<u8>, stop_on_write_error: bool },
}

/// Decides one step of the connection handler's loop: what one read event
/// means and what is sent back.
///
/// A clean close or a read error stops the handler without a response; an
/// undecodable message is answered with the decode-failure text and the
/// connection stays open; a recognized `NOTIFY` request asks for the external
/// action; any other command is answered with the text naming it.
pub fn connection_step(event: ReadEvent) -> (a: ConnAction)
    ensures
        (event is Closed ==> a == (ConnAction::Stop { failed: false })),
        (event is Failed ==> a == (ConnAction::Stop { failed: true })),
        (event matches ReadEvent::Data(d) ==> (if valid_utf8(d@) && parse_msg(decode_utf8(d@))
            is Some {
            (match parse_msg(decode_utf8(d@)) {
                Some(m) => if m.cmd == notify_cmd() {
                    a matches ConnAction::RunNotify { title, message } && title@ == m.title
                        && message@ == m.message
                } else {
                    a matches ConnAction::Reply { bytes, stop_on_write_error } && bytes@
                        == encode_utf8(unknown_text(m.cmd)) && stop_on_write_error
                },
                None => false,
            })
        } else {
            a matches ConnAction::Reply { bytes, stop_on_write_error } && bytes@ == encode_utf8(
                decode_error_text(
                    if valid_utf8(d@) {
                        DecodeError::Malformed
                    } else {
                        DecodeError::InvalidUtf8
                    },
                ),
            ) && !stop_on_write_error
        })),
{
    match event {
        ReadEvent::Closed => ConnAction::Stop { failed: false },
        ReadEvent::Failed => ConnAction::Stop { failed: true },
        ReadEvent::Data(d) => match NotifyCommand::from_bytes(d.as_slice()) {
            Ok(m) => match plan_command(&m) {
                CommandPlan::RunNotify { title, message } => ConnAction::RunNotify {
                    title,
                    message,
                },
                CommandPlan::Reply { bytes } => ConnAction::Reply {
                    bytes,
                    stop_on_write_error: true,
                },
            },
            Err(e) => ConnAction::Reply {
                bytes: decode_error_response(&e),
                stop_on_write_error: false,
            },
        },
    }
}

} // verus!
