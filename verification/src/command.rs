//! The command processor: it interprets a decoded request and fixes the
//! response, dispatching on the command name with a case-sensitive match.
//!
//! The one external action, the desktop notification, is performed by the
//! surrounding program; the processor only decides whether to run it and what
//! bytes to answer with.

use crate::message::{DecodeError, NotifyCommand};
use crate::strutil::push_char;
use vstd::prelude::*;
use vstd::string::StrSliceExecFns;
use vstd::utf8::encode_utf8;

verus! {

/// The one recognized command name.
pub open spec fn notify_cmd() -> Seq<char> {
    "NOTIFY"@
}

/// The response when the external notification action succeeded.
pub open spec fn ok_marker() -> Seq<char> {
    "Ok"@
}

/// The response when the external notification action failed.
pub open spec fn err_marker() -> Seq<char> {
    "Err"@
}

/// How the response to an unrecognized command begins.
pub open spec fn unknown_prefix() -> Seq<char> {
    "Unknown command: "@
}

/// The full response to an unrecognized command.
pub open spec fn unknown_text(cmd: Seq<char>) -> Seq<char> {
    unknown_prefix() + cmd
}

/// How the response to an undecodable request begins.
pub open spec fn error_prefix() -> Seq<char> {
    "Error: Invalid command format - "@
}

/// The full response to an undecodable request.
pub open spec fn decode_error_text(e: DecodeError) -> Seq<char> {
    match e {
        DecodeError::InvalidUtf8 => "Error: Invalid command format - message is not valid UTF-8"@,
        DecodeError::Malformed
            => "Error: Invalid command format - message is not a valid notification request"@,
    }
}

/// The response to every undecodable request begins with the error prefix,
/// whatever the failure was.
pub proof fn lemma_decode_error_text_prefix(e: DecodeError)
    ensures
        decode_error_text(e).len() >= error_prefix().len(),
        decode_error_text(e).subrange(0, error_prefix().len() as int) == error_prefix(),
{
    reveal_strlit("Error: Invalid command format - ");
    reveal_strlit("Error: Invalid command format - message is not valid UTF-8");
    reveal_strlit("Error: Invalid command format - message is not a valid notification request");
    match e {
        DecodeError::InvalidUtf8 => {
            assert(decode_error_text(e).subrange(0, error_prefix().len() as int)
                =~= error_prefix());
        },
        DecodeError::Malformed => {
            assert(decode_error_text(e).subrange(0, error_prefix().len() as int)
                =~= error_prefix());
        },
    }
}

/// Compares two string slices by their characters.
fn str_chars_eq(a: &str, b: &str) -> (r: bool)
    ensures
        r == (a@ == b@),
{
    let na = a.unicode_len();
    let nb = b.unicode_len();
    if na != nb {
        proof {
            if a@ == b@ {
                assert(a@.len() == b@.len());
            }
        }
        return false;
    }
    let mut i: usize = 0;
    while i < na
        invariant
            i <= na,
            na == a@.len(),
            na == b@.len(),
            forall|k: int| 0 <= k < i ==> a@[k] == b@[k],
        decreases na - i,
    {
        if a.get_char(i) != b.get_char(i) {
            return false;
        }
        i = i + 1;
    }
    proof {
        assert(a@ =~= b@);
    }
    true
}

/// What a decoded request asks of the handler.
pub enum CommandPlan {
    /// Run the external notification action with these two texts, then answer
    /// with `notify_response` of its outcome.
    RunNotify { title: String, message: String },
    /// Answer with these bytes; no external action is taken.
    Reply { bytes: Vec<u8> },
}

/// Decides what a decoded request asks for.
pub fn plan_command(c: &NotifyCommand) -> (p: CommandPlan)
    ensures
        (c@.cmd == notify_cmd() ==> (p matches CommandPlan::RunNotify { title, message }
            && title@ == c@.title && message@ == c@.message)),
        (c@.cmd != notify_cmd() ==> (p matches CommandPlan::Reply { bytes } && bytes@
            == encode_utf8(unknown_text(c@.cmd)))),
{
    if str_chars_eq(c.cmd.as_str(), "NOTIFY") {
        CommandPlan::RunNotify { title: c.title.clone(), message: c.message.clone() }
    } else {
        CommandPlan::Reply { bytes: unknown_response(c.cmd.as_str()) }
    }
}

/// The response to a `NOTIFY` request, from the external action's outcome:
/// the success marker when it succeeded, the error marker when it failed.
pub fn notify_response(action_ok: bool) -> (r: Vec<u8>)
    ensures
        action_ok ==> r@ == encode_utf8(ok_marker()),
        !action_ok ==> r@ == encode_utf8(err_marker()),
{
    if action_ok {
        "Ok".as_bytes_vec()
    } else {
        "Err".as_bytes_vec()
    }
}

/// The response naming an unrecognized command.
pub fn unknown_response(cmd: &str) -> (r: Vec<u8>)
    ensures
        r@ == encode_utf8(unknown_text(cmd@)),
{
    let mut s: String = "Unknown command: ".to_owned();
    proof {
        assert(s@ =~= unknown_prefix() + cmd@.subrange(0, 0));
    }
    let n = cmd.unicode_len();
    let mut i: usize = 0;
    while i < n
        invariant
            i <= n,
            n == cmd@.len(),
            s@ == unknown_prefix() + cmd@.subrange(0, i as int),
        decreases n - i,
    {
        push_char(&mut s, cmd.get_char(i));
        proof {
            assert(cmd@.subrange(0, i + 1 as int) =~= cmd@.subrange(0, i as int).push(
                cmd@[i as int],
            ));
            assert(s@ =~= unknown_prefix() + cmd@.subrange(0, i + 1 as int));
        }
        i = i + 1;
    }
    proof {
        assert(cmd@.subrange(0, cmd@.len() as int) =~= cmd@);
    }
    s.as_str().as_bytes_vec()
}

/// The response reporting a decode failure.
pub fn decode_error_response(e: &DecodeError) -> (r: Vec<u8>)
    ensures
        r@ == encode_utf8(decode_error_text(*e)),
{
    match e {
        DecodeError::InvalidUtf8 => "Error: Invalid command format - message is not valid UTF-8".as_bytes_vec(),
        DecodeError::Malformed => "Error: Invalid command format - message is not a valid notification request".as_bytes_vec(),
    }
}

} // verus!
