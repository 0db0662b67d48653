//! The wire request record and its codec.

use crate::json::{encode_msg, parse_msg, parse_msg_exec, push_escaped};
use crate::strutil::{chars_to_vec, string_of_chars, utf8_to_str};
use vstd::prelude::*;
use vstd::string::StrSliceExecFns;
use vstd::utf8::{decode_utf8, encode_utf8, valid_utf8};

verus! {

/// A decoded client request: a command name plus the notification's title and
/// body text. All three fields are required on the wire.
#[derive(Debug)]
pub struct NotifyCommand {
    pub cmd: String,
    pub title: String,
    pub message: String,
}

/// The mathematical content of a request: the three fields as character
/// sequences.
pub struct MessageModel {
    pub cmd: Seq<char>,
    pub title: Seq<char>,
    pub message: Seq<char>,
}

impl View for NotifyCommand {
    type V = MessageModel;

    open spec fn view(&self) -> MessageModel {
        MessageModel { cmd: self.cmd@, title: self.title@, message: self.message@ }
    }
}

impl NotifyCommand {
    /// Builds a request record from its three fields.
    pub fn new(cmd: String, title: String, message: String) -> (r: Self)
        ensures
            r@.cmd == cmd@,
            r@.title == title@,
            r@.message == message@,
    {
        Self { cmd, title, message }
    }

    /// Decodes one wire request. The bytes must be valid UTF-8 and hold one
    /// object of the request grammar, else the exact failure is returned.
    pub fn from_bytes(bytes: &[u8]) -> (r: Result<Self, DecodeError>)
        ensures
            (match r {
                Ok(m) => valid_utf8(bytes@) && parse_msg(decode_utf8(bytes@)) == Some(m@),
                Err(e) => ((e == DecodeError::InvalidUtf8) <==> !valid_utf8(bytes@)) && (
                valid_utf8(bytes@) ==> parse_msg(decode_utf8(bytes@)) is None),
            }),
            (r is Ok) <==> (valid_utf8(bytes@) && parse_msg(decode_utf8(bytes@)) is Some),
    {
        let s = match utf8_to_str(bytes) {
            Some(s) => s,
            None => {
                return Err(DecodeError::InvalidUtf8);
            },
        };
        let v = chars_to_vec(s);
        match parse_msg_exec(&v) {
            Some((c, t, m)) => Ok(
                NotifyCommand {
                    cmd: string_of_chars(&c),
                    title: string_of_chars(&t),
                    message: string_of_chars(&m),
                },
            ),
            None => Err(DecodeError::Malformed),
        }
    }

    /// Encodes the request in the canonical wire form.
    pub fn to_bytes(&self) -> (r: Vec<u8>)
        ensures
            r@ == encode_utf8(encode_msg(self@)),
    {
        let mut out: Vec<char> = Vec::new();
        out.push('{');
        out.push('"');
        out.push('c');
        out.push('m');
        out.push('d');
        out.push('"');
        out.push(':');
        out.push('"');
        proof {
            assert(out@ =~= seq!['{', '"', 'c', 'm', 'd', '"', ':', '"']);
        }
        let cv = chars_to_vec(self.cmd.as_str());
        push_escaped(&mut out, &cv);
        out.push('"');
        out.push(',');
        out.push('"');
        out.push('t');
        out.push('i');
        out.push('t');
        out.push('l');
        out.push('e');
        out.push('"');
        out.push(':');
        out.push('"');
        let tv = chars_to_vec(self.title.as_str());
        push_escaped(&mut out, &tv);
        out.push('"');
        out.push(',');
        out.push('"');
        out.push('m');
        out.push('e');
        out.push('s');
        out.push('s');
        out.push('a');
        out.push('g');
        out.push('e');
        out.push('"');
        out.push(':');
        out.push('"');
        let mv = chars_to_vec(self.message.as_str());
        push_escaped(&mut out, &mv);
        out.push('"');
        out.push('}');
        proof {
            assert(out@ =~= encode_msg(self@));
        }
        let s = string_of_chars(&out);
        s.as_str().as_bytes_vec()
    }
}

/// Law: the wire codec round-trips. The bytes `to_bytes` produces are valid
/// UTF-8, and decoding them (as `from_bytes` does) yields the message back.
pub proof fn lemma_wire_round_trip(m: MessageModel)
    ensures
        valid_utf8(encode_utf8(encode_msg(m))),
        parse_msg(decode_utf8(encode_utf8(encode_msg(m)))) == Some(m),
{
    vstd::utf8::encode_utf8_valid_utf8(encode_msg(m));
    vstd::utf8::encode_utf8_decode_utf8(encode_msg(m));
    crate::json::lemma_encode_then_parse(m);
}

/// Why a byte sequence failed to decode as a request.
#[derive(Clone, Copy, Debug, PartialEq, Eq, Structural)]
pub enum DecodeError {
    /// The bytes are not valid UTF-8.
    InvalidUtf8,
    /// The text is not one object of the request grammar.
    Malformed,
}

} // verus!
