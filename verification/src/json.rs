//! The wire grammar of a request and its verified codec.
//!
//! A request is a JSON object with exactly the three string-valued keys
//! `cmd`, `title` and `message`, in any order, each given once. The decoder
//! accepts insignificant whitespace and the JSON string escapes `\" \\ \/
//! \b \f \n \r \t \uXXXX` (a `\uXXXX` escape must denote a Unicode scalar
//! value; surrogate pairs are rejected). A repeated key, an unknown key, a
//! missing key, a non-string value, or trailing text after the object is a
//! decode failure. The encoder emits the canonical form: no whitespace, the
//! keys in the order `cmd`, `title`, `message`, and `\u00XX` escapes for
//! control characters.

use crate::message::MessageModel;
use crate::strutil::char_of_u32;
use vstd::prelude::*;
use vstd::utf8::char_u32_cast;
use vstd::utf8::is_scalar;

verus! {

/// JSON insignificant whitespace.
pub open spec fn is_ws(c: char) -> bool {
    c == ' ' || c == '\t' || c == '\n' || c == '\r'
}

/// The first index at or after `i` that does not hold whitespace.
pub open spec fn ws_end(s: Seq<char>, i: int) -> int
    decreases s.len() - i,
    when 0 <= i <= s.len()
{
    if i < s.len() && is_ws(s[i]) {
        ws_end(s, i + 1)
    } else {
        i
    }
}

pub proof fn lemma_ws_end_bounds(s: Seq<char>, i: int)
    requires
        0 <= i <= s.len(),
    ensures
        i <= ws_end(s, i) <= s.len(),
    decreases s.len() - i,
{
    if i < s.len() && is_ws(s[i]) {
        lemma_ws_end_bounds(s, i + 1);
    }
}

/// The value of one hexadecimal digit.
pub open spec fn hex_val(c: char) -> Option<u32> {
    let u = c as u32;
    if 48 <= u && u <= 57 {
        Some((u - 48) as u32)
    } else if 97 <= u && u <= 102 {
        Some((u - 87) as u32)
    } else if 65 <= u && u <= 70 {
        Some((u - 55) as u32)
    } else {
        None
    }
}

/// The value of the four hexadecimal digits at `i`.
pub open spec fn hex4_val(s: Seq<char>, i: int) -> Option<u32>
    recommends
        0 <= i,
        i + 4 <= s.len(),
{
    match (hex_val(s[i]), hex_val(s[i + 1]), hex_val(s[i + 2]), hex_val(s[i + 3])) {
        (Some(a), Some(b), Some(c), Some(d)) => Some((a * 4096 + b * 256 + c * 16 + d) as u32),
        _ => None,
    }
}

/// The character denoted by a one-letter escape.
pub open spec fn short_escape(c: char) -> Option<char> {
    if c == '"' {
        Some('"')
    } else if c == '\\' {
        Some('\\')
    } else if c == '/' {
        Some('/')
    } else if c == 'b' {
        Some('\u{8}')
    } else if c == 'f' {
        Some('\u{c}')
    } else if c == 'n' {
        Some('\n')
    } else if c == 'r' {
        Some('\r')
    } else if c == 't' {
        Some('\t')
    } else {
        None
    }
}

/// Parses the body of a JSON string: `i` stands just past the opening quote,
/// and the characters decoded so far are in `acc`. Returns the decoded text
/// and the index just past the closing quote.
pub open spec fn str_body(s: Seq<char>, i: int, acc: Seq<char>) -> Option<(Seq<char>, int)>
    decreases s.len() - i,
    when 0 <= i <= s.len()
{
    if i == s.len() {
        None
    } else if s[i] == '"' {
        Some((acc, i + 1))
    } else if s[i] == '\\' {
        if i + 1 == s.len() {
            None
        } else if s[i + 1] == 'u' {
            if i + 6 <= s.len() {
                match hex4_val(s, i + 2) {
                    Some(v) => if is_scalar(v) {
                        str_body(s, i + 6, acc.push(v as char))
                    } else {
                        None
                    },
                    None => None,
                }
            } else {
                None
            }
        } else {
            match short_escape(s[i + 1]) {
                Some(c) => str_body(s, i + 2, acc.push(c)),
                None => None,
            }
        }
    } else if (s[i] as u32) < 0x20 {
        None
    } else {
        str_body(s, i + 1, acc.push(s[i]))
    }
}

pub proof fn lemma_str_body_bounds(s: Seq<char>, i: int, acc: Seq<char>)
    requires
        0 <= i <= s.len(),
    ensures
        match str_body(s, i, acc) {
            Some(tj) => i < tj.1 <= s.len(),
            None => true,
        },
    decreases s.len() - i,
{
    if i == s.len() {
    } else if s[i] == '"' {
    } else if s[i] == '\\' {
        if i + 1 == s.len() {
        } else if s[i + 1] == 'u' {
            if i + 6 <= s.len() {
                match hex4_val(s, i + 2) {
                    Some(v) => if is_scalar(v) {
                        lemma_str_body_bounds(s, i + 6, acc.push(v as char));
                    },
                    None => {},
                }
            }
        } else {
            match short_escape(s[i + 1]) {
                Some(c) => lemma_str_body_bounds(s, i + 2, acc.push(c)),
                None => {},
            }
        }
    } else if (s[i] as u32) < 0x20 {
    } else {
        lemma_str_body_bounds(s, i + 1, acc.push(s[i]));
    }
}

/// The characters of the key `cmd`.
pub open spec fn cmd_key() -> Seq<char> {
    seq!['c', 'm', 'd']
}

/// The characters of the key `title`.
pub open spec fn title_key() -> Seq<char> {
    seq!['t', 'i', 't', 'l', 'e']
}

/// The characters of the key `message`.
pub open spec fn message_key() -> Seq<char> {
    seq!['m', 'e', 's', 's', 'a', 'g', 'e']
}

/// Parses the members of the object from index `i` (just past `{` or a `,`),
/// with the values already seen for the three keys. Returns the finished
/// record and the index just past the closing `}`.
pub open spec fn parse_fields(
    s: Seq<char>,
    i: int,
    cmd: Option<Seq<char>>,
    title: Option<Seq<char>>,
    message: Option<Seq<char>>,
) -> Option<(MessageModel, int)>
    decreases s.len() - i,
    when 0 <= i <= s.len()
    via parse_fields_decreases
{
    let i1 = ws_end(s, i);
    if i1 == s.len() || s[i1] != '"' {
        None
    } else {
        match str_body(s, i1 + 1, Seq::empty()) {
            None => None,
            Some((key, j)) => {
                let j1 = ws_end(s, j);
                if j1 == s.len() || s[j1] != ':' {
                    None
                } else {
                    let j2 = ws_end(s, j1 + 1);
                    if j2 == s.len() || s[j2] != '"' {
                        None
                    } else {
                        match str_body(s, j2 + 1, Seq::empty()) {
                            None => None,
                            Some((val, k)) => {
                                let slots = if key == cmd_key() {
                                    if cmd is Some {
                                        None
                                    } else {
                                        Some((Some(val), title, message))
                                    }
                                } else if key == title_key() {
                                    if title is Some {
                                        None
                                    } else {
                                        Some((cmd, Some(val), message))
                                    }
                                } else if key == message_key() {
                                    if message is Some {
                                        None
                                    } else {
                                        Some((cmd, title, Some(val)))
                                    }
                                } else {
                                    None
                                };
                                match slots {
                                    None => None,
                                    Some((c2, t2, m2)) => {
                                        let k1 = ws_end(s, k);
                                        if k1 == s.len() {
                                            None
                                        } else if s[k1] == ',' {
                                            parse_fields(s, k1 + 1, c2, t2, m2)
                                        } else if s[k1] == '}' {
                                            match (c2, t2, m2) {
                                                (Some(c), Some(t), Some(m)) => Some(
                                                    (
                                                        MessageModel { cmd: c, title: t, message: m },
                                                        k1 + 1,
                                                    ),
                                                ),
                                                _ => None,
                                            }
                                        } else {
                                            None
                                        }
                                    },
                                }
                            },
                        }
                    }
                }
            },
        }
    }
}

#[via_fn]
proof fn parse_fields_decreases(
    s: Seq<char>,
    i: int,
    cmd: Option<Seq<char>>,
    title: Option<Seq<char>>,
    message: Option<Seq<char>>,
) {
    lemma_ws_end_bounds(s, i);
    let i1 = ws_end(s, i);
    if i1 < s.len() && s[i1] == '"' {
        lemma_str_body_bounds(s, i1 + 1, Seq::empty());
        match str_body(s, i1 + 1, Seq::empty()) {
            Some((key, j)) => {
                lemma_ws_end_bounds(s, j);
                let j1 = ws_end(s, j);
                if j1 < s.len() && s[j1] == ':' {
                    lemma_ws_end_bounds(s, j1 + 1);
                    let j2 = ws_end(s, j1 + 1);
                    if j2 < s.len() && s[j2] == '"' {
                        lemma_str_body_bounds(s, j2 + 1, Seq::empty());
                        match str_body(s, j2 + 1, Seq::empty()) {
                            Some((val, k)) => {
                                lemma_ws_end_bounds(s, k);
                            },
                            None => {},
                        }
                    }
                }
            },
            None => {},
        }
    }
}

/// Parses a whole request: one object and nothing but whitespace around it.
pub open spec fn parse_msg(s: Seq<char>) -> Option<MessageModel> {
    let i0 = ws_end(s, 0);
    if i0 == s.len() || s[i0] != '{' {
        None
    } else {
        match parse_fields(s, i0 + 1, None, None, None) {
            None => None,
            Some((m, j)) => if 0 <= j <= s.len() && ws_end(s, j) == s.len() {
                Some(m)
            } else {
                None
            },
        }
    }
}

/// One hexadecimal digit as a character.
pub open spec fn hex_char(d: u32) -> char {
    if d == 0 {
        '0'
    } else if d == 1 {
        '1'
    } else if d == 2 {
        '2'
    } else if d == 3 {
        '3'
    } else if d == 4 {
        '4'
    } else if d == 5 {
        '5'
    } else if d == 6 {
        '6'
    } else if d == 7 {
        '7'
    } else if d == 8 {
        '8'
    } else if d == 9 {
        '9'
    } else if d == 10 {
        'a'
    } else if d == 11 {
        'b'
    } else if d == 12 {
        'c'
    } else if d == 13 {
        'd'
    } else if d == 14 {
        'e'
    } else {
        'f'
    }
}

/// How the encoder writes one character of a field value.
pub open spec fn esc_char_seq(c: char) -> Seq<char> {
    if c == '"' {
        seq!['\\', '"']
    } else if c == '\\' {
        seq!['\\', '\\']
    } else if (c as u32) < 0x20 {
        seq!['\\', 'u', '0', '0', hex_char((c as u32) / 16), hex_char((c as u32) % 16)]
    } else {
        seq![c]
    }
}

/// How the encoder writes a whole field value.
pub open spec fn esc_text(s: Seq<char>) -> Seq<char>
    decreases s.len(),
{
    if s.len() == 0 {
        Seq::empty()
    } else {
        esc_char_seq(s[0]) + esc_text(s.drop_first())
    }
}

pub proof fn lemma_esc_text_snoc(s: Seq<char>, c: char)
    ensures
        esc_text(s.push(c)) == esc_text(s) + esc_char_seq(c),
    decreases s.len(),
{
    if s.len() == 0 {
        assert(s.push(c)[0] == c);
        assert(s.push(c).drop_first() =~= Seq::<char>::empty());
        assert(esc_text(Seq::<char>::empty()) == Seq::<char>::empty());
        assert(esc_text(s.push(c)) == esc_char_seq(c) + esc_text(Seq::<char>::empty()));
        assert(s =~= Seq::<char>::empty());
        assert(esc_char_seq(c) + Seq::<char>::empty() =~= Seq::<char>::empty()
            + esc_char_seq(c));
    } else {
        assert(s.push(c)[0] == s[0]);
        assert(s.push(c).drop_first() =~= s.drop_first().push(c));
        lemma_esc_text_snoc(s.drop_first(), c);
        assert(esc_text(s.push(c)) == esc_char_seq(s[0]) + esc_text(s.drop_first().push(c)));
        assert(esc_text(s.drop_first().push(c)) == esc_text(s.drop_first()) + esc_char_seq(c));
        assert(esc_char_seq(s[0]) + (esc_text(s.drop_first()) + esc_char_seq(c)) =~= (esc_char_seq(
            s[0],
        ) + esc_text(s.drop_first())) + esc_char_seq(c));
    }
}

/// The characters the encoder emits for a request.
pub open spec fn encode_msg(m: MessageModel) -> Seq<char> {
    seq!['{', '"', 'c', 'm', 'd', '"', ':', '"'] + esc_text(m.cmd) + seq![
        '"',
        ',',
        '"',
        't',
        'i',
        't',
        'l',
        'e',
        '"',
        ':',
        '"',
    ] + esc_text(m.title) + seq![
        '"',
        ',',
        '"',
        'm',
        'e',
        's',
        's',
        'a',
        'g',
        'e',
        '"',
        ':',
        '"',
    ] + esc_text(m.message) + seq!['"', '}']
}

pub proof fn lemma_hex_roundtrip(d: u32)
    requires
        d < 16,
    ensures
        hex_val(hex_char(d)) == Some(d),
{
}

/// Text without quotes, backslashes or control characters is written as it
/// stands.
pub proof fn lemma_esc_text_plain(s: Seq<char>)
    requires
        forall|k: int| 0 <= k < s.len() ==> s[k] != '"' && s[k] != '\\' && (s[k] as u32) >= 0x20,
    ensures
        esc_text(s) == s,
    decreases s.len(),
{
    if s.len() == 0 {
        assert(esc_text(s) =~= s);
    } else {
        assert(esc_char_seq(s[0]) == seq![s[0]]);
        lemma_esc_text_plain(s.drop_first());
        assert(esc_text(s) =~= s);
    }
}

/// Parsing a string body over the escaped form of `t`, followed by the
/// closing quote, yields `t` and stops just past the quote.
pub proof fn lemma_str_body_encoded(s: Seq<char>, i: int, t: Seq<char>, acc: Seq<char>)
    requires
        0 <= i,
        i + esc_text(t).len() + 1 <= s.len(),
        s.subrange(i, i + esc_text(t).len() + 1) == esc_text(t) + seq!['"'],
    ensures
        str_body(s, i, acc) == Some((acc + t, i + esc_text(t).len() + 1)),
    decreases t.len(),
{
    let e = esc_text(t);
    let sub = s.subrange(i, i + e.len() + 1);
    if t.len() == 0 {
        assert(e == Seq::<char>::empty());
        assert(s[i] == sub[0]);
        assert(sub[0] == (e + seq!['"'])[0]);
        assert(s[i] == '"');
        assert(str_body(s, i, acc) == Some((acc, i + 1)));
        assert(acc + t =~= acc);
    } else {
        let c = t[0];
        let rest = t.drop_first();
        assert(e == esc_char_seq(c) + esc_text(rest));
        let w = esc_char_seq(c).len() as int;
        let er = esc_text(rest);
        let eq = e + seq!['"'];
        assert forall|k: int| 0 <= k < e.len() + 1 implies s[i + k] == eq[k] by {
            assert(sub[k] == s[i + k]);
        }
        assert forall|k: int| 0 <= k < w implies s[i + k] == #[trigger] esc_char_seq(c)[k] by {
            assert(s[i + k] == eq[k]);
            assert(eq[k] == e[k]);
            assert(e[k] == esc_char_seq(c)[k]);
        }
        assert(s.subrange(i + w, i + e.len() + 1) =~= er + seq!['"']) by {
            assert forall|k: int| 0 <= k < er.len() + 1 implies s.subrange(
                i + w,
                i + e.len() + 1,
            )[k] == (er + seq!['"'])[k] by {
                assert(s.subrange(i + w, i + e.len() + 1)[k] == s[i + w + k]);
                assert(s[i + w + k] == (e + seq!['"'])[w + k]);
                if w + k < e.len() {
                    assert((e + seq!['"'])[w + k] == e[w + k]);
                    assert(e[w + k] == er[k]);
                }
            }
        }
        if c == '"' || c == '\\' {
            assert(esc_char_seq(c) == seq!['\\', c]);
            assert(s[i + 0] == esc_char_seq(c)[0] && s[i + 1] == esc_char_seq(c)[1]);
            assert(s[i] == '\\');
            assert(s[i + 1] == c);
            assert(short_escape(c) == Some(c));
            assert(str_body(s, i, acc) == str_body(s, i + 2, acc.push(c)));
            lemma_str_body_encoded(s, i + 2, rest, acc.push(c));
            assert(acc.push(c) + rest =~= acc + t);
        } else if (c as u32) < 0x20 {
            let u = c as u32;
            assert(esc_char_seq(c) == seq!['\\', 'u', '0', '0', hex_char(u / 16), hex_char(
                u % 16,
            )]);
            assert(s[i + 0] == esc_char_seq(c)[0] && s[i + 1] == esc_char_seq(c)[1] && s[i + 2]
                == esc_char_seq(c)[2] && s[i + 3] == esc_char_seq(c)[3] && s[i + 4]
                == esc_char_seq(c)[4] && s[i + 5] == esc_char_seq(c)[5]);
            assert(s[i] == '\\');
            assert(s[i + 1] == 'u');
            assert(s[i + 2] == '0');
            assert(s[i + 3] == '0');
            assert(s[i + 4] == hex_char(u / 16));
            assert(s[i + 5] == hex_char(u % 16));
            assert(hex_val('0') == Some(0u32));
            lemma_hex_roundtrip(u / 16);
            lemma_hex_roundtrip(u % 16);
            let v = (0u32 * 4096 + 0u32 * 256 + (u / 16) * 16 + u % 16) as u32;
            assert(hex4_val(s, i + 2) == Some(v));
            assert(v == u) by {
                assert((u / 16) * 16 + u % 16 == u) by (nonlinear_arith)
                    requires
                        u < 0x20,
                ;
            }
            assert(is_scalar(v));
            assert(str_body(s, i, acc) == str_body(s, i + 6, acc.push(v as char)));
            vstd::utf8::char_u32_cast(c, v);
            assert(v as char == c);
            lemma_str_body_encoded(s, i + 6, rest, acc.push(c));
            assert(acc.push(c) + rest =~= acc + t);
        } else {
            assert(esc_char_seq(c) == seq![c]);
            assert(s[i + 0] == esc_char_seq(c)[0]);
            assert(s[i] == c);
            assert(str_body(s, i, acc) == str_body(s, i + 1, acc.push(c)));
            lemma_str_body_encoded(s, i + 1, rest, acc.push(c));
            assert(acc.push(c) + rest =~= acc + t);
        }
    }
}

/// Law: the parser inverts the encoder. Decoding the canonical form of any
/// message yields that message back.
#[verifier::rlimit(60)]
pub proof fn lemma_encode_then_parse(m: MessageModel)
    ensures
        parse_msg(encode_msg(m)) == Some(m),
{
    let h1 = seq!['{', '"', 'c', 'm', 'd', '"', ':', '"'];
    let h2 = seq!['"', ',', '"', 't', 'i', 't', 'l', 'e', '"', ':', '"'];
    let h3 = seq!['"', ',', '"', 'm', 'e', 's', 's', 'a', 'g', 'e', '"', ':', '"'];
    let tl = seq!['"', '}'];
    let ec = esc_text(m.cmd);
    let et = esc_text(m.title);
    let em = esc_text(m.message);
    let s = encode_msg(m);
    assert(s == h1 + ec + h2 + et + h3 + em + tl);
    let lc = ec.len() as int;
    let lt = et.len() as int;
    let lm = em.len() as int;
    let b = 8 + lc;
    let c2 = b + 11;
    let d2 = c2 + lt;
    let e2 = d2 + 13;
    let f = e2 + lm;
    assert(s.len() == f + 2);
    // where each fixed character stands
    assert(s[0] == '{' && s[1] == '"' && s[2] == 'c' && s[3] == 'm' && s[4] == 'd' && s[5] == '"'
        && s[6] == ':' && s[7] == '"');
    assert(s[b] == '"' && s[b + 1] == ',' && s[b + 2] == '"' && s[b + 3] == 't' && s[b + 4] == 'i'
        && s[b + 5] == 't' && s[b + 6] == 'l' && s[b + 7] == 'e' && s[b + 8] == '"' && s[b + 9]
        == ':' && s[b + 10] == '"');
    assert(s[d2] == '"' && s[d2 + 1] == ',' && s[d2 + 2] == '"' && s[d2 + 3] == 'm' && s[d2 + 4]
        == 'e' && s[d2 + 5] == 's' && s[d2 + 6] == 's' && s[d2 + 7] == 'a' && s[d2 + 8] == 'g' && s[
        d2 + 9
    ] == 'e' && s[d2 + 10] == '"' && s[d2 + 11] == ':' && s[d2 + 12] == '"');
    assert(s[f] == '"' && s[f + 1] == '}');
    // the three keys are written as they stand
    assert(esc_text(cmd_key()) == cmd_key()) by {
        lemma_esc_text_plain(cmd_key());
    }
    assert(esc_text(title_key()) == title_key()) by {
        lemma_esc_text_plain(title_key());
    }
    assert(esc_text(message_key()) == message_key()) by {
        lemma_esc_text_plain(message_key());
    }
    // the first member: "cmd":"<cmd>"
    assert(s.subrange(2, 6) =~= esc_text(cmd_key()) + seq!['"']);
    lemma_str_body_encoded(s, 2, cmd_key(), Seq::empty());
    assert(Seq::empty() + cmd_key() =~= cmd_key());
    assert(str_body(s, 2, Seq::empty()) == Some((cmd_key(), 6int)));
    assert(s.subrange(8, b + 1) =~= ec + seq!['"']);
    lemma_str_body_encoded(s, 8, m.cmd, Seq::empty());
    assert(Seq::empty() + m.cmd =~= m.cmd);
    assert(str_body(s, 8, Seq::empty()) == Some((m.cmd, b + 1)));
    // the second member: "title":"<title>"
    assert(s.subrange(b + 3, b + 9) =~= esc_text(title_key()) + seq!['"']);
    lemma_str_body_encoded(s, b + 3, title_key(), Seq::empty());
    assert(Seq::empty() + title_key() =~= title_key());
    assert(str_body(s, b + 3, Seq::empty()) == Some((title_key(), b + 9)));
    assert(s.subrange(c2, d2 + 1) =~= et + seq!['"']);
    lemma_str_body_encoded(s, c2, m.title, Seq::empty());
    assert(Seq::empty() + m.title =~= m.title);
    assert(str_body(s, c2, Seq::empty()) == Some((m.title, d2 + 1)));
    // the third member: "message":"<message>"
    assert(s.subrange(d2 + 3, d2 + 11) =~= esc_text(message_key()) + seq!['"']);
    lemma_str_body_encoded(s, d2 + 3, message_key(), Seq::empty());
    assert(Seq::empty() + message_key() =~= message_key());
    assert(str_body(s, d2 + 3, Seq::empty()) == Some((message_key(), d2 + 11)));
    assert(s.subrange(e2, f + 1) =~= em + seq!['"']);
    lemma_str_body_encoded(s, e2, m.message, Seq::empty());
    assert(Seq::empty() + m.message =~= m.message);
    assert(str_body(s, e2, Seq::empty()) == Some((m.message, f + 1)));
    // the keys differ from one another
    assert(cmd_key() != title_key() && cmd_key() != message_key() && title_key()
        != message_key()) by {
        assert(cmd_key().len() == 3 && title_key().len() == 5 && message_key().len() == 7);
    }
    // walk the object, one member at a time
    assert(ws_end(s, 1) == 1 && ws_end(s, 6) == 6 && ws_end(s, 7) == 7);
    assert(ws_end(s, b + 1) == b + 1 && ws_end(s, b + 2) == b + 2 && ws_end(s, b + 9) == b + 9
        && ws_end(s, b + 10) == b + 10);
    assert(ws_end(s, d2 + 1) == d2 + 1 && ws_end(s, d2 + 2) == d2 + 2 && ws_end(s, d2 + 11) == d2
        + 11 && ws_end(s, d2 + 12) == d2 + 12);
    assert(ws_end(s, f + 1) == f + 1 && ws_end(s, f + 2) == f + 2);
    assert(parse_fields(s, 1, None, None, None) == parse_fields(
        s,
        b + 2,
        Some(m.cmd),
        None,
        None,
    ));
    assert(parse_fields(s, b + 2, Some(m.cmd), None, None) == parse_fields(
        s,
        d2 + 2,
        Some(m.cmd),
        Some(m.title),
        None,
    ));
    assert(parse_fields(s, d2 + 2, Some(m.cmd), Some(m.title), None) == Some(
        (MessageModel { cmd: m.cmd, title: m.title, message: m.message }, f + 2),
    ));
    assert(MessageModel { cmd: m.cmd, title: m.title, message: m.message } == m);
    assert(ws_end(s, 0) == 0);
    assert(parse_msg(s) == Some(m));
}

fn is_ws_exec(c: char) -> (b: bool)
    ensures
        b == is_ws(c),
{
    c == ' ' || c == '\t' || c == '\n' || c == '\r'
}

/// Moves an index past insignificant whitespace.
fn skip_ws(v: &Vec<char>, i: usize) -> (r: usize)
    requires
        i <= v@.len(),
    ensures
        r == ws_end(v@, i as int),
        i <= r <= v@.len(),
{
    let mut j = i;
    while j < v.len() && is_ws_exec(v[j])
        invariant
            i <= j <= v@.len(),
            ws_end(v@, i as int) == ws_end(v@, j as int),
        decreases v@.len() - j,
    {
        j = j + 1;
    }
    j
}

fn hex_val_exec(c: char) -> (r: Option<u32>)
    ensures
        r == hex_val(c),
{
    let u = c as u32;
    if 48 <= u && u <= 57 {
        Some(u - 48)
    } else if 97 <= u && u <= 102 {
        Some(u - 87)
    } else if 65 <= u && u <= 70 {
        Some(u - 55)
    } else {
        None
    }
}

fn short_escape_exec(c: char) -> (r: Option<char>)
    ensures
        r == short_escape(c),
{
    if c == '"' {
        Some('"')
    } else if c == '\\' {
        Some('\\')
    } else if c == '/' {
        Some('/')
    } else if c == 'b' {
        Some('\u{8}')
    } else if c == 'f' {
        Some('\u{c}')
    } else if c == 'n' {
        Some('\n')
    } else if c == 'r' {
        Some('\r')
    } else if c == 't' {
        Some('\t')
    } else {
        None
    }
}

/// Parses one JSON string body, from just past the opening quote.
fn parse_string_body(v: &Vec<char>, start: usize) -> (r: Option<(Vec<char>, usize)>)
    requires
        start <= v@.len(),
    ensures
        (match r {
            Some(p) => str_body(v@, start as int, Seq::empty()) == Some((p.0@, p.1 as int))
                && start < p.1 <= v@.len(),
            None => str_body(v@, start as int, Seq::empty()) is None,
        }),
{
    let mut out: Vec<char> = Vec::new();
    let mut i: usize = start;
    loop
        invariant
            start <= i <= v@.len(),
            str_body(v@, start as int, Seq::empty()) == str_body(v@, i as int, out@),
        decreases v@.len() - i,
    {
        if i == v.len() {
            return None;
        }
        let c = v[i];
        if c == '"' {
            return Some((out, i + 1));
        } else if c == '\\' {
            if i + 1 == v.len() {
                return None;
            }
            let c1 = v[i + 1];
            if c1 == 'u' {
                if v.len() - i < 6 {
                    return None;
                }
                let a = match hex_val_exec(v[i + 2]) {
                    Some(x) => x,
                    None => {
                        return None;
                    },
                };
                let b = match hex_val_exec(v[i + 3]) {
                    Some(x) => x,
                    None => {
                        return None;
                    },
                };
                let cc = match hex_val_exec(v[i + 4]) {
                    Some(x) => x,
                    None => {
                        return None;
                    },
                };
                let d = match hex_val_exec(v[i + 5]) {
                    Some(x) => x,
                    None => {
                        return None;
                    },
                };
                let val = a * 4096 + b * 256 + cc * 16 + d;
                if 0xD800 <= val && val < 0xE000 {
                    return None;
                }
                let ch = char_of_u32(val);
                proof {
                    char_u32_cast(ch, val);
                }
                out.push(ch);
                i = i + 6;
            } else {
                match short_escape_exec(c1) {
                    Some(e) => {
                        out.push(e);
                        i = i + 2;
                    },
                    None => {
                        return None;
                    },
                }
            }
        } else if (c as u32) < 0x20 {
            return None;
        } else {
            out.push(c);
            i = i + 1;
        }
    }
}

fn is_cmd_key(k: &Vec<char>) -> (b: bool)
    ensures
        b == (k@ == cmd_key()),
{
    let b = k.len() == 3 && k[0] == 'c' && k[1] == 'm' && k[2] == 'd';
    proof {
        if k@ == cmd_key() {
            assert(k@.len() == 3 && k@[0] == 'c' && k@[1] == 'm' && k@[2] == 'd');
        }
        if b {
            assert(k@ =~= cmd_key());
        }
    }
    b
}

fn is_title_key(k: &Vec<char>) -> (b: bool)
    ensures
        b == (k@ == title_key()),
{
    let b = k.len() == 5 && k[0] == 't' && k[1] == 'i' && k[2] == 't' && k[3] == 'l' && k[4]
        == 'e';
    proof {
        if k@ == title_key() {
            assert(k@.len() == 5 && k@[0] == 't' && k@[1] == 'i' && k@[2] == 't' && k@[3] == 'l'
                && k@[4] == 'e');
        }
        if b {
            assert(k@ =~= title_key());
        }
    }
    b
}

fn is_message_key(k: &Vec<char>) -> (b: bool)
    ensures
        b == (k@ == message_key()),
{
    let b = k.len() == 7 && k[0] == 'm' && k[1] == 'e' && k[2] == 's' && k[3] == 's' && k[4] == 'a'
        && k[5] == 'g' && k[6] == 'e';
    proof {
        if k@ == message_key() {
            assert(k@.len() == 7 && k@[0] == 'm' && k@[1] == 'e' && k@[2] == 's' && k@[3] == 's'
                && k@[4] == 'a' && k@[5] == 'g' && k@[6] == 'e');
        }
        if b {
            assert(k@ =~= message_key());
        }
    }
    b
}

/// The three slots as the specification sees them.
pub open spec fn oview(o: Option<Vec<char>>) -> Option<Seq<char>> {
    match o {
        Some(x) => Some(x@),
        None => None,
    }
}

/// Parses the members of the object, from just past the opening brace.
pub(crate) fn parse_fields_exec(v: &Vec<char>, start: usize) -> (r: Option<
    (Vec<char>, Vec<char>, Vec<char>, usize),
>)
    requires
        start <= v@.len(),
    ensures
        (match r {
            Some(p) => parse_fields(v@, start as int, None, None, None) == Some(
                (MessageModel { cmd: p.0@, title: p.1@, message: p.2@ }, p.3 as int),
            ) && p.3 <= v@.len(),
            None => parse_fields(v@, start as int, None, None, None) is None,
        }),
{
    let mut i: usize = start;
    let mut c_opt: Option<Vec<char>> = None;
    let mut t_opt: Option<Vec<char>> = None;
    let mut m_opt: Option<Vec<char>> = None;
    loop
        invariant
            i <= v@.len(),
            parse_fields(v@, start as int, None, None, None) == parse_fields(
                v@,
                i as int,
                oview(c_opt),
                oview(t_opt),
                oview(m_opt),
            ),
        decreases v@.len() - i,
    {
        let ghost c0 = oview(c_opt);
        let ghost t0 = oview(t_opt);
        let ghost m0 = oview(m_opt);
        let i1 = skip_ws(v, i);
        if i1 == v.len() {
            return None;
        }
        if v[i1] != '"' {
            return None;
        }
        let (key, j) = match parse_string_body(v, i1 + 1) {
            Some(p) => p,
            None => {
                return None;
            },
        };
        let j1 = skip_ws(v, j);
        if j1 == v.len() {
            return None;
        }
        if v[j1] != ':' {
            return None;
        }
        let j2 = skip_ws(v, j1 + 1);
        if j2 == v.len() {
            return None;
        }
        if v[j2] != '"' {
            return None;
        }
        let (val, k) = match parse_string_body(v, j2 + 1) {
            Some(p) => p,
            None => {
                return None;
            },
        };
        if is_cmd_key(&key) {
            if c_opt.is_some() {
                return None;
            }
            c_opt = Some(val);
        } else if is_title_key(&key) {
            if t_opt.is_some() {
                return None;
            }
            t_opt = Some(val);
        } else if is_message_key(&key) {
            if m_opt.is_some() {
                return None;
            }
            m_opt = Some(val);
        } else {
            return None;
        }
        let k1 = skip_ws(v, k);
        if k1 == v.len() {
            return None;
        }
        let ck = v[k1];
        if ck == ',' {
            i = k1 + 1;
        } else if ck == '}' {
            let cf = match c_opt {
                Some(x) => x,
                None => {
                    return None;
                },
            };
            let tf = match t_opt {
                Some(x) => x,
                None => {
                    return None;
                },
            };
            let mf = match m_opt {
                Some(x) => x,
                None => {
                    return None;
                },
            };
            return Some((cf, tf, mf, k1 + 1));
        } else {
            return None;
        }
    }
}

/// Appends the escaped form of one character.
fn push_esc_char(out: &mut Vec<char>, c: char)
    ensures
        final(out)@ == old(out)@ + esc_char_seq(c),
{
    if c == '"' {
        out.push('\\');
        out.push('"');
        proof {
            assert(out@ =~= old(out)@ + esc_char_seq(c));
        }
    } else if c == '\\' {
        out.push('\\');
        out.push('\\');
        proof {
            assert(out@ =~= old(out)@ + esc_char_seq(c));
        }
    } else {
        let u = c as u32;
        if u < 0x20 {
            out.push('\\');
            out.push('u');
            out.push('0');
            out.push('0');
            out.push(hex_char_exec(u / 16));
            out.push(hex_char_exec(u % 16));
            proof {
                assert(out@ =~= old(out)@ + esc_char_seq(c));
            }
        } else {
            out.push(c);
            proof {
                assert(out@ =~= old(out)@ + esc_char_seq(c));
            }
        }
    }
}

fn hex_char_exec(d: u32) -> (c: char)
    requires
        d < 16,
    ensures
        c == hex_char(d),
{
    if d == 0 {
        '0'
    } else if d == 1 {
        '1'
    } else if d == 2 {
        '2'
    } else if d == 3 {
        '3'
    } else if d == 4 {
        '4'
    } else if d == 5 {
        '5'
    } else if d == 6 {
        '6'
    } else if d == 7 {
        '7'
    } else if d == 8 {
        '8'
    } else if d == 9 {
        '9'
    } else if d == 10 {
        'a'
    } else if d == 11 {
        'b'
    } else if d == 12 {
        'c'
    } else if d == 13 {
        'd'
    } else if d == 14 {
        'e'
    } else {
        'f'
    }
}

/// Appends the escaped form of a whole field value.
pub(crate) fn push_escaped(out: &mut Vec<char>, s: &Vec<char>)
    ensures
        final(out)@ == old(out)@ + esc_text(s@),
{
    let mut i: usize = 0;
    proof {
        assert(esc_text(s@.subrange(0, 0)) == Seq::<char>::empty()) by {
            assert(s@.subrange(0, 0) =~= Seq::<char>::empty());
        }
        assert(out@ =~= old(out)@ + esc_text(s@.subrange(0, 0)));
    }
    while i < s.len()
        invariant
            i <= s@.len(),
            out@ == old(out)@ + esc_text(s@.subrange(0, i as int)),
        decreases s@.len() - i,
    {
        push_esc_char(out, s[i]);
        proof {
            assert(s@.subrange(0, i + 1 as int) =~= s@.subrange(0, i as int).push(s@[i as int]));
            lemma_esc_text_snoc(s@.subrange(0, i as int), s@[i as int]);
            assert(out@ =~= old(out)@ + esc_text(s@.subrange(0, i + 1 as int)));
        }
        i = i + 1;
    }
    proof {
        assert(s@.subrange(0, s@.len() as int) =~= s@);
    }
}

/// Parses a whole request held in a character vector.
pub(crate) fn parse_msg_exec(v: &Vec<char>) -> (r: Option<(Vec<char>, Vec<char>, Vec<char>)>)
    ensures
        (match r {
            Some(p) => parse_msg(v@) == Some(
                MessageModel { cmd: p.0@, title: p.1@, message: p.2@ },
            ),
            None => parse_msg(v@) is None,
        }),
{
    let i0 = skip_ws(v, 0);
    if i0 == v.len() {
        return None;
    }
    if v[i0] != '{' {
        return None;
    }
    let (cf, tf, mf, j) = match parse_fields_exec(v, i0 + 1) {
        Some(p) => p,
        None => {
            return None;
        },
    };
    let j1 = skip_ws(v, j);
    if j1 != v.len() {
        return None;
    }
    Some((cf, tf, mf))
}

} // verus!
