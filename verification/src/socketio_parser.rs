//! The Engine.IO/Socket.IO text frame codec.
//!
//! An event frame looks like `42<n>["<event>",<payload>]`: the `42` prefix,
//! the outbound message number, then a two-element JSON array. Parsing
//! locates the first `[` and the first `,` after the prefix and strips the
//! quotes around the event name and, when present, around the payload.
//! Formatting emits the payload verbatim when it is already bracketed JSON
//! and wraps it in double quotes otherwise.

use vstd::prelude::*;

verus! {

use vstd::string::StrSliceExecFns;
use vstd::string::StringExecFns;
use crate::socketio_message::SocketIOMessage;
use crate::text::push_char;
use crate::text::spec_find;
use crate::text::spec_u64_string;
use crate::text::find_char_from;
use crate::text::u64_to_string;

/// Why a text frame was rejected. Any of these is fatal to the session.
#[derive(Debug, PartialEq, Eq, Structural, Clone, Copy)]
pub enum FrameError {
    /// The frame is shorter than its two-character prefix.
    TooShort,
    /// No `[` after the prefix.
    MissingBracket,
    /// No `,` after the prefix.
    MissingComma,
    /// The comma sits too close to the bracket to leave room for `"<event>"`.
    EventOutOfRange,
    /// Nothing between the comma and the closing bracket position.
    PayloadOutOfRange,
    /// The payload region is empty.
    EmptyPayload,
    /// The payload opens a quoted string that never closes.
    UnterminatedString,
    /// The two-character prefix is not one this server handles.
    UnknownPrefix,
}

/// What parsing an event frame yields: the body after the two-character
/// prefix is scanned for its first `[` and first `,`; the event name sits
/// between `["` and `",` and the payload runs to the closing `]`, losing
/// one layer of surrounding double quotes when present.
pub open spec fn spec_parse_event(p: Seq<char>) -> Result<(Seq<char>, Seq<char>), FrameError> {
    if p.len() < 2 {
        Err(FrameError::TooShort)
    } else {
        let m = p.subrange(2, p.len() as int);
        match spec_find(m, '[', 0) {
            None => Err(FrameError::MissingBracket),
            Some(lb) => match spec_find(m, ',', 0) {
                None => Err(FrameError::MissingComma),
                Some(es) => {
                    if es - 1 < lb + 2 {
                        Err(FrameError::EventOutOfRange)
                    } else if es + 1 > m.len() - 1 {
                        Err(FrameError::PayloadOutOfRange)
                    } else {
                        let event = m.subrange(lb + 2, es - 1);
                        let content = m.subrange(es + 1, m.len() - 1);
                        if content.len() == 0 {
                            Err(FrameError::EmptyPayload)
                        } else if content[0] == '"' {
                            if content.len() < 2 {
                                Err(FrameError::UnterminatedString)
                            } else {
                                Ok((event, content.subrange(1, content.len() - 1)))
                            }
                        } else {
                            Ok((event, content))
                        }
                    }
                }
            },
        }
    }
}

/// Extracts `(event, payload)` from an event frame such as
/// `42<n>["chat","hi"]`. A malformed frame is a typed error; the session
/// that received it is expected to close.
pub fn parse_socketio_message(payload: &str) -> (r: Result<(String, String), FrameError>)
    ensures
        match r {
            Ok(pair) => spec_parse_event(payload@) == Ok::<_, FrameError>((pair.0@, pair.1@)),
            Err(e) => spec_parse_event(payload@) == Err::<(Seq<char>, Seq<char>), _>(e),
        },
{
    let n = payload.unicode_len();
    if n < 2 {
        return Err(FrameError::TooShort);
    }
    let m = payload.substring_char(2, n);
    let m_len = n - 2;
    proof {
        assert(m@ == payload@.subrange(2, payload@.len() as int));
    }
    let lb = match find_char_from(m, '[', 0) {
        Some(i) => i,
        None => {
            return Err(FrameError::MissingBracket);
        },
    };
    let es = match find_char_from(m, ',', 0) {
        Some(i) => i,
        None => {
            return Err(FrameError::MissingComma);
        },
    };
    proof {
        crate::text::lemma_spec_find(m@, '[', 0);
        crate::text::lemma_spec_find(m@, ',', 0);
    }
    if es <= lb + 2 {
        return Err(FrameError::EventOutOfRange);
    }
    if es + 1 >= m_len {
        return Err(FrameError::PayloadOutOfRange);
    }
    let event = m.substring_char(lb + 2, es - 1);
    let content = m.substring_char(es + 1, m_len - 1);
    let content_len = m_len - 1 - (es + 1);
    if content_len == 0 {
        return Err(FrameError::EmptyPayload);
    }
    if content.get_char(0) == '"' {
        if content_len < 2 {
            return Err(FrameError::UnterminatedString);
        }
        let inner = content.substring_char(1, content_len - 1);
        Ok((event.to_owned(), inner.to_owned()))
    } else {
        Ok((event.to_owned(), content.to_owned()))
    }
}

/// A payload already bracketed as JSON is kept verbatim; anything else is
/// wrapped in double quotes.
pub open spec fn spec_quote_payload(m: Seq<char>) -> Seq<char> {
    if m.len() >= 1 && (m[0] == '{' || m[0] == '[') {
        m
    } else {
        seq!['"'] + m + seq!['"']
    }
}

/// The wire form of outbound event number `n` carrying `event` and
/// `message`: `42<n>["<event>",<payload>]`.
pub open spec fn spec_format_frame(n: nat, event: Seq<char>, message: Seq<char>) -> Seq<char> {
    seq!['4', '2'] + spec_u64_string(n) + seq!['[', '"'] + event + seq!['"', ',']
        + spec_quote_payload(message) + seq![']']
}

/// Formats outbound event number `n` for the wire.
pub fn format_event_frame(n: u64, event: &str, message: &str) -> (s: String)
    ensures
        s@ == spec_format_frame(n as nat, event@, message@),
{
    let mut s = u64_to_string(n);
    push_char(&mut s, '[');
    push_char(&mut s, '"');
    s.append(event);
    push_char(&mut s, '"');
    push_char(&mut s, ',');
    let quoted = message.unicode_len() >= 1 && (message.get_char(0) == '{' || {
        message.get_char(0) == '['
    });
    if quoted {
        s.append(message);
    } else {
        push_char(&mut s, '"');
        s.append(message);
        push_char(&mut s, '"');
    }
    push_char(&mut s, ']');
    let mut out = String::new();
    push_char(&mut out, '4');
    push_char(&mut out, '2');
    out.append(s.as_str());
    proof {
        assert(out@ =~= spec_format_frame(n as nat, event@, message@));
    }
    out
}

/// What classifying a whole inbound text frame yields: event frames (`42`)
/// parse as above to `Some((event, payload))`, `41` announces a disconnect
/// (`None`), anything else is rejected.
pub open spec fn spec_parse_ws(p: Seq<char>) -> Result<
    Option<(Seq<char>, Seq<char>)>,
    FrameError,
> {
    if p.len() < 2 {
        Err(FrameError::TooShort)
    } else if p[0] == '4' && p[1] == '2' {
        match spec_parse_event(p) {
            Ok(pair) => Ok(Some(pair)),
            Err(e) => Err(e),
        }
    } else if p[0] == '4' && p[1] == '1' {
        Ok(None)
    } else {
        Err(FrameError::UnknownPrefix)
    }
}

/// Classifies an inbound text frame by its prefix: `42<...>` becomes a
/// `Message` with the parsed event and payload, `41` a `Close`, and any
/// other prefix a fatal error.
pub fn parse_ws_message(payload: &str) -> (r: Result<SocketIOMessage, FrameError>)
    ensures
        match r {
            Ok(m) => match m {
                SocketIOMessage::Message(ev, pl) => spec_parse_ws(payload@) == Ok::<_, FrameError>(
                    Some((ev@, pl@)),
                ),
                SocketIOMessage::Close => spec_parse_ws(payload@) == Ok::<
                    Option<(Seq<char>, Seq<char>)>,
                    FrameError,
                >(None),
                _ => false,
            },
            Err(e) => spec_parse_ws(payload@) == Err::<Option<(Seq<char>, Seq<char>)>, _>(e),
        },
{
    let n = payload.unicode_len();
    if n < 2 {
        return Err(FrameError::TooShort);
    }
    let c0 = payload.get_char(0);
    let c1 = payload.get_char(1);
    if c0 == '4' && c1 == '2' {
        match parse_socketio_message(payload) {
            Ok(pair) => Ok(SocketIOMessage::Message(pair.0, pair.1)),
            Err(e) => Err(e),
        }
    } else if c0 == '4' && c1 == '1' {
        Ok(SocketIOMessage::Close)
    } else {
        Err(FrameError::UnknownPrefix)
    }
}

/// A formatted event frame parses back to exactly the event and payload it
/// was built from, whether the payload went out verbatim as bracketed JSON
/// or wrapped in double quotes. The event name must not contain a comma,
/// since the first comma after the prefix is what separates it from the
/// payload.
pub proof fn lemma_format_parses_back(n: nat, event: Seq<char>, message: Seq<char>)
    requires
        forall|j: int| 0 <= j < event.len() ==> event[j] != ',',
    ensures
        spec_parse_event(spec_format_frame(n, event, message)) == Ok::<_, FrameError>(
            (event, message),
        ),
{
    let d = spec_u64_string(n);
    let dl = d.len() as int;
    let el = event.len() as int;
    let q = spec_quote_payload(message);
    let ql = q.len() as int;
    let ml = message.len() as int;
    assert(ql >= 1);
    let f = spec_format_frame(n, event, message);
    crate::text::lemma_u64_string_digits(n);
    assert(f.len() == dl + el + ql + 7);
    let m = f.subrange(2, f.len() as int);
    assert(m.len() == dl + el + ql + 5);
    assert forall|j: int| 0 <= j < m.len() implies m[j] == f[j + 2] by {}
    assert(m[dl] == '[');
    assert forall|j: int| 0 <= j < dl implies m[j] == d[j] && crate::text::is_decimal_digit(
        m[j],
    ) by {}
    assert forall|j: int| 0 <= j < dl implies m[j] != '[' && m[j] != ',' by {}
    crate::text::lemma_spec_find_is(m, '[', 0, dl);
    assert(m[dl + 1] == '"');
    assert forall|j: int| dl + 2 <= j < dl + 2 + el implies m[j] == event[j - dl - 2] by {}
    assert(m[dl + 2 + el] == '"');
    assert(m[dl + 3 + el] == ',');
    assert forall|j: int| 0 <= j < dl + 3 + el implies m[j] != ',' by {}
    crate::text::lemma_spec_find_is(m, ',', 0, dl + 3 + el);
    let lb = dl;
    let es = dl + 3 + el;
    assert(!(es - 1 < lb + 2));
    assert(!(es + 1 > m.len() - 1));
    assert(m.subrange(lb + 2, es - 1) =~= event);
    let content = m.subrange(es + 1, m.len() - 1);
    assert forall|j: int| dl + 4 + el <= j < dl + 4 + el + ql implies m[j] == q[j - dl - 4
        - el] by {}
    assert(content =~= q);
    if message.len() >= 1 && (message[0] == '{' || message[0] == '[') {
        assert(q == message);
        assert(content[0] != '"');
    } else {
        assert(q == seq!['"'] + message + seq!['"']);
        assert(content[0] == '"');
        assert(ql == ml + 2);
        assert(content.subrange(1, ql - 1) =~= message);
    }
}

/// Round trip: a formatted event frame whose payload is already bracketed
/// JSON parses back to exactly the event and payload it was built from, so
/// reformatting the parse under the same message number reproduces the
/// frame byte for byte.
pub proof fn lemma_event_frame_roundtrip(n: nat, event: Seq<char>, message: Seq<char>)
    requires
        forall|j: int| 0 <= j < event.len() ==> event[j] != ',',
        message.len() >= 1,
        message[0] == '{' || message[0] == '[',
    ensures
        spec_parse_event(spec_format_frame(n, event, message)) == Ok::<_, FrameError>(
            (event, message),
        ),
        spec_format_frame(
            n,
            spec_parse_event(spec_format_frame(n, event, message))->Ok_0.0,
            spec_parse_event(spec_format_frame(n, event, message))->Ok_0.1,
        ) == spec_format_frame(n, event, message),
{
    lemma_format_parses_back(n, event, message);
}

} // verus!
