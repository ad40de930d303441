//! Formatting one chat event as a line of text, in one of two styles: a
//! plain human-readable line, and a structured machine-readable line that
//! loses no information — `parse_structured` reads it back to an equal
//! event, which `lemma_structured_round_trip` proves.
use vstd::prelude::*;

use crate::chat::ChatMessage;
use crate::chat::ChatMessageView;
use crate::codec::chars_match_at;
use crate::codec::chars_to_string;
use crate::codec::dec_seq;
use crate::codec::dec_val;
use crate::codec::escape_chars;
use crate::codec::escape_seq;
use crate::codec::is_digit_char;
use crate::codec::is_prefix_of;
use crate::codec::lemma_dec_seq_digits;
use crate::codec::lemma_dec_val_of_dec_seq;
use crate::codec::lemma_scan_digits_of_run;
use crate::codec::lemma_scan_escaped;
use crate::codec::scan_digits;
use crate::codec::scan_quoted;
use crate::codec::scan_quoted_from;
use crate::codec::scan_u64_from;
use crate::codec::str_to_chars;
use crate::codec::u64_to_dec_chars;
use crate::codec::append_chars;

verus! {

/// The last second of year 9999, safely inside the calendar range that
/// the timestamp formatter supports.
pub const MAX_CIVIL_TIMESTAMP: u64 = 253402300799;

/// The civil date-and-time text, `YYYY-MM-DD HH:MM:SS` in UTC, of a
/// moment given in seconds since the Unix epoch. The text is a function
/// of the seconds alone.
pub uninterp spec fn civil_text_of(secs: int) -> Seq<char>;

/// Relies on `chrono::DateTime::<Utc>::from_timestamp` and its `format`
/// with `"%Y-%m-%d %H:%M:%S"`: the printed civil time is determined by
/// the Unix seconds alone (UTC, no locale), and the documentation
/// promises a value for every in-range number of seconds.
#[verifier::external_body]
fn format_timestamp(secs: u64) -> (r: Option<String>)
    ensures
        r matches Some(s) ==> s@ == civil_text_of(secs as int),
        secs <= MAX_CIVIL_TIMESTAMP ==> r is Some,
{
    match i64::try_from(secs) {
        Ok(n) => match chrono::DateTime::from_timestamp(n, 0) {
            Some(dt) => Some(dt.format("%Y-%m-%d %H:%M:%S").to_string()),
            None => None,
        },
        Err(_) => None,
    }
}

/// The timestamp text used by the plain style: the civil form within the
/// supported calendar range, the raw seconds beyond it.
pub open spec fn timestamp_text(secs: u64) -> Seq<char> {
    if secs <= MAX_CIVIL_TIMESTAMP {
        civil_text_of(secs as int)
    } else {
        dec_seq(secs as nat)
    }
}

/// The plain human-readable line.
pub open spec fn fmt_simple(m: ChatMessageView) -> Seq<char> {
    timestamp_text(m.sent_at) + " (#"@ + m.channel + ") "@ + m.username + ": "@ + m.message
}

/// The structured machine-readable line: every field quoted and escaped,
/// the timestamp in raw seconds.
pub open spec fn fmt_structured(m: ChatMessageView) -> Seq<char> {
    "{\"channel\":\""@ + escape_seq(m.channel) + seq!['"'] + ",\"username\":\""@ + escape_seq(
        m.username,
    ) + seq!['"'] + ",\"message\":\""@ + escape_seq(m.message) + seq!['"'] + ",\"sent_at\":"@
        + dec_seq(m.sent_at as nat) + seq!['}']
}

/// The two line styles.
#[derive(Debug, Clone, Copy)]
pub enum ChatMessageFormat {
    /// Structured, machine-readable, round-trips without loss.
    Json,
    /// Plain, human-readable.
    Simple,
}

impl Default for ChatMessageFormat {
    fn default() -> (r: Self)
        ensures
            r is Json,
    {
        ChatMessageFormat::Json
    }
}

/// What each style prints for a message: a pure function of the message
/// value and the style.
pub open spec fn spec_format(m: ChatMessageView, style: ChatMessageFormat) -> Seq<char> {
    match style {
        ChatMessageFormat::Simple => fmt_simple(m),
        ChatMessageFormat::Json => fmt_structured(m),
    }
}

/// Anything that turns a message into a line of text.
pub trait ChatMessageFormatter {
    fn format(&self, message: ChatMessage) -> String;
}

impl ChatMessageFormatter for ChatMessageFormat {
    fn format(&self, message: ChatMessage) -> String {
        match self {
            ChatMessageFormat::Simple => format_simple(&message),
            ChatMessageFormat::Json => format_json(&message),
        }
    }
}

impl ChatMessageFormat {
    /// Format one message in this style. Pure: the output is a function
    /// of the message value and the style alone.
    pub fn format(&self, message: &ChatMessage) -> (r: String)
        ensures
            r@ == spec_format(message@, *self),
    {
        match self {
            ChatMessageFormat::Simple => format_simple(message),
            ChatMessageFormat::Json => format_json(message),
        }
    }
}

/// The plain style: `YYYY-MM-DD HH:MM:SS (#channel) author: text`.
pub fn format_simple(message: &ChatMessage) -> (r: String)
    ensures
        r@ == fmt_simple(message@),
{
    let ts: String = if message.sent_at <= MAX_CIVIL_TIMESTAMP {
        match format_timestamp(message.sent_at) {
            Some(s) => s,
            None => {
                proof {
                    assert(false);
                }
                String::new()
            },
        }
    } else {
        chars_to_string(&u64_to_dec_chars(message.sent_at))
    };
    let mut out: Vec<char> = str_to_chars(ts.as_str());
    append_chars(&mut out, &str_to_chars(" (#"));
    append_chars(&mut out, &str_to_chars(message.channel.as_str()));
    append_chars(&mut out, &str_to_chars(") "));
    append_chars(&mut out, &str_to_chars(message.username.as_str()));
    append_chars(&mut out, &str_to_chars(": "));
    append_chars(&mut out, &str_to_chars(message.message.as_str()));
    proof {
        assert(out@ =~= fmt_simple(message@));
    }
    chars_to_string(&out)
}

/// The structured style.
pub fn format_json(message: &ChatMessage) -> (r: String)
    ensures
        r@ == fmt_structured(message@),
{
    let mut out: Vec<char> = str_to_chars("{\"channel\":\"");
    append_chars(&mut out, &escape_chars(&str_to_chars(message.channel.as_str())));
    out.push('"');
    append_chars(&mut out, &str_to_chars(",\"username\":\""));
    append_chars(&mut out, &escape_chars(&str_to_chars(message.username.as_str())));
    out.push('"');
    append_chars(&mut out, &str_to_chars(",\"message\":\""));
    append_chars(&mut out, &escape_chars(&str_to_chars(message.message.as_str())));
    out.push('"');
    append_chars(&mut out, &str_to_chars(",\"sent_at\":"));
    append_chars(&mut out, &u64_to_dec_chars(message.sent_at));
    out.push('}');
    proof {
        assert(out@ =~= fmt_structured(message@));
    }
    chars_to_string(&out)
}

/// What parsing a structured line yields, step by step: the opening
/// brace and field names, each quoted escaped value, then the seconds
/// and the closing brace, with nothing left over.
pub open spec fn spec_parse_structured(t: Seq<char>) -> Option<ChatMessageView> {
    let p1 = "{\"channel\":\""@;
    if !is_prefix_of(p1, t) {
        None
    } else {
        match scan_quoted(t.skip(p1.len() as int)) {
            None => None,
            Some(q1) => {
                let p2 = ",\"username\":\""@;
                if !is_prefix_of(p2, q1.1) {
                    None
                } else {
                    match scan_quoted(q1.1.skip(p2.len() as int)) {
                        None => None,
                        Some(q2) => {
                            let p3 = ",\"message\":\""@;
                            if !is_prefix_of(p3, q2.1) {
                                None
                            } else {
                                match scan_quoted(q2.1.skip(p3.len() as int)) {
                                    None => None,
                                    Some(q3) => {
                                        let p4 = ",\"sent_at\":"@;
                                        if !is_prefix_of(p4, q3.1) {
                                            None
                                        } else {
                                            let rest = q3.1.skip(p4.len() as int);
                                            let run = scan_digits(rest).0;
                                            let tail = scan_digits(rest).1;
                                            if run.len() == 0 || dec_val(run) > u64::MAX {
                                                None
                                            } else if tail != seq!['}'] {
                                                None
                                            } else {
                                                Some(
                                                    ChatMessageView {
                                                        channel: q1.0,
                                                        username: q2.0,
                                                        message: q3.0,
                                                        sent_at: dec_val(run) as u64,
                                                    },
                                                )
                                            }
                                        }
                                    },
                                }
                            }
                        },
                    }
                }
            },
        }
    }
}

/// Read a structured line back into the event it was formatted from.
pub fn parse_structured(line: &str) -> (r: Option<ChatMessage>)
    ensures
        match spec_parse_structured(line@) {
            Some(mv) => r matches Some(m) && m@ == mv,
            None => r is None,
        },
{
    let t = str_to_chars(line);
    let tl = t.len();
    let p1 = str_to_chars("{\"channel\":\"");
    proof {
        assert(t@.len() == tl);
        assert(t@.skip(0) =~= t@);
    }
    if !chars_match_at(&t, &p1, 0) {
        return None;
    }
    let (ch, j1) = match scan_quoted_from(&t, p1.len()) {
        Some(p) => p,
        None => {
            return None;
        },
    };
    let p2 = str_to_chars(",\"username\":\"");
    if !chars_match_at(&t, &p2, j1) {
        return None;
    }
    proof {
        assert(t@.skip(j1 as int).skip(p2@.len() as int) =~= t@.skip(j1 + p2@.len()));
    }
    let (un, j2) = match scan_quoted_from(&t, j1 + p2.len()) {
        Some(p) => p,
        None => {
            return None;
        },
    };
    let p3 = str_to_chars(",\"message\":\"");
    if !chars_match_at(&t, &p3, j2) {
        return None;
    }
    proof {
        assert(t@.skip(j2 as int).skip(p3@.len() as int) =~= t@.skip(j2 + p3@.len()));
    }
    let (ms, j3) = match scan_quoted_from(&t, j2 + p3.len()) {
        Some(p) => p,
        None => {
            return None;
        },
    };
    let p4 = str_to_chars(",\"sent_at\":");
    if !chars_match_at(&t, &p4, j3) {
        return None;
    }
    proof {
        assert(t@.skip(j3 as int).skip(p4@.len() as int) =~= t@.skip(j3 + p4@.len()));
    }
    let (n, j4) = match scan_u64_from(&t, j3 + p4.len()) {
        Some(p) => p,
        None => {
            return None;
        },
    };
    if t.len() - j4 == 1 && t[j4] == '}' {
        proof {
            assert(t@.skip(j4 as int) =~= seq!['}']);
        }
        Some(
            ChatMessage::new(chars_to_string(&ch), chars_to_string(&un), chars_to_string(&ms), n),
        )
    } else {
        proof {
            let tail = t@.skip(j4 as int);
            if tail == seq!['}'] {
                assert(tail.len() == 1);
                assert(tail[0] == t@[j4 as int]);
            }
        }
        None
    }
}

/// Formatting a message in the structured style and parsing the line
/// back yields the message again: the structured form loses nothing.
pub proof fn lemma_structured_round_trip(m: ChatMessageView)
    ensures
        spec_parse_structured(fmt_structured(m)) == Some(m),
{
    let p1 = "{\"channel\":\""@;
    let p2 = ",\"username\":\""@;
    let p3 = ",\"message\":\""@;
    let p4 = ",\"sent_at\":"@;
    let ach = escape_seq(m.channel);
    let aun = escape_seq(m.username);
    let ams = escape_seq(m.message);
    let d = dec_seq(m.sent_at as nat);
    let t = fmt_structured(m);
    let r3 = p4 + d + seq!['}'];
    let r2 = p3 + ams + seq!['"'] + r3;
    let r1 = p2 + aun + seq!['"'] + r2;
    assert(t =~= p1 + (ach + seq!['"'] + r1));
    assert(t.take(p1.len() as int) =~= p1);
    assert(t.skip(p1.len() as int) =~= ach + seq!['"'] + r1);
    lemma_scan_escaped(m.channel, r1);
    assert(r1.take(p2.len() as int) =~= p2);
    assert(r1.skip(p2.len() as int) =~= aun + seq!['"'] + r2);
    lemma_scan_escaped(m.username, r2);
    assert(r2.take(p3.len() as int) =~= p3);
    assert(r2.skip(p3.len() as int) =~= ams + seq!['"'] + r3);
    lemma_scan_escaped(m.message, r3);
    assert(r3.take(p4.len() as int) =~= p4);
    assert(r3.skip(p4.len() as int) =~= d + seq!['}']);
    lemma_dec_seq_digits(m.sent_at as nat);
    assert(!is_digit_char('}'));
    lemma_scan_digits_of_run(d, seq!['}']);
    lemma_dec_val_of_dec_seq(m.sent_at as nat);
    assert(dec_val(d) == m.sent_at as nat);
    let parsed = spec_parse_structured(t);
    assert(parsed matches Some(mv) && mv =~= m);
}

} // verus!
