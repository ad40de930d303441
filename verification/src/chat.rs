//! The normalized chat event that flows through the pipeline.
use vstd::prelude::*;

use crate::codec::chars_to_string;
use crate::codec::str_to_chars;

verus! {

/// One chat message as delivered by the source: immutable once made.
pub struct ChatMessage {
    /// Lowercase channel identifier, without the leading `#`.
    pub channel: String,
    pub username: String,
    pub message: String,
    /// When the source recorded the message: seconds since the Unix
    /// epoch, UTC. Non-decreasing per channel as delivered.
    pub sent_at: u64,
}

/// The mathematical value of a chat message.
#[verifier::ext_equal]
pub struct ChatMessageView {
    pub channel: Seq<char>,
    pub username: Seq<char>,
    pub message: Seq<char>,
    pub sent_at: u64,
}

impl View for ChatMessage {
    type V = ChatMessageView;

    open spec fn view(&self) -> ChatMessageView {
        ChatMessageView {
            channel: self.channel@,
            username: self.username@,
            message: self.message@,
            sent_at: self.sent_at,
        }
    }
}

/// The short display line of a message.
pub open spec fn display_of(m: ChatMessageView) -> Seq<char> {
    "[#"@ + m.channel + "] "@ + m.username + ": "@ + m.message
}

impl ChatMessage {
    pub fn new(channel: String, username: String, message: String, sent_at: u64) -> (r: Self)
        ensures
            r.channel == channel,
            r.username == username,
            r.message == message,
            r.sent_at == sent_at,
    {
        Self { channel, username, message, sent_at }
    }

    pub fn clone(&self) -> (r: Self)
        ensures
            r@ == self@,
    {
        let c = ChatMessage {
            channel: chars_to_string(&str_to_chars(self.channel.as_str())),
            username: chars_to_string(&str_to_chars(self.username.as_str())),
            message: chars_to_string(&str_to_chars(self.message.as_str())),
            sent_at: self.sent_at,
        };
        proof {
            assert(c@ =~= self@);
        }
        c
    }

    /// The short display line: `[#channel] author: text`.
    pub fn display_string(&self) -> (r: String)
        ensures
            r@ == display_of(self@),
    {
        let mut out = String::new();
        out.append("[#");
        out.append(self.channel.as_str());
        out.append("] ");
        out.append(self.username.as_str());
        out.append(": ");
        out.append(self.message.as_str());
        proof {
            assert(out@ =~= display_of(self@));
        }
        out
    }
}

} // verus!
