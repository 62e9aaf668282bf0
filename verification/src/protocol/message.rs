//! Chat messages as carried inside an established session.

use vstd::prelude::*;
use vstd::utf8::{valid_utf8, decode_utf8, encode_utf8};
use crate::clock::now_millis;
use crate::crypto::random::random_u128;
use crate::protocol::wire::{
    be_u64, be_u128, u64_of_be, u128_of_be, lemma_u64_be_roundtrip, lemma_u128_be_roundtrip,
    push_u64, push_u128, push_all, read_u64, read_u128,
};

verus! {

broadcast use vstd::utf8::group_utf8_lib;

/// Calls `String::from_utf8`. Trusted as std documents it: it succeeds
/// exactly on valid UTF-8, and the string then holds the decoded characters.
#[verifier::external_body]
pub(crate) fn string_from_utf8(bytes: Vec<u8>) -> (r: Option<String>)
    ensures
        r is Some <==> valid_utf8(bytes@),
        r matches Some(s) ==> s@ == decode_utf8(bytes@),
{
    String::from_utf8(bytes).ok()
}

/// Current UNIX time in seconds; 0 when the clock reads before the epoch.
pub fn now_timestamp() -> u64 {
    now_millis() / 1000
}

pub struct Message {
    pub id: u128,
    pub content: String,
    pub timestamp: u64,
    pub reply_to: Option<u128>,
}

pub struct MessageView {
    pub id: u128,
    pub content: Seq<char>,
    pub timestamp: u64,
    pub reply_to: Option<u128>,
}

impl View for Message {
    type V = MessageView;

    open spec fn view(&self) -> MessageView {
        MessageView { id: self.id, content: self.content@, timestamp: self.timestamp, reply_to: self.reply_to }
    }
}

/// The number stored for a reply reference (0 when there is none).
pub open spec fn reply_number(r: Option<u128>) -> u128 {
    match r {
        Some(x) => x,
        None => 0,
    }
}

/// Wire form: `[id: u128 BE] [timestamp: u64 BE] [reply_to: u128 BE, 0 = none] [content UTF-8]`.
pub open spec fn message_wire(m: MessageView) -> Seq<u8> {
    be_u128(m.id) + be_u64(m.timestamp) + be_u128(reply_number(m.reply_to)) + encode_utf8(m.content)
}

/// What decoding `b` (at least 40 bytes) as a message yields.
pub open spec fn parse_message(b: Seq<u8>) -> Option<MessageView> {
    let rest = b.subrange(40, b.len() as int);
    if !valid_utf8(rest) {
        None
    } else {
        let r = u128_of_be(b.subrange(24, 40));
        Some(
            MessageView {
                id: u128_of_be(b.subrange(0, 16)),
                content: decode_utf8(rest),
                timestamp: u64_of_be(b.subrange(16, 24)),
                reply_to: if r == 0 { None } else { Some(r) },
            },
        )
    }
}

/// Decoding an encoded message gives it back, unless it refers to a reply
/// number 0, which reads back as no reply.
pub proof fn lemma_message_roundtrip(m: MessageView)
    requires
        m.reply_to != Some(0u128),
    ensures
        message_wire(m).len() >= 40,
        parse_message(message_wire(m)) == Some(m),
{
    let w = message_wire(m);
    assert(w.subrange(0, 16) =~= be_u128(m.id));
    assert(w.subrange(16, 24) =~= be_u64(m.timestamp));
    assert(w.subrange(24, 40) =~= be_u128(reply_number(m.reply_to)));
    assert(w.subrange(40, w.len() as int) =~= encode_utf8(m.content));
    lemma_u128_be_roundtrip(m.id);
    lemma_u64_be_roundtrip(m.timestamp);
    lemma_u128_be_roundtrip(reply_number(m.reply_to));
}

impl Message {
    /// A new message with a random id, stamped with the current time.
    pub fn new(content: String, reply_to: Option<u128>) -> (r: Message)
        ensures
            r.content@ == content@,
            r.reply_to == reply_to,
    {
        let id = random_u128();
        let timestamp = now_timestamp();
        Message { id, content, timestamp, reply_to }
    }

    pub fn serialize(&self) -> (r: Result<Vec<u8>, &'static str>)
        ensures
            r matches Ok(b) && b@ == message_wire(self@),
    {
        let mut serialized: Vec<u8> = Vec::new();
        push_u128(&mut serialized, self.id);
        push_u64(&mut serialized, self.timestamp);
        let reply = match self.reply_to {
            Some(x) => x,
            None => 0,
        };
        push_u128(&mut serialized, reply);
        push_all(&mut serialized, self.content.as_str().as_bytes());
        assert(serialized@ =~= message_wire(self@));
        Ok(serialized)
    }

    pub fn from_serialized(serialized: Vec<u8>) -> (r: Result<Message, &'static str>)
        requires
            serialized@.len() >= 40,
        ensures
            match r {
                Ok(m) => parse_message(serialized@) == Some(m@),
                Err(_) => parse_message(serialized@) is None,
            },
    {
        let id = read_u128(serialized.as_slice(), 0);
        let timestamp = read_u64(serialized.as_slice(), 16);
        let reply_to = read_u128(serialized.as_slice(), 24);
        let reply_to = if reply_to == 0 {
            None
        } else {
            Some(reply_to)
        };
        let mut serialized = serialized;
        let content_bytes = serialized.split_off(40);
        let content = match string_from_utf8(content_bytes) {
            Some(s) => s,
            None => return Err("invalid UTF-8 in message content"),
        };
        Ok(Message { id, content, timestamp, reply_to })
    }
}

} // verus!
