//! The payload carried by every packet: a kind tag, fragmentation fields and
//! the application bytes.

use vstd::prelude::*;
use crate::protocol::wire::{be_u128, u128_of_be, lemma_u128_be_roundtrip, push_u128, push_all, read_u128};

verus! {

/// What a payload carries.
#[derive(Copy, Clone, PartialEq, Eq, Structural, Debug)]
pub enum PayloadTag {
    Handshake,
    Message,
    DhtQuery,
    DhtResponse,
    RelayFrame,
    FileChunk,
    KeepAlive,
    Dummy,
    DhtOperation,
}

/// The tag that a wire byte denotes, if any.
pub open spec fn payload_tag_of(byte: u8) -> Option<PayloadTag> {
    if byte == 1 {
        Some(PayloadTag::Handshake)
    } else if byte == 2 {
        Some(PayloadTag::Message)
    } else if byte == 3 {
        Some(PayloadTag::DhtQuery)
    } else if byte == 4 {
        Some(PayloadTag::DhtResponse)
    } else if byte == 5 {
        Some(PayloadTag::RelayFrame)
    } else if byte == 6 {
        Some(PayloadTag::FileChunk)
    } else if byte == 7 {
        Some(PayloadTag::KeepAlive)
    } else if byte == 8 {
        Some(PayloadTag::Dummy)
    } else if byte == 9 {
        Some(PayloadTag::DhtOperation)
    } else {
        None
    }
}

/// The wire byte of a tag.
pub open spec fn payload_tag_byte(tag: PayloadTag) -> u8 {
    match tag {
        PayloadTag::Handshake => 1,
        PayloadTag::Message => 2,
        PayloadTag::DhtQuery => 3,
        PayloadTag::DhtResponse => 4,
        PayloadTag::RelayFrame => 5,
        PayloadTag::FileChunk => 6,
        PayloadTag::KeepAlive => 7,
        PayloadTag::Dummy => 8,
        PayloadTag::DhtOperation => 9,
    }
}

impl PayloadTag {
    pub fn from_byte(byte: u8) -> (r: Option<Self>)
        ensures
            r == payload_tag_of(byte),
    {
        match byte {
            1 => Some(PayloadTag::Handshake),
            2 => Some(PayloadTag::Message),
            3 => Some(PayloadTag::DhtQuery),
            4 => Some(PayloadTag::DhtResponse),
            5 => Some(PayloadTag::RelayFrame),
            6 => Some(PayloadTag::FileChunk),
            7 => Some(PayloadTag::KeepAlive),
            8 => Some(PayloadTag::Dummy),
            9 => Some(PayloadTag::DhtOperation),
            _ => None,
        }
    }

    pub fn to_byte(&self) -> (r: u8)
        ensures
            r == payload_tag_byte(*self),
    {
        match self {
            PayloadTag::Handshake => 1,
            PayloadTag::Message => 2,
            PayloadTag::DhtQuery => 3,
            PayloadTag::DhtResponse => 4,
            PayloadTag::RelayFrame => 5,
            PayloadTag::FileChunk => 6,
            PayloadTag::KeepAlive => 7,
            PayloadTag::Dummy => 8,
            PayloadTag::DhtOperation => 9,
        }
    }
}

/// Every tag's byte denotes that tag again, and a byte that denotes a tag is
/// that tag's byte.
pub proof fn lemma_payload_tag_byte_roundtrip(tag: PayloadTag, byte: u8)
    ensures
        payload_tag_of(payload_tag_byte(tag)) == Some(tag),
        payload_tag_of(byte) matches Some(t) ==> payload_tag_byte(t) == byte,
{
}

pub struct Payload {
    pub tag: PayloadTag,
    pub data: Vec<u8>,
    pub fragment_id: u128,
    pub fragment_index: u8,
    pub fragment_total: u8,
}

/// Mathematical value of a payload.
pub struct PayloadView {
    pub tag: PayloadTag,
    pub data: Seq<u8>,
    pub fragment_id: u128,
    pub fragment_index: u8,
    pub fragment_total: u8,
}

impl View for Payload {
    type V = PayloadView;

    open spec fn view(&self) -> PayloadView {
        PayloadView {
            tag: self.tag,
            data: self.data@,
            fragment_id: self.fragment_id,
            fragment_index: self.fragment_index,
            fragment_total: self.fragment_total,
        }
    }
}

/// Length of the fixed part of an encoded payload (tag, fragment id, index, total).
pub open spec fn payload_header_len() -> int {
    19
}

/// Wire form: `[tag] [fragment_id: u128 BE] [index] [total] [data]`.
pub open spec fn payload_wire(p: PayloadView) -> Seq<u8> {
    seq![payload_tag_byte(p.tag)] + be_u128(p.fragment_id) + seq![p.fragment_index, p.fragment_total]
        + p.data
}

/// What decoding `b` as a payload yields.
pub open spec fn parse_payload(b: Seq<u8>) -> Option<PayloadView> {
    if b.len() < 19 {
        None
    } else {
        match payload_tag_of(b[0]) {
            None => None,
            Some(tag) => Some(
                PayloadView {
                    tag,
                    data: b.subrange(19, b.len() as int),
                    fragment_id: u128_of_be(b.subrange(1, 17)),
                    fragment_index: b[17],
                    fragment_total: b[18],
                },
            ),
        }
    }
}

/// Decoding an encoded payload gives back that payload.
pub proof fn lemma_payload_roundtrip(p: PayloadView)
    ensures
        parse_payload(payload_wire(p)) == Some(p),
{
    let w = payload_wire(p);
    assert(w.subrange(1, 17) =~= be_u128(p.fragment_id));
    assert(w.subrange(19, w.len() as int) =~= p.data);
    lemma_u128_be_roundtrip(p.fragment_id);
}

impl Payload {
    pub fn new(tag: PayloadTag, data: Vec<u8>) -> (r: Self)
        ensures
            r@ == (PayloadView { tag, data: data@, fragment_id: 0, fragment_index: 0, fragment_total: 0 }),
    {
        Payload { tag, data, fragment_id: 0, fragment_index: 0, fragment_total: 0 }
    }

    pub fn new_fragment(
        tag: PayloadTag,
        data: Vec<u8>,
        fragment_id: u128,
        fragment_index: u8,
        fragment_total: u8,
    ) -> (r: Self)
        ensures
            r@ == (PayloadView { tag, data: data@, fragment_id, fragment_index, fragment_total }),
    {
        Payload { tag, data, fragment_id, fragment_index, fragment_total }
    }

    pub fn serialize(&self) -> (r: Vec<u8>)
        ensures
            r@ == payload_wire(self@),
    {
        let mut bytes: Vec<u8> = Vec::new();
        bytes.push(self.tag.to_byte());
        push_u128(&mut bytes, self.fragment_id);
        bytes.push(self.fragment_index);
        bytes.push(self.fragment_total);
        push_all(&mut bytes, self.data.as_slice());
        assert(bytes@ =~= payload_wire(self@));
        bytes
    }

    pub fn from_serialized(bytes: Vec<u8>) -> (r: Result<Self, String>)
        ensures
            match r {
                Ok(p) => parse_payload(bytes@) == Some(p@),
                Err(_) => parse_payload(bytes@) is None,
            },
    {
        if bytes.len() < 19 {
            return Err("payload too short".to_string());
        }
        let tag = match PayloadTag::from_byte(bytes[0]) {
            Some(t) => t,
            None => return Err("unknown payload tag".to_string()),
        };
        let fragment_id = read_u128(bytes.as_slice(), 1);
        let fragment_index = bytes[17];
        let fragment_total = bytes[18];
        let ghost whole = bytes@;
        let mut bytes = bytes;
        let data = bytes.split_off(19);
        let p = Payload { tag, data, fragment_id, fragment_index, fragment_total };
        assert(p@ == parse_payload(whole).unwrap());
        Ok(p)
    }
}

} // verus!
