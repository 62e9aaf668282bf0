//! Tagged records stored as DHT values.

use vstd::prelude::*;
use crate::protocol::wire::push_all;

verus! {

pub const MAX_RECORD_SIZE: usize = 1024;

#[derive(Copy, Clone, PartialEq, Eq, Structural, Debug)]
pub enum RecordTag {
    Contact,
}

/// The tag that a wire byte denotes, if any.
pub open spec fn record_tag_of(byte: u8) -> Option<RecordTag> {
    if byte == 1 {
        Some(RecordTag::Contact)
    } else {
        None
    }
}

/// The wire byte of a tag.
pub open spec fn record_tag_byte(tag: RecordTag) -> u8 {
    match tag {
        RecordTag::Contact => 1,
    }
}

impl RecordTag {
    pub fn from_byte(byte: u8) -> (r: Option<Self>)
        ensures
            r == record_tag_of(byte),
    {
        match byte {
            1 => Some(RecordTag::Contact),
            _ => None,
        }
    }

    pub fn to_byte(&self) -> (r: u8)
        ensures
            r == record_tag_byte(*self),
    {
        match self {
            RecordTag::Contact => 1,
        }
    }
}

/// A tag's byte denotes that tag, and a byte that denotes a tag is its byte.
pub proof fn lemma_record_tag_byte_roundtrip(tag: RecordTag, byte: u8)
    ensures
        record_tag_of(record_tag_byte(tag)) == Some(tag),
        record_tag_of(byte) matches Some(t) ==> record_tag_byte(t) == byte,
{
}

pub struct Record {
    pub tag: RecordTag,
    pub data: Vec<u8>,
}

pub struct RecordView {
    pub tag: RecordTag,
    pub data: Seq<u8>,
}

impl View for Record {
    type V = RecordView;

    open spec fn view(&self) -> RecordView {
        RecordView { tag: self.tag, data: self.data@ }
    }
}

/// Wire form: `[tag] [data]`.
pub open spec fn record_wire(r: RecordView) -> Seq<u8> {
    seq![record_tag_byte(r.tag)] + r.data
}

/// What decoding `b` as a record yields: at least two bytes, a known tag and
/// at most `MAX_RECORD_SIZE` data bytes.
pub open spec fn parse_record(b: Seq<u8>) -> Option<RecordView> {
    if b.len() < 2 {
        None
    } else if record_tag_of(b[0]) is None {
        None
    } else if b.len() - 1 > MAX_RECORD_SIZE {
        None
    } else {
        Some(RecordView { tag: record_tag_of(b[0]).unwrap(), data: b.subrange(1, b.len() as int) })
    }
}

/// Decoding an encoded record gives it back when its data is non-empty and
/// within the size limit.
pub proof fn lemma_record_roundtrip(r: RecordView)
    requires
        1 <= r.data.len() <= MAX_RECORD_SIZE,
    ensures
        parse_record(record_wire(r)) == Some(r),
{
    let w = record_wire(r);
    assert(w.subrange(1, w.len() as int) =~= r.data);
}

impl Record {
    pub fn new(tag: RecordTag, data: Vec<u8>) -> (r: Self)
        ensures
            r@ == (RecordView { tag, data: data@ }),
    {
        Record { tag, data }
    }

    pub fn serialize(&self) -> (r: Vec<u8>)
        ensures
            r@ == record_wire(self@),
    {
        let mut bytes: Vec<u8> = Vec::new();
        bytes.push(self.tag.to_byte());
        push_all(&mut bytes, self.data.as_slice());
        assert(bytes@ =~= record_wire(self@));
        bytes
    }

    pub fn from_serialized(bytes: Vec<u8>) -> (r: Result<Self, String>)
        ensures
            match r {
                Ok(rec) => parse_record(bytes@) == Some(rec@),
                Err(_) => parse_record(bytes@) is None,
            },
    {
        if bytes.len() < 2 {
            return Err("record too short".to_string());
        }
        let tag = match RecordTag::from_byte(bytes[0]) {
            Some(t) => t,
            None => return Err("unknown record tag".to_string()),
        };
        let mut bytes = bytes;
        let data = bytes.split_off(1);
        if data.len() > MAX_RECORD_SIZE {
            return Err("record exceeds max size".to_string());
        }
        Ok(Record { tag, data })
    }
}

} // verus!
