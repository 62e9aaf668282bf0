//! Packets: a fixed header (version, flag bits, id) followed by a payload.

use vstd::prelude::*;
use crate::protocol::payload::{Payload, PayloadView, payload_wire, parse_payload, lemma_payload_roundtrip};
use crate::protocol::wire::{
    be_u32, be_u64, be_u128, u32_of_be, u64_of_be, u128_of_be, lemma_u32_be_roundtrip,
    lemma_u64_be_roundtrip, lemma_u128_be_roundtrip, push_u32, push_u64, push_u128, push_all,
    take_bytes,
};

verus! {

pub const CURRENT_VERSION: u64 = 1;

#[derive(Copy, Clone, PartialEq, Eq, Structural, Debug)]
pub enum PacketFlag {
    AckRequired,
    Ack,
    Fragmented,
    LastFragment,
}

/// The bit that stands for a flag.
pub open spec fn flag_bit(flag: PacketFlag) -> u32 {
    match flag {
        PacketFlag::AckRequired => 1,
        PacketFlag::Ack => 2,
        PacketFlag::Fragmented => 4,
        PacketFlag::LastFragment => 8,
    }
}

pub fn flag_to_int(flag: PacketFlag) -> (r: u32)
    ensures
        r == flag_bit(flag),
{
    match flag {
        PacketFlag::AckRequired => 1,
        PacketFlag::Ack => 2,
        PacketFlag::Fragmented => 4,
        PacketFlag::LastFragment => 8,
    }
}

/// Whether the bit of `flag` is set in `flags`.
pub open spec fn has_flag(flags: u32, flag: PacketFlag) -> bool {
    flags & flag_bit(flag) != 0
}

#[derive(Copy, Clone)]
pub struct PacketFlags {
    pub flags: u32,
}

impl PacketFlags {
    pub fn to_int(&self) -> (r: u32)
        ensures
            r == self.flags,
    {
        self.flags
    }

    pub fn from_int(flags: u32) -> (r: PacketFlags)
        ensures
            r.flags == flags,
    {
        PacketFlags { flags }
    }

    pub fn contains(&self, flag: PacketFlag) -> (r: bool)
        ensures
            r == has_flag(self.flags, flag),
    {
        self.flags & flag_to_int(flag) != 0
    }

    pub fn set(&mut self, flag: PacketFlag)
        ensures
            final(self).flags == old(self).flags | flag_bit(flag),
    {
        self.flags = self.flags | flag_to_int(flag);
    }
}

/// After a flag is set, exactly that flag and the flags set before are set.
pub proof fn lemma_set_flag(flags: u32, flag: PacketFlag, other: PacketFlag)
    ensures
        has_flag(flags | flag_bit(flag), flag),
        has_flag(flags | flag_bit(flag), other) == (other == flag || has_flag(flags, other)),
{
    let b = flag_bit(flag);
    let o = flag_bit(other);
    assert(b == 1 || b == 2 || b == 4 || b == 8);
    assert(o == 1 || o == 2 || o == 4 || o == 8);
    assert(other != flag ==> b != o);
    assert((b == 1u32 || b == 2u32 || b == 4u32 || b == 8u32) ==> (flags | b) & b != 0u32) by (bit_vector);
    assert((b == 1u32 || b == 2u32 || b == 4u32 || b == 8u32) && (o == 1u32 || o == 2u32 || o == 4u32
        || o == 8u32) && b != o ==> (((flags | b) & o != 0u32) == (flags & o != 0u32))) by (bit_vector);
}

/// Distinct flags have distinct bits, so each flag is told apart from the others.
pub proof fn lemma_flag_bits_distinct(a: PacketFlag, b: PacketFlag)
    ensures
        (flag_bit(a) == flag_bit(b)) == (a == b),
        has_flag(flag_bit(a), b) == (a == b),
{
    let x = flag_bit(a);
    let y = flag_bit(b);
    assert((x == 1u32 || x == 2u32 || x == 4u32 || x == 8u32) && (y == 1u32 || y == 2u32 || y == 4u32
        || y == 8u32) ==> ((x & y != 0u32) == (x == y))) by (bit_vector);
}

#[derive(Copy, Clone)]
pub struct PacketHeader {
    pub version: u64,
    pub flags: PacketFlags,
    pub id: u128,
}

pub struct Packet {
    pub header: PacketHeader,
    pub payload: Payload,
}

/// Mathematical value of a packet.
pub struct PacketView {
    pub version: u64,
    pub flags: u32,
    pub id: u128,
    pub payload: PayloadView,
}

impl View for Packet {
    type V = PacketView;

    open spec fn view(&self) -> PacketView {
        PacketView {
            version: self.header.version,
            flags: self.header.flags.flags,
            id: self.header.id,
            payload: self.payload@,
        }
    }
}

/// Wire form: `[version: u64 BE] [flags: u32 BE] [id: u128 BE] [payload]`.
pub open spec fn packet_wire(p: PacketView) -> Seq<u8> {
    be_u64(p.version) + be_u32(p.flags) + be_u128(p.id) + payload_wire(p.payload)
}

/// What decoding `b` as a packet yields.
pub open spec fn parse_packet(b: Seq<u8>) -> Option<PacketView> {
    if b.len() < 28 {
        None
    } else {
        match parse_payload(b.subrange(28, b.len() as int)) {
            None => None,
            Some(payload) => Some(
                PacketView {
                    version: u64_of_be(b.subrange(0, 8)),
                    flags: u32_of_be(b.subrange(8, 12)),
                    id: u128_of_be(b.subrange(12, 28)),
                    payload,
                },
            ),
        }
    }
}

/// Decoding an encoded packet gives back that packet.
pub proof fn lemma_packet_roundtrip(p: PacketView)
    ensures
        parse_packet(packet_wire(p)) == Some(p),
{
    let w = packet_wire(p);
    assert(w.subrange(0, 8) =~= be_u64(p.version));
    assert(w.subrange(8, 12) =~= be_u32(p.flags));
    assert(w.subrange(12, 28) =~= be_u128(p.id));
    assert(w.subrange(28, w.len() as int) =~= payload_wire(p.payload));
    lemma_u64_be_roundtrip(p.version);
    lemma_u32_be_roundtrip(p.flags);
    lemma_u128_be_roundtrip(p.id);
    lemma_payload_roundtrip(p.payload);
}

impl Clone for Packet {
    fn clone(&self) -> (r: Self)
        ensures
            r@ == self@,
    {
        let data = self.payload.data.clone();
        assert(data@ =~= self.payload.data@);
        Packet {
            header: PacketHeader {
                version: self.header.version,
                flags: PacketFlags { flags: self.header.flags.flags },
                id: self.header.id,
            },
            payload: Payload {
                tag: self.payload.tag,
                data,
                fragment_id: self.payload.fragment_id,
                fragment_index: self.payload.fragment_index,
                fragment_total: self.payload.fragment_total,
            },
        }
    }
}

impl Packet {
    pub fn new(flags: u32, id: u128, payload: Payload) -> (r: Packet)
        ensures
            r@ == (PacketView { version: CURRENT_VERSION, flags, id, payload: payload@ }),
    {
        let header = PacketHeader { version: CURRENT_VERSION, flags: PacketFlags { flags }, id };
        Packet { header, payload }
    }

    pub fn serialize(&self) -> (r: Vec<u8>)
        ensures
            r@ == packet_wire(self@),
    {
        let payload_bytes = self.payload.serialize();
        let mut serialized: Vec<u8> = Vec::new();
        push_u64(&mut serialized, self.header.version);
        push_u32(&mut serialized, self.header.flags.to_int());
        push_u128(&mut serialized, self.header.id);
        push_all(&mut serialized, payload_bytes.as_slice());
        assert(serialized@ =~= packet_wire(self@));
        serialized
    }

    pub fn from_serialized(bytes: Vec<u8>) -> (r: Result<Packet, String>)
        ensures
            match r {
                Ok(p) => parse_packet(bytes@) == Some(p@),
                Err(_) => parse_packet(bytes@) is None,
            },
    {
        let ghost b = bytes@;
        let mut bytes = bytes;
        let version_bytes = take_bytes::<8>(&mut bytes)?;
        let flags_bytes = take_bytes::<4>(&mut bytes)?;
        let id_bytes = take_bytes::<16>(&mut bytes)?;
        assert(b.subrange(28, b.len() as int) =~= bytes@);
        assert(version_bytes@ =~= b.subrange(0, 8));
        assert(flags_bytes@ =~= b.subrange(8, 12));
        assert(id_bytes@ =~= b.subrange(12, 28));
        let version = u64_from_array(&version_bytes);
        let flags = u32_from_array(&flags_bytes);
        let id = u128_from_array(&id_bytes);
        let payload = match Payload::from_serialized(bytes) {
            Ok(p) => p,
            Err(_) => return Err("Failed to parse payload".to_string()),
        };
        Ok(Packet { header: PacketHeader { version, flags: PacketFlags::from_int(flags), id }, payload })
    }
}

fn u64_from_array(a: &[u8; 8]) -> (r: u64)
    ensures
        r == u64_of_be(a@),
{
    crate::protocol::wire::read_u64(a.as_slice(), 0)
}

fn u32_from_array(a: &[u8; 4]) -> (r: u32)
    ensures
        r == u32_of_be(a@),
{
    crate::protocol::wire::read_u32(a.as_slice(), 0)
}

fn u128_from_array(a: &[u8; 16]) -> (r: u128)
    ensures
        r == u128_of_be(a@),
{
    crate::protocol::wire::read_u128(a.as_slice(), 0)
}

} // verus!
