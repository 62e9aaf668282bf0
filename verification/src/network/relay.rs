//! Frames that ask a relay to forward bytes to a registered destination.

use vstd::prelude::*;
use crate::network::addr::PeerAddr;
use crate::network::registry::{RelayRegistry, EntryView};
use crate::protocol::packet::Packet;
use crate::protocol::wire::{be_u128, u128_of_be, lemma_u128_be_roundtrip, push_u128, push_all, take_bytes, read_u128};

verus! {

pub struct RelayFrame {
    pub dest_id: u128,
    pub payload: Vec<u8>,
}

pub struct RelayFrameView {
    pub dest_id: u128,
    pub payload: Seq<u8>,
}

impl View for RelayFrame {
    type V = RelayFrameView;

    open spec fn view(&self) -> RelayFrameView {
        RelayFrameView { dest_id: self.dest_id, payload: self.payload@ }
    }
}

/// Wire form: `[dest_id: u128 BE] [payload]`.
pub open spec fn relay_frame_wire(f: RelayFrameView) -> Seq<u8> {
    be_u128(f.dest_id) + f.payload
}

/// What decoding `b` as a relay frame yields.
pub open spec fn parse_relay_frame(b: Seq<u8>) -> Option<RelayFrameView> {
    if b.len() < 16 {
        None
    } else {
        Some(RelayFrameView { dest_id: u128_of_be(b.subrange(0, 16)), payload: b.subrange(16, b.len() as int) })
    }
}

/// Decoding an encoded relay frame gives it back.
pub proof fn lemma_relay_frame_roundtrip(f: RelayFrameView)
    ensures
        parse_relay_frame(relay_frame_wire(f)) == Some(f),
{
    let w = relay_frame_wire(f);
    assert(w.subrange(0, 16) =~= be_u128(f.dest_id));
    assert(w.subrange(16, w.len() as int) =~= f.payload);
    lemma_u128_be_roundtrip(f.dest_id);
}

impl RelayFrame {
    pub fn new(dest_id: u128, payload: Vec<u8>) -> (r: Self)
        ensures
            r@ == (RelayFrameView { dest_id, payload: payload@ }),
    {
        RelayFrame { dest_id, payload }
    }

    pub fn serialize(&self) -> (r: Vec<u8>)
        ensures
            r@ == relay_frame_wire(self@),
    {
        let mut bytes: Vec<u8> = Vec::new();
        push_u128(&mut bytes, self.dest_id);
        push_all(&mut bytes, self.payload.as_slice());
        assert(bytes@ =~= relay_frame_wire(self@));
        bytes
    }

    pub fn from_serialized(bytes: Vec<u8>) -> (r: Result<Self, &'static str>)
        ensures
            match r {
                Ok(f) => parse_relay_frame(bytes@) == Some(f@),
                Err(_) => parse_relay_frame(bytes@) is None,
            },
    {
        if bytes.len() < 16 {
            return Err("relay frame too short");
        }
        let ghost b = bytes@;
        let mut bytes = bytes;
        let id_bytes: [u8; 16] = match take_bytes::<16>(&mut bytes) {
            Ok(a) => a,
            Err(_) => return Err("failed to parse dest id"),
        };
        assert(id_bytes@ =~= b.subrange(0, 16));
        let dest_id = read_u128(id_bytes.as_slice(), 0);
        assert(id_bytes@.subrange(0, 16) =~= id_bytes@);
        Ok(RelayFrame { dest_id, payload: bytes })
    }
}

/// Where a relay sends a frame it receives: the frame's payload goes to the
/// address of the first registered entry with the frame's destination ID;
/// frames that do not read, or whose destination is unknown, go nowhere.
pub open spec fn frame_route(reg: Seq<EntryView>, data: Seq<u8>) -> Option<(Seq<u8>, PeerAddr)> {
    match parse_relay_frame(data) {
        None => None,
        Some(f) => if exists|i: int| 0 <= i < reg.len() && #[trigger] reg[i].id == f.dest_id {
            let i = choose|i: int| 0 <= i < reg.len() && #[trigger] reg[i].id == f.dest_id
                && forall|j: int| 0 <= j < i ==> (#[trigger] reg[j]).id != f.dest_id;
            Some((f.payload, reg[i].address))
        } else {
            None
        },
    }
}

/// Resolves a relay-frame packet against the registry: the bytes to send
/// on and where to.
pub fn route_frame(registry: &RelayRegistry, packet: &Packet) -> (r: Option<(Vec<u8>, PeerAddr)>)
    ensures
        match frame_route(registry@, packet@.payload.data) {
            None => r is None,
            Some((bytes, addr)) => r matches Some((b, a)) && b@ == bytes && a == addr,
        },
{
    let data = packet.payload.data.clone();
    assert(data@ =~= packet@.payload.data);
    let frame = match RelayFrame::from_serialized(data) {
        Ok(f) => f,
        Err(_) => return None,
    };
    match registry.lookup(frame.dest_id) {
        None => None,
        Some(entry) => {
            proof {
                let reg = registry@;
                let i = choose|i: int| 0 <= i < reg.len() && #[trigger] reg[i] == entry@
                    && entry.id == frame.dest_id && forall|j: int| 0 <= j < i ==> (#[trigger] reg[j]).id != frame.dest_id;
                assert(reg[i].id == frame.dest_id);
                assert(exists|c: int| 0 <= c < reg.len() && #[trigger] reg[c].id == frame.dest_id
                    && forall|j: int| 0 <= j < c ==> (#[trigger] reg[j]).id != frame.dest_id);
                let c = choose|c: int| 0 <= c < reg.len() && #[trigger] reg[c].id == frame.dest_id
                    && forall|j: int| 0 <= j < c ==> (#[trigger] reg[j]).id != frame.dest_id;
                if c < i {
                    assert(reg[c].id != frame.dest_id);
                } else if i < c {
                    assert(reg[i].id != frame.dest_id);
                }
            }
            Some((frame.payload, entry.address))
        },
    }
}

} // verus!
