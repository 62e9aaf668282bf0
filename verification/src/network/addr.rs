//! Socket addresses as plain values, and their wire form
//! `[kind: 4 | 6] [ip: 4 | 16 bytes] [port: u16 BE]`.

use vstd::prelude::*;
use crate::protocol::wire::{be_u16, be_u32, be_u128, u16_of_be, u32_of_be, u128_of_be,
    lemma_u16_be_roundtrip, lemma_u32_be_roundtrip, lemma_u128_be_roundtrip, push_u16, push_u32, push_u128,
    read_u16, read_u32, read_u128};

verus! {

/// An IPv4 or IPv6 socket address; the IP is held as its big-endian number.
#[derive(Copy, Clone, PartialEq, Eq, Structural, Hash, Debug)]
#[allow(inconsistent_fields)]
pub enum PeerAddr {
    V4 { ip: u32, port: u16 },
    V6 { ip: u128, port: u16 },
}

/// Wire form of an address.
pub open spec fn addr_wire(a: PeerAddr) -> Seq<u8> {
    match a {
        PeerAddr::V4 { ip, port } => seq![4u8] + be_u32(ip) + be_u16(port),
        PeerAddr::V6 { ip, port } => seq![6u8] + be_u128(ip) + be_u16(port),
    }
}

/// Reads an address at the front of `b`, returning it with the bytes after it.
pub open spec fn parse_addr(b: Seq<u8>) -> Option<(PeerAddr, Seq<u8>)> {
    if b.len() == 0 {
        None
    } else if b[0] == 4 {
        if b.len() < 7 {
            None
        } else {
            Some((PeerAddr::V4 { ip: u32_of_be(b.subrange(1, 5)), port: u16_of_be(b.subrange(5, 7)) }, b.subrange(7, b.len() as int)))
        }
    } else if b[0] == 6 {
        if b.len() < 19 {
            None
        } else {
            Some((PeerAddr::V6 { ip: u128_of_be(b.subrange(1, 17)), port: u16_of_be(b.subrange(17, 19)) }, b.subrange(19, b.len() as int)))
        }
    } else {
        None
    }
}

/// Reading an encoded address back, followed by any bytes, gives the address
/// and those bytes.
pub proof fn lemma_addr_roundtrip(a: PeerAddr, rest: Seq<u8>)
    ensures
        parse_addr(addr_wire(a) + rest) == Some((a, rest)),
{
    let w = addr_wire(a) + rest;
    match a {
        PeerAddr::V4 { ip, port } => {
            assert(w.subrange(1, 5) =~= be_u32(ip));
            assert(w.subrange(5, 7) =~= be_u16(port));
            assert(w.subrange(7, w.len() as int) =~= rest);
            lemma_u32_be_roundtrip(ip);
            lemma_u16_be_roundtrip(port);
        },
        PeerAddr::V6 { ip, port } => {
            assert(w.subrange(1, 17) =~= be_u128(ip));
            assert(w.subrange(17, 19) =~= be_u16(port));
            assert(w.subrange(19, w.len() as int) =~= rest);
            lemma_u128_be_roundtrip(ip);
            lemma_u16_be_roundtrip(port);
        },
    }
}

/// Appends the wire form of `addr` to `out`.
pub fn write_addr(addr: &PeerAddr, out: &mut Vec<u8>)
    ensures
        final(out)@ == old(out)@ + addr_wire(*addr),
{
    let ghost start = out@;
    match addr {
        PeerAddr::V4 { ip, port } => {
            out.push(4u8);
            push_u32(out, *ip);
            push_u16(out, *port);
        },
        PeerAddr::V6 { ip, port } => {
            out.push(6u8);
            push_u128(out, *ip);
            push_u16(out, *port);
        },
    }
    assert(out@ =~= start + addr_wire(*addr));
}

/// Reads the address at `at` in `b`; returns it with the position just past it.
pub fn read_addr(b: &[u8], at: usize) -> (r: Option<(PeerAddr, usize)>)
    requires
        at <= b@.len(),
    ensures
        match parse_addr(b@.subrange(at as int, b@.len() as int)) {
            None => r is None,
            Some((a, rest)) => r matches Some((a2, next)) && a2 == a && next <= b@.len()
                && rest == b@.subrange(next as int, b@.len() as int),
        },
{
    let ghost s = b@.subrange(at as int, b@.len() as int);
    if at >= b.len() {
        return None;
    }
    let kind = b[at];
    if kind == 4 {
        if b.len() - at < 7 {
            return None;
        }
        let ip = read_u32(b, at + 1);
        let port = read_u16(b, at + 5);
        assert(s.subrange(1, 5) =~= b@.subrange(at + 1, at + 5));
        assert(s.subrange(5, 7) =~= b@.subrange(at + 5, at + 7));
        assert(s.subrange(7, s.len() as int) =~= b@.subrange(at + 7, b@.len() as int));
        Some((PeerAddr::V4 { ip, port }, at + 7))
    } else if kind == 6 {
        if b.len() - at < 19 {
            return None;
        }
        let ip = read_u128(b, at + 1);
        let port = read_u16(b, at + 17);
        assert(s.subrange(1, 17) =~= b@.subrange(at + 1, at + 17));
        assert(s.subrange(17, 19) =~= b@.subrange(at + 17, at + 19));
        assert(s.subrange(19, s.len() as int) =~= b@.subrange(at + 19, b@.len() as int));
        Some((PeerAddr::V6 { ip, port }, at + 19))
    } else {
        None
    }
}

} // verus!
