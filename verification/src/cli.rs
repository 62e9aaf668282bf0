//! Hex text for keys and IDs: reading a public key that a user types (64
//! hex digits, with or without a leading `0x`), and writing bytes as hex.

use vstd::prelude::*;
use vstd::string::StringSliceAdditionalSpecFns;
use crate::protocol::wire::{copy_tail, copy_array};

verus! {

/// The value of a hex digit (either case).
pub open spec fn hex_value(c: u8) -> Option<u8> {
    if 0x30 <= c <= 0x39 {
        Some((c - 0x30) as u8)
    } else if 0x61 <= c <= 0x66 {
        Some((c - 0x61 + 10) as u8)
    } else if 0x41 <= c <= 0x46 {
        Some((c - 0x41 + 10) as u8)
    } else {
        None
    }
}

/// The bytes that a string of hex digit pairs denotes, high digit first.
pub open spec fn hex_bytes(s: Seq<u8>) -> Option<Seq<u8>>
    decreases s.len(),
{
    if s.len() % 2 != 0 {
        None
    } else if s.len() == 0 {
        Some(Seq::empty())
    } else {
        match (hex_value(s[0]), hex_value(s[1]), hex_bytes(s.subrange(2, s.len() as int))) {
            (Some(h), Some(l), Some(rest)) => Some(seq![(h * 16 + l) as u8] + rest),
            _ => None,
        }
    }
}

/// The text after a leading `0x`, or all of it.
pub open spec fn strip_0x(s: Seq<u8>) -> Seq<u8> {
    if s.len() >= 2 && s[0] == 0x30 && s[1] == 0x78 {
        s.subrange(2, s.len() as int)
    } else {
        s
    }
}

/// `hex::decode`: the bytes that the hex digits of `s` denote; `None` for
/// an odd length or a character that is no hex digit.
#[verifier::external_body]
fn hex_decode(s: &[u8]) -> (r: Option<Vec<u8>>)
    ensures
        match r {
            Some(v) => hex_bytes(s@) == Some(v@),
            None => hex_bytes(s@) is None,
        },
{
    hex::decode(s).ok()
}

/// The lowercase hex digit of a value below 16.
pub open spec fn hex_char(n: int) -> char {
    if n < 10 { (0x30 + n) as char } else { (0x61 + n - 10) as char }
}

/// The lowercase hex text of `s`, two digits per byte, high digit first.
pub open spec fn hex_text(s: Seq<u8>) -> Seq<char>
    decreases s.len(),
{
    if s.len() == 0 {
        Seq::empty()
    } else {
        seq![hex_char((s[0] / 16) as int), hex_char((s[0] % 16) as int)] + hex_text(s.subrange(1, s.len() as int))
    }
}

/// `hex::encode`: the lowercase hex text of the bytes.
#[verifier::external_body]
pub(crate) fn hex_encode(b: &[u8]) -> (r: String)
    ensures
        r@ == hex_text(b@),
{
    hex::encode(b)
}

/// The 32-byte key that `input` spells in hex, if it spells one.
pub fn hex_pk(input: &str) -> (r: Option<[u8; 32]>)
    ensures
        match hex_bytes(strip_0x(input.spec_bytes())) {
            Some(b) => if b.len() == 32 { r matches Some(k) && k@ == b } else { r is None },
            None => r is None,
        },
{
    let bytes = input.as_bytes();
    let stripped = if bytes.len() >= 2 && bytes[0] == 0x30 && bytes[1] == 0x78 {
        copy_tail(bytes, 2)
    } else {
        copy_tail(bytes, 0)
    };
    assert(stripped@ =~= strip_0x(input.spec_bytes()));
    let decoded = match hex_decode(stripped.as_slice()) {
        Some(v) => v,
        None => return None,
    };
    if decoded.len() != 32 {
        return None;
    }
    let k: [u8; 32] = copy_array::<32>(decoded.as_slice(), 0);
    assert(k@ =~= decoded@);
    Some(k)
}

/// The bytes of hex text (the text is ASCII).
pub open spec fn text_bytes(t: Seq<char>) -> Seq<u8> {
    t.map_values(|c: char| c as u8)
}

proof fn lemma_hex_digit(n: int)
    requires
        0 <= n < 16,
    ensures
        hex_value(hex_char(n) as u8) == Some(n as u8),
{
    if n < 10 {
        assert(hex_char(n) as u8 == 0x30 + n);
    } else {
        assert(hex_char(n) as u8 == 0x61 + n - 10);
    }
}

/// Hex text reads back as the bytes it was written from: a key printed as
/// hex and typed back in is the same key.
pub proof fn lemma_hex_roundtrip(b: Seq<u8>)
    ensures
        hex_bytes(text_bytes(hex_text(b))) == Some(b),
    decreases b.len(),
{
    let t = text_bytes(hex_text(b));
    if b.len() > 0 {
        let rest = b.subrange(1, b.len() as int);
        lemma_hex_roundtrip(rest);
        let h = (b[0] / 16) as int;
        let l = (b[0] % 16) as int;
        lemma_hex_digit(h);
        lemma_hex_digit(l);
        assert(hex_text(b) == seq![hex_char(h), hex_char(l)] + hex_text(rest));
        assert(t =~= seq![hex_char(h) as u8, hex_char(l) as u8] + text_bytes(hex_text(rest)));
        assert(t.subrange(2, t.len() as int) =~= text_bytes(hex_text(rest)));
        assert(((h as u8) * 16 + (l as u8)) as u8 == b[0]);
        assert(seq![b[0]] + rest =~= b);
    } else {
        assert(t =~= Seq::<u8>::empty());
    }
}

} // verus!
