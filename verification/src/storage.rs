//! Persistent tables of known peers: the Ed25519 key trusted on first use for
//! each address, and the address last known for each key.
//!
//! Wire form of both: `[count: u32 BE]` then the entries, an entry being
//! `[address] [key: 32]` for peer keys and `[key: 32] [address]` for key
//! addresses. Reading inserts the entries in order; a later entry for a key
//! replaces the earlier one.

use vstd::prelude::*;
use crate::assoc::{assoc_get, assoc_insert, assoc_from, keys_distinct, lemma_assoc_get, lemma_assoc_insert, lemma_assoc_from_distinct,
    lemma_assoc_from_distinct_list};
use crate::crypto::sign::{ed25519_point_valid, ed25519_valid_point};
use crate::network::addr::{PeerAddr, addr_wire, parse_addr, lemma_addr_roundtrip, write_addr, read_addr};
use crate::protocol::wire::{be_u32, u32_of_be, lemma_u32_be_roundtrip, push_u32, push_all, read_u32, copy_array, same_bytes};

verus! {

pub type PeerKeyEntry = (PeerAddr, Seq<u8>);
pub type KeyAddrEntry = (Seq<u8>, PeerAddr);

/// The Ed25519 key trusted for each peer address.
pub struct PeerKeyMap {
    entries: Vec<(PeerAddr, [u8; 32])>,
}

/// The address known for each peer key.
pub struct PkAddrMap {
    entries: Vec<([u8; 32], PeerAddr)>,
}

impl View for PeerKeyMap {
    type V = Seq<PeerKeyEntry>;

    closed spec fn view(&self) -> Seq<PeerKeyEntry> {
        self.entries@.map_values(|p: (PeerAddr, [u8; 32])| (p.0, p.1@))
    }
}

impl View for PkAddrMap {
    type V = Seq<KeyAddrEntry>;

    closed spec fn view(&self) -> Seq<KeyAddrEntry> {
        self.entries@.map_values(|p: ([u8; 32], PeerAddr)| (p.0@, p.1))
    }
}

pub open spec fn peer_keys_entries_wire(s: Seq<PeerKeyEntry>) -> Seq<u8>
    decreases s.len(),
{
    if s.len() == 0 {
        Seq::empty()
    } else {
        peer_keys_entries_wire(s.drop_last()) + addr_wire(s.last().0) + s.last().1
    }
}

pub open spec fn key_addr_entries_wire(s: Seq<KeyAddrEntry>) -> Seq<u8>
    decreases s.len(),
{
    if s.len() == 0 {
        Seq::empty()
    } else {
        key_addr_entries_wire(s.drop_last()) + s.last().0 + addr_wire(s.last().1)
    }
}

pub open spec fn peer_keys_wire(s: Seq<PeerKeyEntry>) -> Seq<u8> {
    be_u32(s.len() as u32) + peer_keys_entries_wire(s)
}

pub open spec fn key_addr_wire(s: Seq<KeyAddrEntry>) -> Seq<u8> {
    be_u32(s.len() as u32) + key_addr_entries_wire(s)
}

/// Reads `count` address-and-key entries; every key must be a valid Ed25519 point.
pub open spec fn parse_peer_key_entries(b: Seq<u8>, count: nat) -> Option<Seq<PeerKeyEntry>>
    decreases count,
{
    if count == 0 {
        Some(Seq::empty())
    } else {
        match parse_addr(b) {
            None => None,
            Some((a, rest)) => if rest.len() < 32 || !ed25519_point_valid(rest.subrange(0, 32)) {
                None
            } else {
                match parse_peer_key_entries(rest.subrange(32, rest.len() as int), (count - 1) as nat) {
                    None => None,
                    Some(es) => Some(seq![(a, rest.subrange(0, 32))] + es),
                }
            },
        }
    }
}

/// Reads `count` key-and-address entries.
pub open spec fn parse_key_addr_entries(b: Seq<u8>, count: nat) -> Option<Seq<KeyAddrEntry>>
    decreases count,
{
    if count == 0 {
        Some(Seq::empty())
    } else if b.len() < 32 {
        None
    } else {
        match parse_addr(b.subrange(32, b.len() as int)) {
            None => None,
            Some((a, rest)) => match parse_key_addr_entries(rest, (count - 1) as nat) {
                None => None,
                Some(es) => Some(seq![(b.subrange(0, 32), a)] + es),
            },
        }
    }
}

/// The table that reading `b` gives, bytes after the last entry ignored.
pub open spec fn parse_peer_keys(b: Seq<u8>) -> Option<Seq<PeerKeyEntry>> {
    if b.len() < 4 {
        None
    } else {
        match parse_peer_key_entries(b.subrange(4, b.len() as int), u32_of_be(b.subrange(0, 4)) as nat) {
            None => None,
            Some(es) => Some(assoc_from(es)),
        }
    }
}

pub open spec fn parse_key_addrs(b: Seq<u8>) -> Option<Seq<KeyAddrEntry>> {
    if b.len() < 4 {
        None
    } else {
        match parse_key_addr_entries(b.subrange(4, b.len() as int), u32_of_be(b.subrange(0, 4)) as nat) {
            None => None,
            Some(es) => Some(assoc_from(es)),
        }
    }
}

#[verifier::rlimit(40)]
proof fn lemma_peer_key_entries_roundtrip(s: Seq<PeerKeyEntry>, rest: Seq<u8>)
    requires
        forall|i: int| 0 <= i < s.len() ==> (#[trigger] s[i]).1.len() == 32 && ed25519_point_valid(s[i].1),
    ensures
        parse_peer_key_entries(peer_keys_entries_wire(s) + rest, s.len()) == Some(s),
    decreases s.len(),
{
    if s.len() > 0 {
        let h = s[0];
        let t = s.drop_first();
        assert forall|i: int| 0 <= i < t.len() implies (#[trigger] t[i]).1.len() == 32 && ed25519_point_valid(t[i].1) by {
            assert(t[i] == s[i + 1]);
        }
        lemma_peer_key_entries_roundtrip(t, rest);
        lemma_peer_keys_wire_front(s);
        let w = peer_keys_entries_wire(s) + rest;
        let after = peer_keys_entries_wire(t) + rest;
        assert(w =~= addr_wire(h.0) + (h.1 + after));
        lemma_addr_roundtrip(h.0, h.1 + after);
        assert((h.1 + after).subrange(0, 32) =~= h.1);
        assert((h.1 + after).subrange(32, (h.1 + after).len() as int) =~= after);
        assert(seq![h] + t =~= s);
    }
}

proof fn lemma_peer_keys_wire_front(s: Seq<PeerKeyEntry>)
    requires
        s.len() > 0,
    ensures
        peer_keys_entries_wire(s) == addr_wire(s[0].0) + s[0].1 + peer_keys_entries_wire(s.drop_first()),
    decreases s.len(),
{
    if s.len() > 1 {
        let p = s.drop_last();
        lemma_peer_keys_wire_front(p);
        assert(p.drop_first() =~= s.drop_first().drop_last());
        assert(p[0] == s[0]);
        assert(s.drop_first().last() == s.last());
    } else {
        assert(s.drop_first() =~= Seq::<PeerKeyEntry>::empty());
        assert(s.drop_last() =~= Seq::<PeerKeyEntry>::empty());
    }
}

proof fn lemma_key_addr_wire_front(s: Seq<KeyAddrEntry>)
    requires
        s.len() > 0,
    ensures
        key_addr_entries_wire(s) == s[0].0 + addr_wire(s[0].1) + key_addr_entries_wire(s.drop_first()),
    decreases s.len(),
{
    if s.len() > 1 {
        let p = s.drop_last();
        lemma_key_addr_wire_front(p);
        assert(p.drop_first() =~= s.drop_first().drop_last());
        assert(p[0] == s[0]);
        assert(s.drop_first().last() == s.last());
    } else {
        assert(s.drop_first() =~= Seq::<KeyAddrEntry>::empty());
        assert(s.drop_last() =~= Seq::<KeyAddrEntry>::empty());
    }
}

#[verifier::rlimit(40)]
proof fn lemma_key_addr_entries_roundtrip(s: Seq<KeyAddrEntry>, rest: Seq<u8>)
    requires
        forall|i: int| 0 <= i < s.len() ==> (#[trigger] s[i]).0.len() == 32,
    ensures
        parse_key_addr_entries(key_addr_entries_wire(s) + rest, s.len()) == Some(s),
    decreases s.len(),
{
    if s.len() > 0 {
        let h = s[0];
        let t = s.drop_first();
        assert forall|i: int| 0 <= i < t.len() implies (#[trigger] t[i]).0.len() == 32 by {
            assert(t[i] == s[i + 1]);
        }
        lemma_key_addr_entries_roundtrip(t, rest);
        lemma_key_addr_wire_front(s);
        let w = key_addr_entries_wire(s) + rest;
        let after = key_addr_entries_wire(t) + rest;
        assert(w.subrange(0, 32) =~= h.0);
        assert(w.subrange(32, w.len() as int) =~= addr_wire(h.1) + after);
        lemma_addr_roundtrip(h.1, after);
        assert(seq![h] + t =~= s);
    }
}

/// Reading a written peer-key table gives it back, when its keys are valid
/// points and it has fewer than 2^32 entries.
pub proof fn lemma_peer_keys_roundtrip(s: Seq<PeerKeyEntry>)
    requires
        keys_distinct(s),
        s.len() < 0x1_0000_0000,
        forall|i: int| 0 <= i < s.len() ==> (#[trigger] s[i]).1.len() == 32 && ed25519_point_valid(s[i].1),
    ensures
        parse_peer_keys(peer_keys_wire(s)) == Some(s),
{
    let w = peer_keys_wire(s);
    lemma_u32_be_roundtrip(s.len() as u32);
    assert(w.subrange(0, 4) =~= be_u32(s.len() as u32));
    assert(w.subrange(4, w.len() as int) =~= peer_keys_entries_wire(s) + Seq::<u8>::empty());
    lemma_peer_key_entries_roundtrip(s, Seq::<u8>::empty());
    lemma_assoc_from_distinct_list(s);
}

/// Reading a written key-address table gives it back, when it has fewer than
/// 2^32 entries.
pub proof fn lemma_key_addrs_roundtrip(s: Seq<KeyAddrEntry>)
    requires
        keys_distinct(s),
        s.len() < 0x1_0000_0000,
        forall|i: int| 0 <= i < s.len() ==> (#[trigger] s[i]).0.len() == 32,
    ensures
        parse_key_addrs(key_addr_wire(s)) == Some(s),
{
    let w = key_addr_wire(s);
    lemma_u32_be_roundtrip(s.len() as u32);
    assert(w.subrange(0, 4) =~= be_u32(s.len() as u32));
    assert(w.subrange(4, w.len() as int) =~= key_addr_entries_wire(s) + Seq::<u8>::empty());
    lemma_key_addr_entries_roundtrip(s, Seq::<u8>::empty());
    lemma_assoc_from_distinct_list(s);
}

impl PeerKeyMap {
    pub closed spec fn wf(&self) -> bool {
        keys_distinct(self@)
    }

    pub fn new() -> (r: Self)
        ensures
            r.wf(),
            r@ == Seq::<PeerKeyEntry>::empty(),
    {
        let r = PeerKeyMap { entries: Vec::new() };
        assert(r@ =~= Seq::<PeerKeyEntry>::empty());
        r
    }

    pub fn len(&self) -> (r: usize)
        ensures
            r == self@.len(),
    {
        self.entries.len()
    }

    /// The key trusted for `addr`.
    pub fn get(&self, addr: &PeerAddr) -> (r: Option<[u8; 32]>)
        requires
            self.wf(),
        ensures
            match r {
                None => assoc_get(self@, *addr) is None,
                Some(k) => assoc_get(self@, *addr) == Some(k@),
            },
    {
        let mut i: usize = 0;
        while i < self.entries.len()
            invariant
                i <= self@.len(),
                self.wf(),
                forall|j: int| 0 <= j < i ==> (#[trigger] self@[j]).0 != *addr,
            decreases self@.len() - i,
        {
            if self.entries[i].0 == *addr {
                assert(self@[i as int] == (*addr, self.entries@[i as int].1@));
                proof {
                    lemma_assoc_get(self@, i as int);
                }
                return Some(self.entries[i].1);
            }
            i = i + 1;
        }
        None
    }

    /// Trusts `key` for `addr`, replacing the key it had.
    pub fn insert(&mut self, addr: PeerAddr, key: [u8; 32])
        requires
            old(self).wf(),
        ensures
            final(self).wf(),
            final(self)@ == assoc_insert(old(self)@, addr, key@),
    {
        let ghost s = self@;
        proof {
            lemma_assoc_insert(s, addr, key@);
        }
        let mut i: usize = 0;
        while i < self.entries.len()
            invariant
                s == self@,
                i <= s.len(),
                forall|j: int| 0 <= j < i ==> (#[trigger] s[j]).0 != addr,
            ensures
                i <= s.len(),
                forall|j: int| 0 <= j < i ==> (#[trigger] s[j]).0 != addr,
                i < s.len() ==> s[i as int].0 == addr,
            decreases s.len() - i,
        {
            if self.entries[i].0 == addr {
                break;
            }
            i = i + 1;
        }
        if i < self.entries.len() {
            assert(s[i as int].0 == addr);
            self.entries.set(i, (addr, key));
            assert(self@ =~= s.update(i as int, (addr, key@)));
        } else {
            self.entries.push((addr, key));
            assert(self@ =~= s.push((addr, key@)));
        }
    }
}

impl PkAddrMap {
    pub closed spec fn wf(&self) -> bool {
        keys_distinct(self@)
    }

    pub fn new() -> (r: Self)
        ensures
            r.wf(),
            r@ == Seq::<KeyAddrEntry>::empty(),
    {
        let r = PkAddrMap { entries: Vec::new() };
        assert(r@ =~= Seq::<KeyAddrEntry>::empty());
        r
    }

    pub fn len(&self) -> (r: usize)
        ensures
            r == self@.len(),
    {
        self.entries.len()
    }

    /// The address known for `key`.
    pub fn get(&self, key: &[u8; 32]) -> (r: Option<PeerAddr>)
        requires
            self.wf(),
        ensures
            match r {
                None => assoc_get(self@, key@) is None,
                Some(a) => assoc_get(self@, key@) == Some(a),
            },
    {
        let mut i: usize = 0;
        while i < self.entries.len()
            invariant
                i <= self@.len(),
                self.wf(),
                forall|j: int| 0 <= j < i ==> (#[trigger] self@[j]).0 != key@,
            decreases self@.len() - i,
        {
            if same_bytes(self.entries[i].0.as_slice(), key.as_slice()) {
                assert(self@[i as int] == (key@, self.entries@[i as int].1));
                proof {
                    lemma_assoc_get(self@, i as int);
                }
                return Some(self.entries[i].1);
            }
            i = i + 1;
        }
        None
    }

    /// Records `addr` for `key`, replacing the address it had.
    pub fn insert(&mut self, key: [u8; 32], addr: PeerAddr)
        requires
            old(self).wf(),
        ensures
            final(self).wf(),
            final(self)@ == assoc_insert(old(self)@, key@, addr),
    {
        let ghost s = self@;
        proof {
            lemma_assoc_insert(s, key@, addr);
        }
        let mut i: usize = 0;
        while i < self.entries.len()
            invariant
                s == self@,
                i <= s.len(),
                forall|j: int| 0 <= j < i ==> (#[trigger] s[j]).0 != key@,
            ensures
                i <= s.len(),
                forall|j: int| 0 <= j < i ==> (#[trigger] s[j]).0 != key@,
                i < s.len() ==> s[i as int].0 == key@,
            decreases s.len() - i,
        {
            if same_bytes(self.entries[i].0.as_slice(), key.as_slice()) {
                break;
            }
            i = i + 1;
        }
        if i < self.entries.len() {
            assert(s[i as int].0 == key@);
            self.entries.set(i, (key, addr));
            assert(self@ =~= s.update(i as int, (key@, addr)));
        } else {
            self.entries.push((key, addr));
            assert(self@ =~= s.push((key@, addr)));
        }
    }
}

pub fn serialize_peer_keys(map: &PeerKeyMap) -> (r: Vec<u8>)
    ensures
        r@ == peer_keys_wire(map@),
{
    let mut out: Vec<u8> = Vec::new();
    push_u32(&mut out, map.entries.len() as u32);
    let mut i: usize = 0;
    while i < map.entries.len()
        invariant
            i <= map@.len(),
            out@ == be_u32(map@.len() as u32) + peer_keys_entries_wire(map@.take(i as int)),
        decreases map@.len() - i,
    {
        let (addr, key) = map.entries[i];
        write_addr(&addr, &mut out);
        push_all(&mut out, key.as_slice());
        proof {
            assert(map@.take(i + 1).drop_last() =~= map@.take(i as int));
            assert(map@.take(i + 1).last() == (addr, key@));
        }
        i = i + 1;
    }
    assert(map@.take(map@.len() as int) =~= map@);
    out
}

pub fn serialize_pk_to_addr(map: &PkAddrMap) -> (r: Vec<u8>)
    ensures
        r@ == key_addr_wire(map@),
{
    let mut out: Vec<u8> = Vec::new();
    push_u32(&mut out, map.entries.len() as u32);
    let mut i: usize = 0;
    while i < map.entries.len()
        invariant
            i <= map@.len(),
            out@ == be_u32(map@.len() as u32) + key_addr_entries_wire(map@.take(i as int)),
        decreases map@.len() - i,
    {
        let (key, addr) = map.entries[i];
        push_all(&mut out, key.as_slice());
        write_addr(&addr, &mut out);
        proof {
            assert(map@.take(i + 1).drop_last() =~= map@.take(i as int));
            assert(map@.take(i + 1).last() == (key@, addr));
        }
        i = i + 1;
    }
    assert(map@.take(map@.len() as int) =~= map@);
    out
}

pub fn deserialize_peer_keys(bytes: &[u8]) -> (r: Result<PeerKeyMap, String>)
    ensures
        match r {
            Ok(m) => m.wf() && parse_peer_keys(bytes@) == Some(m@),
            Err(_) => parse_peer_keys(bytes@) is None,
        },
{
    let ghost b = bytes@;
    if bytes.len() < 4 {
        return Err("peer keys too short".to_string());
    }
    let count = read_u32(bytes, 0);
    let mut cursor: usize = 4;
    let mut map = PeerKeyMap::new();
    let ghost mut read: Seq<PeerKeyEntry> = Seq::empty();
    let mut i: u32 = 0;
    while i < count
        invariant
            b == bytes@,
            4 <= cursor <= b.len(),
            i <= count,
            count == u32_of_be(b.subrange(0, 4)),
            map.wf(),
            map@ == assoc_from(read),
            parse_peer_key_entries(b.subrange(4, b.len() as int), count as nat) == match parse_peer_key_entries(
                b.subrange(cursor as int, b.len() as int), (count - i) as nat) {
                None => None,
                Some(es) => Some(read + es),
            },
        decreases count - i,
    {
        let (addr, next) = match read_addr(bytes, cursor) {
            Some(v) => v,
            None => return Err("truncated or unknown address".to_string()),
        };
        if bytes.len() - next < 32 {
            return Err("truncated at pubkey".to_string());
        }
        let key: [u8; 32] = copy_array::<32>(bytes, next);
        let ghost rest = b.subrange(next as int, b.len() as int);
        assert(rest.subrange(0, 32) =~= key@);
        assert(rest.subrange(32, rest.len() as int) =~= b.subrange(next + 32, b.len() as int));
        if !ed25519_valid_point(&key) {
            return Err("bad verifying key".to_string());
        }
        proof {
            lemma_assoc_from_distinct(read);
            let r2 = read.push((addr, key@));
            assert(r2.drop_last() =~= read);
            match parse_peer_key_entries(b.subrange(next + 32, b.len() as int), (count - i - 1) as nat) {
                None => {},
                Some(es) => {
                    assert(read + (seq![(addr, key@)] + es) =~= r2 + es);
                },
            }
            read = r2;
        }
        map.insert(addr, key);
        cursor = next + 32;
        i = i + 1;
    }
    assert(read + Seq::<PeerKeyEntry>::empty() =~= read);
    Ok(map)
}

pub fn deserialize_pk_to_addr(bytes: &[u8]) -> (r: Result<PkAddrMap, String>)
    ensures
        match r {
            Ok(m) => m.wf() && parse_key_addrs(bytes@) == Some(m@),
            Err(_) => parse_key_addrs(bytes@) is None,
        },
{
    let ghost b = bytes@;
    if bytes.len() < 4 {
        return Err("pk_to_addr too short".to_string());
    }
    let count = read_u32(bytes, 0);
    let mut cursor: usize = 4;
    let mut map = PkAddrMap::new();
    let ghost mut read: Seq<KeyAddrEntry> = Seq::empty();
    let mut i: u32 = 0;
    while i < count
        invariant
            b == bytes@,
            4 <= cursor <= b.len(),
            i <= count,
            count == u32_of_be(b.subrange(0, 4)),
            map.wf(),
            map@ == assoc_from(read),
            parse_key_addr_entries(b.subrange(4, b.len() as int), count as nat) == match parse_key_addr_entries(
                b.subrange(cursor as int, b.len() as int), (count - i) as nat) {
                None => None,
                Some(es) => Some(read + es),
            },
        decreases count - i,
    {
        let ghost cur = b.subrange(cursor as int, b.len() as int);
        if bytes.len() - cursor < 32 {
            return Err("truncated at pubkey".to_string());
        }
        let key: [u8; 32] = copy_array::<32>(bytes, cursor);
        assert(cur.subrange(0, 32) =~= key@);
        assert(cur.subrange(32, cur.len() as int) =~= b.subrange(cursor + 32, b.len() as int));
        let (addr, next) = match read_addr(bytes, cursor + 32) {
            Some(v) => v,
            None => return Err("truncated or unknown address".to_string()),
        };
        proof {
            lemma_assoc_from_distinct(read);
            let r2 = read.push((key@, addr));
            assert(r2.drop_last() =~= read);
            match parse_key_addr_entries(b.subrange(next as int, b.len() as int), (count - i - 1) as nat) {
                None => {},
                Some(es) => {
                    assert(read + (seq![(key@, addr)] + es) =~= r2 + es);
                },
            }
            read = r2;
        }
        map.insert(key, addr);
        cursor = next;
        i = i + 1;
    }
    assert(read + Seq::<KeyAddrEntry>::empty() =~= read);
    Ok(map)
}

} // verus!
