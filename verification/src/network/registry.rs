//! Relays known to this node: entries binding a relay's ID to its public key
//! and address, and the registry holding them.
//!
//! Entry wire form: `[id: u128 BE] [pubkey: 32] [address]`, the address
//! ending the entry. Registry wire form: `[count: u32 BE]` then, per entry,
//! `[len: u32 BE] [entry]`.

use vstd::prelude::*;
use crate::crypto::labels::{relay_id_label, relay_id_bytes, peer_id_label, peer_id_bytes};
use crate::crypto::sha::{sha256, sha256_digest};
use crate::network::addr::{PeerAddr, addr_wire, parse_addr, lemma_addr_roundtrip, write_addr, read_addr};
use crate::protocol::wire::{be_u32, be_u128, u32_of_be, u128_of_be, lemma_u32_be_roundtrip, lemma_u128_be_roundtrip,
    push_u32, push_u128, push_all, read_u32, read_u128, copy_array, copy_range};

verus! {

/// The shortest entry that can be read: ID, key and address kind.
pub const MIN_ENTRY_LEN: usize = 49;

/// The first 16 bytes of `SHA-256(prefix + label)`, read as a big-endian number.
pub open spec fn digest_id(prefix: Seq<u8>, label: Seq<u8>) -> u128 {
    u128_of_be(sha256_digest(prefix + label).subrange(0, 16))
}

/// The ID a relay with this public key must have.
pub open spec fn relay_id_of(pubkey: Seq<u8>) -> u128 {
    digest_id(pubkey, relay_id_label())
}

fn digest_prefix_id(pubkey: &[u8; 32], label: &[u8]) -> (r: u128)
    ensures
        r == digest_id(pubkey@, label@),
{
    let mut data: Vec<u8> = Vec::new();
    push_all(&mut data, pubkey.as_slice());
    push_all(&mut data, label);
    let digest = sha256(data.as_slice());
    read_u128(digest.as_slice(), 0)
}

pub fn derive_id(pubkey: &[u8; 32]) -> (r: u128)
    ensures
        r == relay_id_of(pubkey@),
{
    let label = relay_id_bytes();
    digest_prefix_id(pubkey, label.as_slice())
}

#[derive(Clone, Copy)]
pub struct RelayEntry {
    pub id: u128,
    pub pubkey: [u8; 32],
    pub address: PeerAddr,
}

pub struct EntryView {
    pub id: u128,
    pub pubkey: Seq<u8>,
    pub address: PeerAddr,
}

impl View for RelayEntry {
    type V = EntryView;

    open spec fn view(&self) -> EntryView {
        EntryView { id: self.id, pubkey: self.pubkey@, address: self.address }
    }
}

pub open spec fn entry_wire(e: EntryView) -> Seq<u8> {
    be_u128(e.id) + e.pubkey + addr_wire(e.address)
}

/// What decoding an entry of at least `MIN_ENTRY_LEN` bytes yields: the
/// address must end the entry.
#[verifier::opaque]
pub open spec fn parse_entry(b: Seq<u8>) -> Option<EntryView> {
    match parse_addr(b.subrange(48, b.len() as int)) {
        Some((address, rest)) => if rest.len() == 0 {
            Some(EntryView { id: u128_of_be(b.subrange(0, 16)), pubkey: b.subrange(16, 48), address })
        } else {
            None
        },
        None => None,
    }
}

/// An entry reads back from its wire form, which is at least
/// `MIN_ENTRY_LEN` bytes long.
pub proof fn lemma_entry_roundtrip(e: EntryView)
    requires
        e.pubkey.len() == 32,
    ensures
        MIN_ENTRY_LEN <= entry_wire(e).len() <= 67,
        parse_entry(entry_wire(e)) == Some(e),
{
    reveal(parse_entry);
    let w = entry_wire(e);
    lemma_u128_be_roundtrip(e.id);
    assert(w.subrange(0, 16) =~= be_u128(e.id));
    assert(w.subrange(16, 48) =~= e.pubkey);
    assert(w.subrange(48, w.len() as int) =~= addr_wire(e.address) + Seq::<u8>::empty());
    lemma_addr_roundtrip(e.address, Seq::<u8>::empty());
    assert(addr_wire(e.address).len() >= 7);
}

impl RelayEntry {
    /// An entry, if `id` is the ID that `pubkey` gives.
    pub fn new(id: u128, pubkey: [u8; 32], address: PeerAddr) -> (r: Result<Self, String>)
        ensures
            match r {
                Ok(e) => id == relay_id_of(pubkey@) && e@ == (EntryView { id, pubkey: pubkey@, address }),
                Err(_) => id != relay_id_of(pubkey@),
            },
    {
        if id != derive_id(&pubkey) {
            return Err("Invalid ID".to_string());
        }
        Ok(RelayEntry { id, pubkey, address })
    }

    pub fn serialize(&self) -> (r: Vec<u8>)
        ensures
            r@ == entry_wire(self@),
    {
        let mut bytes: Vec<u8> = Vec::new();
        push_u128(&mut bytes, self.id);
        push_all(&mut bytes, self.pubkey.as_slice());
        write_addr(&self.address, &mut bytes);
        assert(bytes@ =~= entry_wire(self@));
        bytes
    }

    pub fn from_serialized(bytes: Vec<u8>) -> (r: Result<Self, String>)
        requires
            bytes@.len() >= MIN_ENTRY_LEN,
        ensures
            match r {
                Ok(e) => parse_entry(bytes@) == Some(e@),
                Err(_) => parse_entry(bytes@) is None,
            },
    {
        proof {
            reveal(parse_entry);
        }
        let b = bytes.as_slice();
        let id = read_u128(b, 0);
        let pubkey: [u8; 32] = copy_array::<32>(b, 16);
        assert(b@.subrange(16, 48) =~= pubkey@);
        match read_addr(b, 48) {
            Some((address, next)) => {
                if next != b.len() {
                    return Err("Invalid address length".to_string());
                }
                Ok(RelayEntry { id, pubkey, address })
            },
            None => Err("Invalid address".to_string()),
        }
    }
}

/// How reading a registry ends.
pub enum RegistryScan {
    /// Every announced entry was read.
    Entries(Seq<EntryView>),
    /// The bytes are malformed.
    Malformed,
    /// An entry shorter than `MIN_ENTRY_LEN` was reached.
    ShortEntry,
}

/// Reads `count` length-prefixed entries from the front of `b`.
#[verifier::opaque]
pub open spec fn scan_entries(b: Seq<u8>, count: nat) -> RegistryScan
    decreases count,
{
    if count == 0 {
        RegistryScan::Entries(Seq::empty())
    } else if b.len() < 4 {
        RegistryScan::Malformed
    } else {
        let n = u32_of_be(b.subrange(0, 4)) as int;
        if b.len() - 4 < n {
            RegistryScan::Malformed
        } else if n < MIN_ENTRY_LEN {
            RegistryScan::ShortEntry
        } else {
            match parse_entry(b.subrange(4, 4 + n)) {
                None => RegistryScan::Malformed,
                Some(e) => match scan_entries(b.subrange(4 + n, b.len() as int), (count - 1) as nat) {
                    RegistryScan::Entries(es) => RegistryScan::Entries(seq![e] + es),
                    other => other,
                },
            }
        }
    }
}

pub open spec fn scan_registry(b: Seq<u8>) -> RegistryScan {
    if b.len() < 4 {
        RegistryScan::Malformed
    } else {
        scan_entries(b.subrange(4, b.len() as int), u32_of_be(b.subrange(0, 4)) as nat)
    }
}

pub open spec fn entries_wire(es: Seq<EntryView>) -> Seq<u8>
    decreases es.len(),
{
    if es.len() == 0 {
        Seq::empty()
    } else {
        be_u32(entry_wire(es[0]).len() as u32) + entry_wire(es[0]) + entries_wire(es.drop_first())
    }
}

pub open spec fn registry_wire(es: Seq<EntryView>) -> Seq<u8> {
    be_u32(es.len() as u32) + entries_wire(es)
}

proof fn lemma_scan_step(w: Seq<u8>, n: int, e: EntryView, count: nat)
    requires
        w.len() >= 4,
        n == u32_of_be(w.subrange(0, 4)) as int,
        w.len() - 4 >= n >= MIN_ENTRY_LEN,
        parse_entry(w.subrange(4, 4 + n)) == Some(e),
    ensures
        scan_entries(w, count + 1) == match scan_entries(w.subrange(4 + n, w.len() as int), count) {
            RegistryScan::Entries(es) => RegistryScan::Entries(seq![e] + es),
            other => other,
        },
{
    reveal_with_fuel(scan_entries, 2);
}

proof fn lemma_entries_wire_head(es: Seq<EntryView>, rest: Seq<u8>)
    requires
        es.len() > 0,
    ensures
        ({
            let n = entry_wire(es[0]).len() as int;
            let w = entries_wire(es) + rest;
            &&& w.len() == 4 + n + entries_wire(es.drop_first()).len() + rest.len()
            &&& w.subrange(0, 4) == be_u32(n as u32)
            &&& w.subrange(4, 4 + n) == entry_wire(es[0])
            &&& w.subrange(4 + n, w.len() as int) == entries_wire(es.drop_first()) + rest
        }),
{
    let ew = entry_wire(es[0]);
    let n = ew.len() as int;
    let w = entries_wire(es) + rest;
    let after = entries_wire(es.drop_first()) + rest;
    assert(w =~= be_u32(n as u32) + ew + after);
    assert(w.subrange(0, 4) =~= be_u32(n as u32));
    assert(w.subrange(4, 4 + n) =~= ew);
    assert(w.subrange(4 + n, w.len() as int) =~= after);
}

proof fn lemma_entries_roundtrip(es: Seq<EntryView>, rest: Seq<u8>)
    requires
        forall|i: int| 0 <= i < es.len() ==> (#[trigger] es[i]).pubkey.len() == 32,
    ensures
        scan_entries(entries_wire(es) + rest, es.len()) == RegistryScan::Entries(es),
    decreases es.len(),
{
    if es.len() == 0 {
        assert(es =~= Seq::<EntryView>::empty());
        reveal_with_fuel(scan_entries, 1);
    } else {
        let e = es[0];
        let ew = entry_wire(e);
        let n = ew.len() as int;
        let tail = es.drop_first();
        assert forall|i: int| 0 <= i < tail.len() implies (#[trigger] tail[i]).pubkey.len() == 32 by {
            assert(tail[i] == es[i + 1]);
        }
        lemma_entries_roundtrip(tail, rest);
        lemma_entry_roundtrip(e);
        let w = entries_wire(es) + rest;
        let after = entries_wire(tail) + rest;
        lemma_entries_wire_head(es, rest);
        assert(u32_of_be(w.subrange(0, 4)) as int == n) by {
            lemma_u32_be_roundtrip(n as u32);
        }
        lemma_scan_step(w, n, e, tail.len());
        assert(seq![e] + tail =~= es);
    }
}

/// Reading a registry's wire form gives its entries back, when they number
/// fewer than 2^32 and each key has 32 bytes.
pub proof fn lemma_registry_roundtrip(es: Seq<EntryView>)
    requires
        es.len() < 0x1_0000_0000,
        forall|i: int| 0 <= i < es.len() ==> (#[trigger] es[i]).pubkey.len() == 32,
    ensures
        scan_registry(registry_wire(es)) == RegistryScan::Entries(es),
{
    let w = registry_wire(es);
    lemma_u32_be_roundtrip(es.len() as u32);
    assert(w.subrange(0, 4) =~= be_u32(es.len() as u32));
    assert(w.subrange(4, w.len() as int) =~= entries_wire(es) + Seq::<u8>::empty());
    lemma_entries_roundtrip(es, Seq::<u8>::empty());
}

pub struct RelayRegistry {
    registry: Vec<RelayEntry>,
}

pub open spec fn entries_view(v: Seq<RelayEntry>) -> Seq<EntryView> {
    v.map_values(|e: RelayEntry| e@)
}

pub open spec fn id_other_than(id: u128) -> spec_fn(EntryView) -> bool {
    |e: EntryView| e.id != id
}

impl View for RelayRegistry {
    type V = Seq<EntryView>;

    closed spec fn view(&self) -> Seq<EntryView> {
        entries_view(self.registry@)
    }
}

impl RelayRegistry {
    pub fn new() -> (r: Self)
        ensures
            r@ == Seq::<EntryView>::empty(),
    {
        let r = RelayRegistry { registry: Vec::new() };
        assert(r@ =~= Seq::<EntryView>::empty());
        r
    }

    pub fn add(&mut self, entry: RelayEntry)
        ensures
            final(self)@ == old(self)@.push(entry@),
    {
        self.registry.push(entry);
        assert(entries_view(self.registry@) =~= entries_view(old(self).registry@).push(entry@));
    }

    /// The first entry with this ID.
    pub fn lookup(&self, id: u128) -> (r: Option<&RelayEntry>)
        ensures
            match r {
                None => forall|i: int| 0 <= i < self@.len() ==> (#[trigger] self@[i]).id != id,
                Some(e) => exists|i: int| 0 <= i < self@.len() && #[trigger] self@[i] == e@
                    && e.id == id && forall|j: int| 0 <= j < i ==> (#[trigger] self@[j]).id != id,
            },
    {
        let mut i: usize = 0;
        while i < self.registry.len()
            invariant
                i <= self.registry@.len(),
                forall|j: int| 0 <= j < i ==> (#[trigger] self@[j]).id != id,
            decreases self.registry@.len() - i,
        {
            if self.registry[i].id == id {
                assert(self@[i as int] == self.registry@[i as int]@);
                return Some(&self.registry[i]);
            }
            i = i + 1;
        }
        None
    }

    pub fn serialize(&self) -> (r: Vec<u8>)
        ensures
            r@ == registry_wire(self@),
    {
        let mut bytes: Vec<u8> = Vec::new();
        push_u32(&mut bytes, self.registry.len() as u32);
        let ghost es = self@;
        let mut i: usize = 0;
        assert(es.subrange(0, es.len() as int) =~= es);
        while i < self.registry.len()
            invariant
                es == self@,
                i <= es.len(),
                bytes@ + entries_wire(es.subrange(i as int, es.len() as int)) == registry_wire(es),
            decreases es.len() - i,
        {
            let entry_bytes = self.registry[i].serialize();
            let ghost before = bytes@;
            push_u32(&mut bytes, entry_bytes.len() as u32);
            push_all(&mut bytes, entry_bytes.as_slice());
            proof {
                let sub = es.subrange(i as int, es.len() as int);
                assert(sub[0] == self.registry@[i as int]@);
                assert(sub.drop_first() =~= es.subrange(i + 1, es.len() as int));
                assert(bytes@ + entries_wire(es.subrange(i + 1, es.len() as int)) =~= before + entries_wire(sub));
            }
            i = i + 1;
        }
        assert(es.subrange(es.len() as int, es.len() as int) =~= Seq::<EntryView>::empty());
        assert(bytes@ =~= registry_wire(es));
        bytes
    }

    /// Whether reading `bytes` as a registry reaches an entry shorter than
    /// `MIN_ENTRY_LEN`: the one form `from_serialized` does not take.
    pub fn has_short_entry(b: &[u8]) -> (r: bool)
        ensures
            r == (scan_registry(b@) is ShortEntry),
    {
        let ghost bb = b@;
        proof {
            reveal_with_fuel(scan_entries, 1);
        }
        if b.len() < 4 {
            return false;
        }
        let count = read_u32(b, 0);
        let mut pos: usize = 4;
        let mut i: u32 = 0;
        assert(bb.subrange(4, bb.len() as int) =~= bb.subrange(pos as int, bb.len() as int));
        while i < count
            invariant
                bb == b@,
                4 <= pos <= bb.len(),
                i <= count,
                count == u32_of_be(bb.subrange(0, 4)),
                (scan_registry(bb) is ShortEntry)
                    == (scan_entries(bb.subrange(pos as int, bb.len() as int), (count - i) as nat) is ShortEntry),
            decreases count - i,
        {
            let ghost cur = bb.subrange(pos as int, bb.len() as int);
            proof {
                reveal_with_fuel(scan_entries, 1);
            }
            if b.len() - pos < 4 {
                return false;
            }
            let entry_len = read_u32(b, pos) as usize;
            assert(cur.subrange(0, 4) =~= bb.subrange(pos as int, pos + 4));
            if b.len() - pos - 4 < entry_len {
                return false;
            }
            if entry_len < MIN_ENTRY_LEN {
                return true;
            }
            let entry_bytes = copy_range(b, pos + 4, entry_len);
            assert(entry_bytes@ =~= cur.subrange(4, 4 + entry_len));
            if RelayEntry::from_serialized(entry_bytes).is_err() {
                return false;
            }
            proof {
                assert(cur.subrange(4 + entry_len, cur.len() as int) =~= bb.subrange(pos + 4 + entry_len, bb.len() as int));
            }
            pos = pos + 4 + entry_len;
            i = i + 1;
        }
        false
    }

    pub fn from_serialized(bytes: Vec<u8>) -> (r: Result<Self, String>)
        requires
            !(scan_registry(bytes@) is ShortEntry),
        ensures
            match r {
                Ok(reg) => scan_registry(bytes@) == RegistryScan::Entries(reg@),
                Err(_) => scan_registry(bytes@) is Malformed,
            },
    {
        let b = bytes.as_slice();
        let ghost bb = b@;
        proof {
            reveal_with_fuel(scan_entries, 1);
        }
        if b.len() < 4 {
            return Err("registry too short".to_string());
        }
        let count = read_u32(b, 0);
        let mut pos: usize = 4;
        let mut registry: Vec<RelayEntry> = Vec::new();
        let mut i: u32 = 0;
        assert(bb.subrange(4, bb.len() as int) =~= bb.subrange(pos as int, bb.len() as int));
        while i < count
            invariant
                bb == b@,
                bb == bytes@,
                !(scan_registry(bb) is ShortEntry),
                4 <= pos <= bb.len(),
                i <= count,
                count == u32_of_be(bb.subrange(0, 4)),
                scan_registry(bb) == match scan_entries(bb.subrange(pos as int, bb.len() as int), (count - i) as nat) {
                    RegistryScan::Entries(es) => RegistryScan::Entries(entries_view(registry@) + es),
                    other => other,
                },
            decreases count - i,
        {
            let ghost cur = bb.subrange(pos as int, bb.len() as int);
            proof {
                reveal_with_fuel(scan_entries, 1);
            }
            if b.len() - pos < 4 {
                assert(scan_entries(cur, (count - i) as nat) is Malformed);
                return Err("truncated entry length prefix".to_string());
            }
            let entry_len = read_u32(b, pos) as usize;
            assert(cur.subrange(0, 4) =~= bb.subrange(pos as int, pos + 4));
            if b.len() - pos - 4 < entry_len {
                assert(scan_entries(cur, (count - i) as nat) is Malformed);
                return Err("truncated entry bytes".to_string());
            }
            assert(entry_len >= MIN_ENTRY_LEN) by {
                if entry_len < MIN_ENTRY_LEN {
                    assert(scan_entries(cur, (count - i) as nat) is ShortEntry);
                }
            }
            let entry_bytes = copy_range(b, pos + 4, entry_len);
            assert(entry_bytes@ =~= cur.subrange(4, 4 + entry_len));
            let entry = match RelayEntry::from_serialized(entry_bytes) {
                Ok(e) => e,
                Err(_) => {
                    assert(scan_entries(cur, (count - i) as nat) is Malformed);
                    return Err("bad relay entry".to_string());
                },
            };
            let ghost before = entries_view(registry@);
            registry.push(entry);
            proof {
                assert(entries_view(registry@) =~= before.push(entry@));
                assert(cur.subrange(4 + entry_len, cur.len() as int) =~= bb.subrange(pos + 4 + entry_len, bb.len() as int));
                match scan_entries(bb.subrange(pos + 4 + entry_len, bb.len() as int), (count - i - 1) as nat) {
                    RegistryScan::Entries(es) => {
                        assert(before + (seq![entry@] + es) =~= before.push(entry@) + es);
                    },
                    _ => {},
                }
            }
            pos = pos + 4 + entry_len;
            i = i + 1;
        }
        let reg = RelayRegistry { registry };
        assert(entries_view(reg.registry@) + Seq::<EntryView>::empty() =~= reg@);
        Ok(reg)
    }

    /// Drops every entry with this ID.
    pub fn remove(&mut self, id: u128)
        ensures
            final(self)@ == old(self)@.filter(id_other_than(id)),
    {
        let ghost es = self@;
        let mut kept: Vec<RelayEntry> = Vec::new();
        let mut i: usize = 0;
        while i < self.registry.len()
            invariant
                es == self@,
                i <= es.len(),
                entries_view(kept@) == es.take(i as int).filter(id_other_than(id)),
            decreases es.len() - i,
        {
            proof {
                reveal(Seq::filter);
                assert(es.take(i + 1).drop_last() =~= es.take(i as int));
                assert(es.take(i + 1).last() == self.registry@[i as int]@);
            }
            let e = self.registry[i];
            if e.id != id {
                let ghost before = entries_view(kept@);
                kept.push(e);
                assert(entries_view(kept@) =~= before.push(e@));
            }
            i = i + 1;
        }
        assert(es.take(es.len() as int) =~= es);
        self.registry = kept;
    }
}

/// After `remove(id)` no entry has that ID, every entry with another ID is
/// still there, and nothing new appears.
pub proof fn lemma_registry_remove(es: Seq<EntryView>, id: u128)
    ensures
        forall|i: int| 0 <= i < es.filter(id_other_than(id)).len()
            ==> (#[trigger] es.filter(id_other_than(id))[i]).id != id,
        forall|e: EntryView| es.contains(e) && e.id != id ==> #[trigger] es.filter(id_other_than(id)).contains(e),
        forall|e: EntryView| #[trigger] es.filter(id_other_than(id)).contains(e) ==> es.contains(e),
{
    broadcast use vstd::seq_lib::group_filter_ensures;
    assert forall|e: EntryView| es.contains(e) && e.id != id implies #[trigger] es.filter(id_other_than(id)).contains(e) by {
        let i = choose|i: int| 0 <= i < es.len() && es[i] == e;
        es.lemma_filter_contains(id_other_than(id), i);
    }
    assert forall|i: int| 0 <= i < es.filter(id_other_than(id)).len()
        implies (#[trigger] es.filter(id_other_than(id))[i]).id != id by {
        es.lemma_filter_pred(id_other_than(id), i);
    }
    assert forall|e: EntryView| #[trigger] es.filter(id_other_than(id)).contains(e) implies es.contains(e) by {
        es.lemma_filter_contains_rev(id_other_than(id), e);
    }
}

/// A relay entry as signed by the relay's key.
pub struct RelayAnnouncement {
    signature: [u8; 64],
    entry: RelayEntry,
}

pub struct PeerId {
    pub id: u128,
}

impl PeerId {
    pub fn from_master_pubkey(pubkey: &[u8; 32]) -> (r: Self)
        ensures
            r.id == digest_id(pubkey@, peer_id_label()),
    {
        let label = peer_id_bytes();
        PeerId { id: digest_prefix_id(pubkey, label.as_slice()) }
    }
}

} // verus!
