//! DHT operations and their wire form.
//!
//! Tags: 1 Ping, 2 Pong, 3 FindNode, 4 Nodes, 5 Store, 6 StoreAck,
//! 7 FindValue, 8 Value. Node lists are `[count: u16 BE]` followed by
//! `[id: 32] [address]` entries; values are `[len: u16 BE] [bytes]`.

use vstd::prelude::*;
use crate::dht::node_id::NodeID;
use crate::network::addr::{PeerAddr, addr_wire, parse_addr, lemma_addr_roundtrip, write_addr, read_addr};
use crate::protocol::wire::{be_u16, be_u32, u16_of_be, u32_of_be, lemma_u16_be_roundtrip, lemma_u32_be_roundtrip,
    push_u16, push_u32, push_all, read_u16, read_u32, copy_array, copy_range};

verus! {

pub const MAX_VALUE_SIZE: usize = 1024;

#[allow(inconsistent_fields)]
pub enum DhtOperation {
    Ping { sender_id: NodeID },
    Pong { sender_id: NodeID },
    FindNode { sender_id: NodeID, target_id: NodeID },
    Nodes { sender_id: NodeID, nodes: Vec<(NodeID, PeerAddr)> },
    Store { sender_id: NodeID, key: [u8; 32], value: Vec<u8>, ttl_seconds: u32 },
    StoreAck { sender_id: NodeID, key: [u8; 32] },
    FindValue { sender_id: NodeID, key: [u8; 32] },
    Value { sender_id: NodeID, key: [u8; 32], value: Option<Vec<u8>>, closest_nodes: Vec<(NodeID, PeerAddr)> },
}

/// A node entry as plain values: the 32 ID bytes and the address.
pub type NodeEntry = (Seq<u8>, PeerAddr);

/// Mathematical value of an operation.
#[allow(inconsistent_fields)]
pub enum DhtOpView {
    Ping { sender_id: Seq<u8> },
    Pong { sender_id: Seq<u8> },
    FindNode { sender_id: Seq<u8>, target_id: Seq<u8> },
    Nodes { sender_id: Seq<u8>, nodes: Seq<NodeEntry> },
    Store { sender_id: Seq<u8>, key: Seq<u8>, value: Seq<u8>, ttl_seconds: u32 },
    StoreAck { sender_id: Seq<u8>, key: Seq<u8> },
    FindValue { sender_id: Seq<u8>, key: Seq<u8> },
    Value { sender_id: Seq<u8>, key: Seq<u8>, value: Option<Seq<u8>>, closest_nodes: Seq<NodeEntry> },
}

/// The plain value of a list of node entries.
pub open spec fn entries_view(v: Seq<(NodeID, PeerAddr)>) -> Seq<NodeEntry> {
    v.map_values(|p: (NodeID, PeerAddr)| (p.0.id@, p.1))
}

impl View for DhtOperation {
    type V = DhtOpView;

    open spec fn view(&self) -> DhtOpView {
        match self {
            DhtOperation::Ping { sender_id } => DhtOpView::Ping { sender_id: sender_id.id@ },
            DhtOperation::Pong { sender_id } => DhtOpView::Pong { sender_id: sender_id.id@ },
            DhtOperation::FindNode { sender_id, target_id } => DhtOpView::FindNode { sender_id: sender_id.id@, target_id: target_id.id@ },
            DhtOperation::Nodes { sender_id, nodes } => DhtOpView::Nodes { sender_id: sender_id.id@, nodes: entries_view(nodes@) },
            DhtOperation::Store { sender_id, key, value, ttl_seconds } => DhtOpView::Store {
                sender_id: sender_id.id@,
                key: key@,
                value: value@,
                ttl_seconds: *ttl_seconds,
            },
            DhtOperation::StoreAck { sender_id, key } => DhtOpView::StoreAck { sender_id: sender_id.id@, key: key@ },
            DhtOperation::FindValue { sender_id, key } => DhtOpView::FindValue { sender_id: sender_id.id@, key: key@ },
            DhtOperation::Value { sender_id, key, value, closest_nodes } => DhtOpView::Value {
                sender_id: sender_id.id@,
                key: key@,
                value: match value {
                    Some(v) => Some(v@),
                    None => None,
                },
                closest_nodes: entries_view(closest_nodes@),
            },
        }
    }
}

/// The sender's ID, whatever the operation.
pub open spec fn op_sender(op: DhtOpView) -> Seq<u8> {
    match op {
        DhtOpView::Ping { sender_id } => sender_id,
        DhtOpView::Pong { sender_id } => sender_id,
        DhtOpView::FindNode { sender_id, .. } => sender_id,
        DhtOpView::Nodes { sender_id, .. } => sender_id,
        DhtOpView::Store { sender_id, .. } => sender_id,
        DhtOpView::StoreAck { sender_id, .. } => sender_id,
        DhtOpView::FindValue { sender_id, .. } => sender_id,
        DhtOpView::Value { sender_id, .. } => sender_id,
    }
}

/// Node entries one after another.
pub open spec fn entries_wire(ns: Seq<NodeEntry>) -> Seq<u8>
    decreases ns.len(),
{
    if ns.len() == 0 {
        Seq::empty()
    } else {
        ns[0].0 + addr_wire(ns[0].1) + entries_wire(ns.drop_first())
    }
}

/// A node list: its count as a `u16`, then the entries.
pub open spec fn nodes_wire(ns: Seq<NodeEntry>) -> Seq<u8> {
    be_u16(ns.len() as u16) + entries_wire(ns)
}

/// A value: its length as a `u16`, then the bytes.
pub open spec fn value_wire(v: Seq<u8>) -> Seq<u8> {
    be_u16(v.len() as u16) + v
}

/// Wire form of an operation.
pub open spec fn op_wire(op: DhtOpView) -> Seq<u8> {
    match op {
        DhtOpView::Ping { sender_id } => seq![1u8] + sender_id,
        DhtOpView::Pong { sender_id } => seq![2u8] + sender_id,
        DhtOpView::FindNode { sender_id, target_id } => seq![3u8] + sender_id + target_id,
        DhtOpView::Nodes { sender_id, nodes } => seq![4u8] + sender_id + nodes_wire(nodes),
        DhtOpView::Store { sender_id, key, value, ttl_seconds } => seq![5u8] + sender_id + key + be_u32(ttl_seconds) + value_wire(value),
        DhtOpView::StoreAck { sender_id, key } => seq![6u8] + sender_id + key,
        DhtOpView::FindValue { sender_id, key } => seq![7u8] + sender_id + key,
        DhtOpView::Value { sender_id, key, value, closest_nodes } => seq![8u8] + sender_id + key + match value {
            Some(v) => seq![1u8] + value_wire(v),
            None => seq![0u8],
        } + nodes_wire(closest_nodes),
    }
}

/// Reads `count` node entries at the front of `b`, with the bytes after them.
pub open spec fn parse_entries(b: Seq<u8>, count: nat) -> Option<(Seq<NodeEntry>, Seq<u8>)>
    decreases count,
{
    if count == 0 {
        Some((Seq::empty(), b))
    } else if b.len() < 32 {
        None
    } else {
        match parse_addr(b.subrange(32, b.len() as int)) {
            None => None,
            Some((a, rest)) => match parse_entries(rest, (count - 1) as nat) {
                None => None,
                Some((ns, tail)) => Some((seq![(b.subrange(0, 32), a)] + ns, tail)),
            },
        }
    }
}

/// Reads a node list at the front of `b`, with the bytes after it.
pub open spec fn parse_nodes(b: Seq<u8>) -> Option<(Seq<NodeEntry>, Seq<u8>)> {
    if b.len() < 2 {
        None
    } else {
        parse_entries(b.subrange(2, b.len() as int), u16_of_be(b.subrange(0, 2)) as nat)
    }
}

/// Reads a value at the front of `b`, with the bytes after it.
pub open spec fn parse_value(b: Seq<u8>) -> Option<(Seq<u8>, Seq<u8>)> {
    if b.len() < 2 {
        None
    } else {
        let n = u16_of_be(b.subrange(0, 2)) as int;
        if b.len() - 2 < n {
            None
        } else {
            Some((b.subrange(2, 2 + n), b.subrange(2 + n, b.len() as int)))
        }
    }
}

/// What decoding `b` as an operation yields (trailing bytes are ignored).
pub open spec fn parse_op(b: Seq<u8>) -> Option<DhtOpView> {
    if b.len() == 0 {
        None
    } else {
        let tag = b[0];
        let r = b.subrange(1, b.len() as int);
        if !(1 <= tag <= 8) {
            None
        } else if r.len() < 32 {
            None
        } else {
            let sender = r.subrange(0, 32);
            let r2 = r.subrange(32, r.len() as int);
            if tag == 1 {
                Some(DhtOpView::Ping { sender_id: sender })
            } else if tag == 2 {
                Some(DhtOpView::Pong { sender_id: sender })
            } else if tag == 4 {
                match parse_nodes(r2) {
                    None => None,
                    Some((nodes, _)) => Some(DhtOpView::Nodes { sender_id: sender, nodes }),
                }
            } else if r2.len() < 32 {
                None
            } else {
                let second = r2.subrange(0, 32);
                let r3 = r2.subrange(32, r2.len() as int);
                if tag == 3 {
                    Some(DhtOpView::FindNode { sender_id: sender, target_id: second })
                } else if tag == 6 {
                    Some(DhtOpView::StoreAck { sender_id: sender, key: second })
                } else if tag == 7 {
                    Some(DhtOpView::FindValue { sender_id: sender, key: second })
                } else if tag == 5 {
                    if r3.len() < 6 {
                        None
                    } else {
                        match parse_value(r3.subrange(4, r3.len() as int)) {
                            None => None,
                            Some((value, _)) => Some(DhtOpView::Store {
                                sender_id: sender,
                                key: second,
                                value,
                                ttl_seconds: u32_of_be(r3.subrange(0, 4)),
                            }),
                        }
                    }
                } else if r3.len() == 0 {
                    None
                } else if r3[0] == 1 {
                    match parse_value(r3.subrange(1, r3.len() as int)) {
                        None => None,
                        Some((value, r4)) => match parse_nodes(r4) {
                            None => None,
                            Some((nodes, _)) => Some(DhtOpView::Value { sender_id: sender, key: second, value: Some(value), closest_nodes: nodes }),
                        },
                    }
                } else {
                    match parse_nodes(r3.subrange(1, r3.len() as int)) {
                        None => None,
                        Some((nodes, _)) => Some(DhtOpView::Value { sender_id: sender, key: second, value: None, closest_nodes: nodes }),
                    }
                }
            }
        }
    }
}

/// Every entry's ID is 32 bytes long.
pub open spec fn entries_well_sized(ns: Seq<NodeEntry>) -> bool {
    forall|i: int| 0 <= i < ns.len() ==> (#[trigger] ns[i]).0.len() == 32
}

proof fn lemma_entries_roundtrip(ns: Seq<NodeEntry>, rest: Seq<u8>)
    requires
        entries_well_sized(ns),
    ensures
        parse_entries(entries_wire(ns) + rest, ns.len()) == Some((ns, rest)),
    decreases ns.len(),
{
    if ns.len() > 0 {
        let tail = ns.drop_first();
        assert forall|i: int| 0 <= i < tail.len() implies (#[trigger] tail[i]).0.len() == 32 by {
            assert(tail[i] == ns[i + 1]);
        }
        lemma_entries_roundtrip(tail, rest);
        let b = entries_wire(ns) + rest;
        assert(ns[0].0.len() == 32);
        assert(b.subrange(0, 32) =~= ns[0].0);
        assert(b.subrange(32, b.len() as int) =~= addr_wire(ns[0].1) + (entries_wire(tail) + rest));
        lemma_addr_roundtrip(ns[0].1, entries_wire(tail) + rest);
        assert(seq![(ns[0].0, ns[0].1)] + tail =~= ns);
    }
}

/// Reading an encoded node list back, followed by any bytes, gives the list
/// and those bytes, when it has at most 65535 entries of 32-byte IDs.
pub proof fn lemma_nodes_roundtrip(ns: Seq<NodeEntry>, rest: Seq<u8>)
    requires
        entries_well_sized(ns),
        ns.len() <= 0xffff,
    ensures
        parse_nodes(nodes_wire(ns) + rest) == Some((ns, rest)),
{
    let b = nodes_wire(ns) + rest;
    assert(b.subrange(0, 2) =~= be_u16(ns.len() as u16));
    lemma_u16_be_roundtrip(ns.len() as u16);
    assert(b.subrange(2, b.len() as int) =~= entries_wire(ns) + rest);
    lemma_entries_roundtrip(ns, rest);
}

/// Reading an encoded value back, followed by any bytes, gives the value and
/// those bytes, when it has at most 65535 bytes.
pub proof fn lemma_value_roundtrip(v: Seq<u8>, rest: Seq<u8>)
    requires
        v.len() <= 0xffff,
    ensures
        parse_value(value_wire(v) + rest) == Some((v, rest)),
{
    let b = value_wire(v) + rest;
    assert(b.subrange(0, 2) =~= be_u16(v.len() as u16));
    lemma_u16_be_roundtrip(v.len() as u16);
    assert(b.subrange(2, 2 + v.len() as int) =~= v);
    assert(b.subrange(2 + v.len() as int, b.len() as int) =~= rest);
}

/// IDs and keys are 32 bytes, node lists and values fit their `u16` lengths.
pub open spec fn op_encodable(op: DhtOpView) -> bool {
    match op {
        DhtOpView::Ping { sender_id } => sender_id.len() == 32,
        DhtOpView::Pong { sender_id } => sender_id.len() == 32,
        DhtOpView::FindNode { sender_id, target_id } => sender_id.len() == 32 && target_id.len() == 32,
        DhtOpView::Nodes { sender_id, nodes } => sender_id.len() == 32 && entries_well_sized(nodes) && nodes.len() <= 0xffff,
        DhtOpView::Store { sender_id, key, value, .. } => sender_id.len() == 32 && key.len() == 32 && value.len() <= 0xffff,
        DhtOpView::StoreAck { sender_id, key } => sender_id.len() == 32 && key.len() == 32,
        DhtOpView::FindValue { sender_id, key } => sender_id.len() == 32 && key.len() == 32,
        DhtOpView::Value { sender_id, key, value, closest_nodes } => sender_id.len() == 32 && key.len() == 32
            && entries_well_sized(closest_nodes) && closest_nodes.len() <= 0xffff
            && (value matches Some(v) ==> v.len() <= 0xffff),
    }
}

proof fn lemma_store_roundtrip(sender_id: Seq<u8>, key: Seq<u8>, value: Seq<u8>, ttl_seconds: u32)
    requires
        op_encodable(DhtOpView::Store { sender_id, key, value, ttl_seconds }),
    ensures
        parse_op(op_wire(DhtOpView::Store { sender_id, key, value, ttl_seconds })) == Some(DhtOpView::Store { sender_id, key, value, ttl_seconds }),
{
    let b = op_wire(DhtOpView::Store { sender_id, key, value, ttl_seconds });
    let r = b.subrange(1, b.len() as int);
    let r2 = r.subrange(32, r.len() as int);
    let r3 = r2.subrange(32, r2.len() as int);
    assert(r.subrange(0, 32) =~= sender_id);
    assert(r2.subrange(0, 32) =~= key);
    assert(r3 =~= be_u32(ttl_seconds) + value_wire(value));
    assert(r3.subrange(0, 4) =~= be_u32(ttl_seconds));
    lemma_u32_be_roundtrip(ttl_seconds);
    assert(r3.subrange(4, r3.len() as int) =~= value_wire(value) + Seq::empty());
    lemma_value_roundtrip(value, Seq::empty());
}

proof fn lemma_value_op_roundtrip(sender_id: Seq<u8>, key: Seq<u8>, value: Option<Seq<u8>>, closest_nodes: Seq<NodeEntry>)
    requires
        op_encodable(DhtOpView::Value { sender_id, key, value, closest_nodes }),
    ensures
        parse_op(op_wire(DhtOpView::Value { sender_id, key, value, closest_nodes })) == Some(DhtOpView::Value { sender_id, key, value, closest_nodes }),
{
    let b = op_wire(DhtOpView::Value { sender_id, key, value, closest_nodes });
    let r = b.subrange(1, b.len() as int);
    let r2 = r.subrange(32, r.len() as int);
    let r3 = r2.subrange(32, r2.len() as int);
    assert(r.subrange(0, 32) =~= sender_id);
    assert(r2.subrange(0, 32) =~= key);
    match value {
        Some(v) => {
            assert(r3 =~= seq![1u8] + value_wire(v) + nodes_wire(closest_nodes));
            assert(r3.subrange(1, r3.len() as int) =~= value_wire(v) + nodes_wire(closest_nodes));
            lemma_value_roundtrip(v, nodes_wire(closest_nodes));
            assert(nodes_wire(closest_nodes) =~= nodes_wire(closest_nodes) + Seq::empty());
            lemma_nodes_roundtrip(closest_nodes, Seq::empty());
        },
        None => {
            assert(r3 =~= seq![0u8] + nodes_wire(closest_nodes));
            assert(r3.subrange(1, r3.len() as int) =~= nodes_wire(closest_nodes) + Seq::empty());
            lemma_nodes_roundtrip(closest_nodes, Seq::empty());
        },
    }
}

/// Decoding an encoded operation gives it back, when its node lists and
/// value fit their 16-bit length fields.
pub proof fn lemma_op_roundtrip(op: DhtOpView)
    requires
        op_encodable(op),
    ensures
        parse_op(op_wire(op)) == Some(op),
{
    let b = op_wire(op);
    let r = b.subrange(1, b.len() as int);
    match op {
        DhtOpView::Ping { sender_id } => {
            assert(r.subrange(0, 32) =~= sender_id);
        },
        DhtOpView::Pong { sender_id } => {
            assert(r.subrange(0, 32) =~= sender_id);
        },
        DhtOpView::FindNode { sender_id, target_id } => {
            assert(r.subrange(0, 32) =~= sender_id);
            assert(r.subrange(32, r.len() as int).subrange(0, 32) =~= target_id);
        },
        DhtOpView::Nodes { sender_id, nodes } => {
            assert(r.subrange(0, 32) =~= sender_id);
            assert(r.subrange(32, r.len() as int) =~= nodes_wire(nodes) + Seq::empty());
            lemma_nodes_roundtrip(nodes, Seq::empty());
        },
        DhtOpView::Store { sender_id, key, value, ttl_seconds } => {
            lemma_store_roundtrip(sender_id, key, value, ttl_seconds);
        },
        DhtOpView::StoreAck { sender_id, key } => {
            assert(r.subrange(0, 32) =~= sender_id);
            assert(r.subrange(32, r.len() as int).subrange(0, 32) =~= key);
        },
        DhtOpView::FindValue { sender_id, key } => {
            assert(r.subrange(0, 32) =~= sender_id);
            assert(r.subrange(32, r.len() as int).subrange(0, 32) =~= key);
        },
        DhtOpView::Value { sender_id, key, value, closest_nodes } => {
            lemma_value_op_roundtrip(sender_id, key, value, closest_nodes);
        },
    }
}

/// The wire form of one node entry.
pub open spec fn entry_wire(e: NodeEntry) -> Seq<u8> {
    e.0 + addr_wire(e.1)
}

proof fn lemma_entries_wire_push(ns: Seq<NodeEntry>, e: NodeEntry)
    ensures
        entries_wire(ns.push(e)) == entries_wire(ns) + entry_wire(e),
    decreases ns.len(),
{
    let p = ns.push(e);
    if ns.len() == 0 {
        assert(p[0] == e);
        assert(p.drop_first() =~= Seq::<NodeEntry>::empty());
        assert(entries_wire(p.drop_first()) =~= Seq::<u8>::empty());
        assert(entries_wire(ns) =~= Seq::<u8>::empty());
        assert(entries_wire(p) =~= entries_wire(ns) + entry_wire(e));
    } else {
        assert(p[0] == ns[0]);
        assert(p.drop_first() =~= ns.drop_first().push(e));
        lemma_entries_wire_push(ns.drop_first(), e);
        assert(entries_wire(ns.push(e)) =~= entries_wire(ns) + entry_wire(e));
    }
}

fn write_nodes(nodes: &Vec<(NodeID, PeerAddr)>, out: &mut Vec<u8>)
    ensures
        final(out)@ == old(out)@ + nodes_wire(entries_view(nodes@)),
{
    let ghost start = out@;
    let ghost ns = entries_view(nodes@);
    push_u16(out, nodes.len() as u16);
    let mut i: usize = 0;
    while i < nodes.len()
        invariant
            ns == entries_view(nodes@),
            i <= nodes@.len(),
            out@ == start + be_u16(nodes@.len() as u16) + entries_wire(ns.take(i as int)),
        decreases nodes@.len() - i,
    {
        let (id, addr) = nodes[i];
        push_all(out, id.id.as_slice());
        write_addr(&addr, out);
        proof {
            assert(ns.take(i + 1) =~= ns.take(i as int).push(ns[i as int]));
            lemma_entries_wire_push(ns.take(i as int), ns[i as int]);
        }
        i = i + 1;
    }
    assert(ns.take(nodes@.len() as int) =~= ns);
}

fn read_nodes(b: &[u8], at: usize) -> (r: Option<(Vec<(NodeID, PeerAddr)>, usize)>)
    requires
        at <= b@.len(),
    ensures
        match parse_nodes(b@.subrange(at as int, b@.len() as int)) {
            None => r is None,
            Some((ns, rest)) => r matches Some((v, next)) && entries_view(v@) == ns && next <= b@.len()
                && rest == b@.subrange(next as int, b@.len() as int),
        },
{
    let ghost s = b@.subrange(at as int, b@.len() as int);
    if b.len() - at < 2 {
        return None;
    }
    let count = read_u16(b, at);
    assert(s.subrange(0, 2) =~= b@.subrange(at as int, at + 2));
    let mut pos = at + 2;
    assert(s.subrange(2, s.len() as int) =~= b@.subrange(pos as int, b@.len() as int));
    let mut nodes: Vec<(NodeID, PeerAddr)> = Vec::new();
    let mut i: u16 = 0;
    while i < count
        invariant
            pos <= b@.len(),
            i <= count,
            s == b@.subrange(at as int, b@.len() as int),
            s.len() >= 2,
            count == u16_of_be(s.subrange(0, 2)),
            parse_nodes(s) == match parse_entries(b@.subrange(pos as int, b@.len() as int), (count - i) as nat) {
                None => None,
                Some((ns, tail)) => Some((entries_view(nodes@) + ns, tail)),
            },
        decreases count - i,
    {
        let ghost cur = b@.subrange(pos as int, b@.len() as int);
        if b.len() - pos < 32 {
            return None;
        }
        let id: [u8; 32] = copy_array::<32>(b, pos);
        assert(cur.subrange(0, 32) =~= id@);
        assert(cur.subrange(32, cur.len() as int) =~= b@.subrange(pos + 32, b@.len() as int));
        let (addr, next) = match read_addr(b, pos + 32) {
            Some(v) => v,
            None => return None,
        };
        let ghost before = entries_view(nodes@);
        nodes.push((NodeID { id }, addr));
        proof {
            assert(entries_view(nodes@) =~= before.push((id@, addr)));
            let tail_parse = parse_entries(b@.subrange(next as int, b@.len() as int), (count - i - 1) as nat);
            match tail_parse {
                None => {},
                Some((ns, tail)) => {
                    assert(before + (seq![(id@, addr)] + ns) =~= before.push((id@, addr)) + ns);
                },
            }
        }
        pos = next;
        i = i + 1;
    }
    assert(entries_view(nodes@) + Seq::<NodeEntry>::empty() =~= entries_view(nodes@));
    Some((nodes, pos))
}

fn read_value(b: &[u8], at: usize) -> (r: Option<(Vec<u8>, usize)>)
    requires
        at <= b@.len(),
    ensures
        match parse_value(b@.subrange(at as int, b@.len() as int)) {
            None => r is None,
            Some((v, rest)) => r matches Some((v2, next)) && v2@ == v && next <= b@.len()
                && rest == b@.subrange(next as int, b@.len() as int),
        },
{
    let ghost s = b@.subrange(at as int, b@.len() as int);
    if b.len() - at < 2 {
        return None;
    }
    let n = read_u16(b, at) as usize;
    assert(s.subrange(0, 2) =~= b@.subrange(at as int, at + 2));
    if b.len() - at - 2 < n {
        return None;
    }
    let v = copy_range(b, at + 2, n);
    assert(s.subrange(2, 2 + n) =~= v@);
    assert(s.subrange(2 + n, s.len() as int) =~= b@.subrange(at + 2 + n, b@.len() as int));
    Some((v, at + 2 + n))
}

fn write_value(v: &Vec<u8>, out: &mut Vec<u8>)
    ensures
        final(out)@ == old(out)@ + value_wire(v@),
{
    let ghost start = out@;
    push_u16(out, v.len() as u16);
    push_all(out, v.as_slice());
    assert(out@ =~= start + value_wire(v@));
}

impl DhtOperation {
    /// The sender's ID, whatever the operation.
    pub fn sender_id(&self) -> (r: NodeID)
        ensures
            r.id@ == op_sender(self@),
    {
        match self {
            DhtOperation::Ping { sender_id } => *sender_id,
            DhtOperation::Pong { sender_id } => *sender_id,
            DhtOperation::FindNode { sender_id, .. } => *sender_id,
            DhtOperation::Nodes { sender_id, .. } => *sender_id,
            DhtOperation::Store { sender_id, .. } => *sender_id,
            DhtOperation::StoreAck { sender_id, .. } => *sender_id,
            DhtOperation::FindValue { sender_id, .. } => *sender_id,
            DhtOperation::Value { sender_id, .. } => *sender_id,
        }
    }

    /// The wire tag of the operation: the first byte of its serialized form.
    pub fn tag(&self) -> (r: u8)
        ensures
            r == op_wire(self@)[0],
            1 <= r <= 8,
    {
        match self {
            DhtOperation::Ping { .. } => 1,
            DhtOperation::Pong { .. } => 2,
            DhtOperation::FindNode { .. } => 3,
            DhtOperation::Nodes { .. } => 4,
            DhtOperation::Store { .. } => 5,
            DhtOperation::StoreAck { .. } => 6,
            DhtOperation::FindValue { .. } => 7,
            DhtOperation::Value { .. } => 8,
        }
    }

    pub fn serialize(&self) -> (r: Vec<u8>)
        ensures
            r@ == op_wire(self@),
    {
        let mut buf: Vec<u8> = Vec::new();
        match self {
            DhtOperation::Ping { sender_id } => {
                buf.push(1u8);
                push_all(&mut buf, sender_id.id.as_slice());
            },
            DhtOperation::Pong { sender_id } => {
                buf.push(2u8);
                push_all(&mut buf, sender_id.id.as_slice());
            },
            DhtOperation::FindNode { sender_id, target_id } => {
                buf.push(3u8);
                push_all(&mut buf, sender_id.id.as_slice());
                push_all(&mut buf, target_id.id.as_slice());
            },
            DhtOperation::Nodes { sender_id, nodes } => {
                buf.push(4u8);
                push_all(&mut buf, sender_id.id.as_slice());
                write_nodes(nodes, &mut buf);
            },
            DhtOperation::Store { sender_id, key, value, ttl_seconds } => {
                buf.push(5u8);
                push_all(&mut buf, sender_id.id.as_slice());
                push_all(&mut buf, key.as_slice());
                push_u32(&mut buf, *ttl_seconds);
                write_value(value, &mut buf);
            },
            DhtOperation::StoreAck { sender_id, key } => {
                buf.push(6u8);
                push_all(&mut buf, sender_id.id.as_slice());
                push_all(&mut buf, key.as_slice());
            },
            DhtOperation::FindValue { sender_id, key } => {
                buf.push(7u8);
                push_all(&mut buf, sender_id.id.as_slice());
                push_all(&mut buf, key.as_slice());
            },
            DhtOperation::Value { sender_id, key, value, closest_nodes } => {
                buf.push(8u8);
                push_all(&mut buf, sender_id.id.as_slice());
                push_all(&mut buf, key.as_slice());
                match value {
                    Some(v) => {
                        buf.push(1u8);
                        write_value(v, &mut buf);
                    },
                    None => {
                        buf.push(0u8);
                    },
                }
                write_nodes(closest_nodes, &mut buf);
            },
        }
        assert(buf@ =~= op_wire(self@));
        buf
    }

    pub fn from_serialized(bytes: Vec<u8>) -> (r: Result<Self, String>)
        ensures
            match r {
                Ok(op) => parse_op(bytes@) == Some(op@),
                Err(_) => parse_op(bytes@) is None,
            },
    {
        let b = bytes.as_slice();
        let ghost bb = b@;
        if b.len() == 0 {
            return Err("empty dht packet".to_string());
        }
        let tag = b[0];
        let ghost r = bb.subrange(1, bb.len() as int);
        if !(1 <= tag && tag <= 8) {
            return Err("unknown dht packet tag".to_string());
        }
        if b.len() < 33 {
            return Err("truncated node id".to_string());
        }
        let sender_id = NodeID { id: copy_array::<32>(b, 1) };
        assert(r.subrange(0, 32) =~= sender_id.id@);
        let ghost r2 = r.subrange(32, r.len() as int);
        assert(r2 =~= bb.subrange(33, bb.len() as int));
        if tag == 1 {
            return Ok(DhtOperation::Ping { sender_id });
        }
        if tag == 2 {
            return Ok(DhtOperation::Pong { sender_id });
        }
        if tag == 4 {
            return match read_nodes(b, 33) {
                Some((nodes, _)) => Ok(DhtOperation::Nodes { sender_id, nodes }),
                None => Err("truncated node list".to_string()),
            };
        }
        if b.len() < 65 {
            return Err("truncated key".to_string());
        }
        let second: [u8; 32] = copy_array::<32>(b, 33);
        assert(r2.subrange(0, 32) =~= second@);
        let ghost r3 = r2.subrange(32, r2.len() as int);
        assert(r3 =~= bb.subrange(65, bb.len() as int));
        if tag == 3 {
            return Ok(DhtOperation::FindNode { sender_id, target_id: NodeID { id: second } });
        }
        if tag == 6 {
            return Ok(DhtOperation::StoreAck { sender_id, key: second });
        }
        if tag == 7 {
            return Ok(DhtOperation::FindValue { sender_id, key: second });
        }
        if tag == 5 {
            if b.len() < 71 {
                return Err("truncated store payload".to_string());
            }
            let ttl_seconds = read_u32(b, 65);
            assert(r3.subrange(0, 4) =~= bb.subrange(65, 69));
            assert(r3.subrange(4, r3.len() as int) =~= bb.subrange(69, bb.len() as int));
            return match read_value(b, 69) {
                Some((value, _)) => Ok(DhtOperation::Store { sender_id, key: second, value, ttl_seconds }),
                None => Err("truncated value".to_string()),
            };
        }
        if b.len() < 66 {
            return Err("truncated value packet".to_string());
        }
        let has_value = b[65];
        assert(r3.subrange(1, r3.len() as int) =~= bb.subrange(66, bb.len() as int));
        if has_value == 1 {
            let (value, next) = match read_value(b, 66) {
                Some(v) => v,
                None => return Err("truncated value".to_string()),
            };
            match read_nodes(b, next) {
                Some((closest_nodes, _)) => Ok(DhtOperation::Value { sender_id, key: second, value: Some(value), closest_nodes }),
                None => Err("truncated node list".to_string()),
            }
        } else {
            match read_nodes(b, 66) {
                Some((closest_nodes, _)) => Ok(DhtOperation::Value { sender_id, key: second, value: None, closest_nodes }),
                None => Err("truncated node list".to_string()),
            }
        }
    }
}

} // verus!
