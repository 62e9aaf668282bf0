use insub::dht::client::DhtClient;
use insub::dht::node::DhtNode;
use insub::dht::node_id::NodeID;
use insub::dht::protocol::DhtOperation;
use insub::dht::routing::{RoutingTable, K};
use insub::network::addr::PeerAddr;
use insub::protocol::packet::Packet;
use insub::protocol::payload::{Payload, PayloadTag};
use sha2::{Digest, Sha256};

fn id_with(first: u8, second: u8) -> NodeID {
    let mut id = [0u8; 32];
    id[0] = first;
    id[1] = second;
    NodeID { id }
}

fn addr(port: u16) -> PeerAddr {
    PeerAddr::V4 { ip: 0x0a000001, port }
}

fn zero() -> NodeID {
    NodeID { id: [0u8; 32] }
}

#[test]
fn node_id_from_pubkey_is_hash_of_key_and_label() {
    let pk = [7u8; 32];
    let mut h = Sha256::new();
    h.update(pk);
    h.update(b"dht_node_id");
    let expected: [u8; 32] = h.finalize().into();
    assert_eq!(NodeID::from_pubkey(&pk).id, expected);
    assert_ne!(NodeID::from_pubkey(&[8u8; 32]).id, expected);
}

#[test]
fn xor_distance_is_symmetric_and_zero_on_self() {
    let a = id_with(0x12, 0x34);
    let b = id_with(0x56, 0x78);
    assert_eq!(a.distance(&b), b.distance(&a));
    let d = a.distance(&b);
    assert_eq!(d[0], 0x12 ^ 0x56);
    assert_eq!(d[1], 0x34 ^ 0x78);
    assert_eq!(a.distance(&a), [0u8; 32]);
}

#[test]
fn leading_zero_bits_counts_common_prefix() {
    let z = zero();
    assert_eq!(z.leading_zero_bits(&z), None);
    assert_eq!(z.leading_zero_bits(&id_with(0x80, 0)), Some(0));
    assert_eq!(z.leading_zero_bits(&id_with(0x01, 0)), Some(7));
    assert_eq!(z.leading_zero_bits(&id_with(0, 0x20)), Some(10));
    let mut last = [0u8; 32];
    last[31] = 1;
    assert_eq!(z.leading_zero_bits(&NodeID { id: last }), Some(255));
    assert!(z.same_as(&zero()));
    assert!(!z.same_as(&id_with(1, 0)));
}

#[test]
fn routing_returns_closest_first() {
    let mut t = RoutingTable::new(zero());
    t.add_node_at(id_with(0x80, 0), addr(1), 0);
    t.add_node_at(id_with(0x40, 0), addr(2), 0);
    t.add_node_at(id_with(0x01, 0), addr(3), 0);
    t.add_node_at(id_with(0xc0, 0), addr(4), 0);
    let r = t.closest_nodes(&id_with(0x41, 0), 2);
    assert_eq!(r.len(), 2);
    assert_eq!(r[0].0.id, id_with(0x40, 0).id);
    assert_eq!(r[0].1, addr(2));
    let all = t.closest_nodes(&zero(), 10);
    assert_eq!(all.len(), 4);
    assert_eq!(all[0].0.id, id_with(0x01, 0).id);
    assert_eq!(all[1].0.id, id_with(0x40, 0).id);
    assert_eq!(all[2].0.id, id_with(0x80, 0).id);
    assert_eq!(all[3].0.id, id_with(0xc0, 0).id);
}

#[test]
fn routing_ignores_local_and_duplicates() {
    let mut t = RoutingTable::new(zero());
    t.add_node_at(zero(), addr(9), 0);
    assert_eq!(t.closest_nodes(&zero(), 5).len(), 0);
    t.add_node_at(id_with(0x80, 1), addr(1), 0);
    t.add_node_at(id_with(0x80, 1), addr(2), 5);
    let r = t.closest_nodes(&zero(), 5);
    assert_eq!(r.len(), 1);
    assert_eq!(r[0].1, addr(2));
}

#[test]
fn routing_remove_forgets() {
    let mut t = RoutingTable::new(zero());
    t.add_node_at(id_with(0x80, 1), addr(1), 0);
    t.add_node_at(id_with(0x80, 2), addr(2), 0);
    t.remove_node(&id_with(0x80, 1));
    let r = t.closest_nodes(&zero(), 5);
    assert_eq!(r.len(), 1);
    assert_eq!(r[0].0.id, id_with(0x80, 2).id);
}

#[test]
fn needs_ping_respects_cooldown() {
    let mut t = RoutingTable::new(zero());
    t.add_node_at(id_with(0x80, 1), addr(1), 0);
    let target = id_with(0x90, 0);
    let first = t.needs_ping_at(&target, 1_000).unwrap();
    assert_eq!(first.0.id, id_with(0x80, 1).id);
    assert!(t.needs_ping_at(&target, 2_000).is_none());
    assert!(t.needs_ping_at(&target, 61_000).is_none());
    assert!(t.needs_ping_at(&target, 61_001).is_some());
    assert!(t.needs_ping_at(&id_with(0x01, 0), 1_000).is_none());
}

#[test]
fn needs_ping_picks_least_recently_seen() {
    let mut t = RoutingTable::new(zero());
    t.add_node_at(id_with(0x80, 1), addr(1), 0);
    t.add_node_at(id_with(0x80, 2), addr(2), 10);
    t.mark_alive_at(&id_with(0x80, 1), addr(1), 20);
    let p = t.needs_ping_at(&id_with(0x80, 0), 30).unwrap();
    assert_eq!(p.0.id, id_with(0x80, 2).id);
    let q = t.needs_ping_at(&id_with(0x80, 0), 30).unwrap();
    assert_eq!(q.0.id, id_with(0x80, 1).id);
}

#[test]
fn mark_alive_ignores_unknown_nodes() {
    let mut t = RoutingTable::new(zero());
    t.mark_alive_at(&id_with(0x80, 1), addr(1), 5);
    assert_eq!(t.closest_nodes(&zero(), 5).len(), 0);
}

fn full_bucket() -> RoutingTable {
    let mut t = RoutingTable::new(zero());
    for i in 0..(K as u8 + 1) {
        t.add_node_at(id_with(0x80, i), addr(i as u16), 0);
    }
    t
}

#[test]
fn full_bucket_keeps_extra_node_as_candidate() {
    let mut t = full_bucket();
    assert_eq!(t.closest_nodes(&zero(), 50).len(), K);
    t.remove_node(&id_with(0x80, 0));
    assert_eq!(t.closest_nodes(&zero(), 50).len(), K - 1);
    t.evict_stale_at(1_000);
    let r = t.closest_nodes(&zero(), 50);
    assert_eq!(r.len(), K);
    assert!(r.iter().any(|(n, _)| n.id == id_with(0x80, K as u8).id));
}

#[test]
fn stale_candidates_are_dropped() {
    let mut t = full_bucket();
    t.evict_stale_at(200_000);
    assert_eq!(t.closest_nodes(&zero(), 50).len(), K);
    t.remove_node(&id_with(0x80, 0));
    t.evict_stale_at(200_001);
    assert_eq!(t.closest_nodes(&zero(), 50).len(), K - 1);
}

#[test]
fn pinged_silent_node_is_replaced_by_candidate() {
    let mut t = full_bucket();
    let pinged = t.needs_ping_at(&id_with(0x80, 0), 100_000).unwrap();
    t.mark_alive_at(&id_with(0x80, K as u8), addr(K as u16), 150_000);
    t.evict_stale_at(220_001);
    let r = t.closest_nodes(&zero(), 50);
    assert_eq!(r.len(), K);
    assert!(r.iter().all(|(n, _)| n.id != pinged.0.id));
    assert!(r.iter().any(|(n, _)| n.id == id_with(0x80, K as u8).id));
}

#[test]
fn node_answers_ping_with_pong() {
    let me = id_with(0x01, 1);
    let mut node = DhtNode::new(me, addr(100));
    let r = node.process_op_at(DhtOperation::Ping { sender_id: id_with(0x80, 5) }, addr(5), 0);
    match r {
        Some((DhtOperation::Pong { sender_id }, to)) => {
            assert_eq!(sender_id.id, me.id);
            assert_eq!(to, addr(5));
        }
        _ => panic!("expected a pong"),
    }
    assert_eq!(node.routing.closest_nodes(&zero(), 5).len(), 1);
}

#[test]
fn node_stores_and_finds_until_expiry() {
    let mut node = DhtNode::new(zero(), addr(100));
    let key = [3u8; 32];
    let r = node.process_op_at(
        DhtOperation::Store { sender_id: id_with(0x80, 1), key, value: vec![1, 2, 3], ttl_seconds: 10 },
        addr(1),
        1_000,
    );
    match r {
        Some((DhtOperation::StoreAck { key: k, .. }, to)) => {
            assert_eq!(k, key);
            assert_eq!(to, addr(1));
        }
        _ => panic!("expected a store ack"),
    }
    let found = node.process_op_at(DhtOperation::FindValue { sender_id: id_with(0x80, 2), key }, addr(2), 10_999);
    match found {
        Some((DhtOperation::Value { value, key: k, closest_nodes, .. }, _)) => {
            assert_eq!(k, key);
            assert_eq!(value, Some(vec![1, 2, 3]));
            assert!(closest_nodes.iter().all(|(n, _)| n.id != id_with(0x80, 2).id));
            assert_eq!(closest_nodes.len(), 1);
        }
        _ => panic!("expected a value"),
    }
    let expired = node.process_op_at(DhtOperation::FindValue { sender_id: id_with(0x80, 2), key }, addr(2), 11_000);
    match expired {
        Some((DhtOperation::Value { value, .. }, _)) => assert_eq!(value, None),
        _ => panic!("expected a value answer"),
    }
}

#[test]
fn node_find_node_leaves_asker_out() {
    let mut node = DhtNode::new(zero(), addr(100));
    node.routing.add_node_at(id_with(0x80, 1), addr(1), 0);
    node.routing.add_node_at(id_with(0x40, 1), addr(2), 0);
    let r = node.process_op_at(
        DhtOperation::FindNode { sender_id: id_with(0x80, 1), target_id: id_with(0x80, 0) },
        addr(1),
        5,
    );
    match r {
        Some((DhtOperation::Nodes { nodes, .. }, _)) => {
            assert_eq!(nodes.len(), 1);
            assert_eq!(nodes[0].0.id, id_with(0x40, 1).id);
        }
        _ => panic!("expected nodes"),
    }
}

#[test]
fn node_learns_nodes_from_responses_and_ignores_garbage() {
    let mut node = DhtNode::new(zero(), addr(100));
    let r = node.process_op_at(
        DhtOperation::Nodes { sender_id: id_with(0x80, 1), nodes: vec![(id_with(0x40, 1), addr(2)), (id_with(0x20, 1), addr(3))] },
        addr(1),
        0,
    );
    assert!(r.is_none());
    assert_eq!(node.routing.closest_nodes(&zero(), 10).len(), 3);
    let junk = Packet::new(0, 1, Payload::new(PayloadTag::DhtOperation, vec![99, 1, 2]));
    assert!(node.process_at(&junk, addr(7), 0).is_none());
    assert_eq!(node.routing.closest_nodes(&zero(), 10).len(), 3);
}

#[test]
fn node_processes_serialized_ping() {
    let mut node = DhtNode::new(zero(), addr(100));
    let ping = DhtOperation::Ping { sender_id: id_with(0x80, 9) };
    let packet = Packet::new(0, 1, Payload::new(PayloadTag::DhtOperation, ping.serialize()));
    match node.process(&packet, addr(9)) {
        Some((DhtOperation::Pong { .. }, to)) => assert_eq!(to, addr(9)),
        _ => panic!("expected a pong"),
    }
}

#[test]
fn dht_operations_roundtrip() {
    let ops = vec![
        DhtOperation::Ping { sender_id: id_with(1, 2) },
        DhtOperation::Pong { sender_id: id_with(3, 4) },
        DhtOperation::FindNode { sender_id: id_with(1, 1), target_id: id_with(2, 2) },
        DhtOperation::Nodes { sender_id: id_with(1, 1), nodes: vec![(id_with(5, 5), addr(5)), (id_with(6, 6), PeerAddr::V6 { ip: 77, port: 6 })] },
        DhtOperation::Store { sender_id: id_with(1, 1), key: [4u8; 32], value: vec![1, 2], ttl_seconds: 60 },
        DhtOperation::StoreAck { sender_id: id_with(1, 1), key: [4u8; 32] },
        DhtOperation::FindValue { sender_id: id_with(1, 1), key: [4u8; 32] },
        DhtOperation::Value { sender_id: id_with(1, 1), key: [4u8; 32], value: Some(vec![9]), closest_nodes: vec![] },
        DhtOperation::Value { sender_id: id_with(1, 1), key: [4u8; 32], value: None, closest_nodes: vec![(id_with(5, 5), addr(5))] },
    ];
    for op in ops {
        let bytes = op.serialize();
        let back = DhtOperation::from_serialized(bytes.clone()).unwrap();
        assert_eq!(back.serialize(), bytes);
        assert_eq!(back.sender_id().id, op.sender_id().id);
    }
    assert!(DhtOperation::from_serialized(vec![]).is_err());
    assert!(DhtOperation::from_serialized(vec![200u8; 40]).is_err());
}

#[test]
fn client_join_asks_first_seed() {
    let me = id_with(0x01, 1);
    let mut client = DhtClient::new(me);
    let mut routing = RoutingTable::new(me);
    let r = client.start_join(&[addr(1), addr(2)], &mut routing).unwrap();
    match r {
        (DhtOperation::FindNode { sender_id, target_id }, to) => {
            assert_eq!(sender_id.id, me.id);
            assert_eq!(target_id.id, me.id);
            assert_eq!(to, addr(1));
        }
        _ => panic!("expected find node"),
    }
    let p = client.result().unwrap();
    assert_eq!(p.queried.len(), 1);
    assert_eq!(p.shortlist.len(), 2);
    assert!(DhtClient::new(me).start_join(&[], &mut routing).is_none());
}

#[test]
fn client_lookup_walks_toward_target_and_ends() {
    let me = zero();
    let mut client = DhtClient::new(me);
    let mut routing = RoutingTable::new(me);
    routing.add_node_at(id_with(0x80, 1), addr(1), 0);
    let target = id_with(0x41, 0);
    let (q, to) = client.start_lookup_node(target, &routing).unwrap();
    assert_eq!(to, addr(1));
    assert!(matches!(q, DhtOperation::FindNode { .. }));
    let resp = DhtOperation::Nodes { sender_id: id_with(0x80, 1), nodes: vec![(id_with(0x40, 0), addr(2))] };
    let (next, done) = client.handle_response_at(resp, &mut routing, 10);
    assert!(!done);
    let (_, to2) = next.unwrap();
    assert_eq!(to2, addr(2));
    let resp2 = DhtOperation::Nodes { sender_id: id_with(0x40, 0), nodes: vec![] };
    let (next2, done2) = client.handle_response_at(resp2, &mut routing, 20);
    assert!(next2.is_none());
    assert!(done2);
    assert_eq!(client.result().unwrap().queried.len(), 2);
    assert_eq!(routing.closest_nodes(&zero(), 10).len(), 2);
}

#[test]
fn client_find_value_stops_at_value() {
    let me = zero();
    let mut client = DhtClient::new(me);
    let mut routing = RoutingTable::new(me);
    routing.add_node_at(id_with(0x80, 1), addr(1), 0);
    let key = [0x81u8; 32];
    let (q, _) = client.start_find_value(key, &routing).unwrap();
    match q {
        DhtOperation::FindValue { key: k, .. } => assert_eq!(k, key),
        _ => panic!("expected find value"),
    }
    let resp = DhtOperation::Value { sender_id: id_with(0x80, 1), key, value: Some(vec![5, 5]), closest_nodes: vec![] };
    let (next, done) = client.handle_response_at(resp, &mut routing, 1);
    assert!(next.is_none());
    assert!(done);
    assert_eq!(client.result().unwrap().found_value, Some(vec![5, 5]));
}

#[test]
fn client_without_lookup_reports_done() {
    let mut client = DhtClient::new(zero());
    let mut routing = RoutingTable::new(zero());
    let (next, done) = client.handle_response_at(DhtOperation::Pong { sender_id: id_with(1, 1) }, &mut routing, 0);
    assert!(next.is_none());
    assert!(done);
    assert!(client.result().is_none());
}
