use ed25519_dalek::{Signature, SigningKey, Verifier};
use insub::network::addr::PeerAddr;
use insub::network::registry::{derive_id, PeerId, RelayEntry, RelayRegistry, MIN_ENTRY_LEN};
use insub::network::relay::{route_frame, RelayFrame};
use insub::protocol::packet::{Packet, PacketFlag, CURRENT_VERSION};
use insub::protocol::payload::{Payload, PayloadTag};
use insub::runtime::{contact_key_for, dht_packet, lane_for, relay_packet, skip_in_lookup, Lane};
use insub::transport::link::LinkState;
use insub::storage::{
    deserialize_peer_keys, deserialize_pk_to_addr, serialize_peer_keys, serialize_pk_to_addr, PeerKeyMap, PkAddrMap,
};
use insub::transport::fragment::{split_packet, PendingReassembly, Reassembler, ENTRY_TIMEOUT_MS, MAX_CHUNK};
use insub::transport::reliable::{
    build_ack, reliable_fragments, verify_ack, PendingSends, SeenCache, DEDUP_TTL_MS, MAX_RETRIES, RETRY_DELAY_MS,
};
use sha2::{Digest, Sha256};

fn addr(port: u16) -> PeerAddr {
    PeerAddr::V4 { ip: 0xc0a80001, port }
}

fn pubkey(seed: u8) -> [u8; 32] {
    SigningKey::from_bytes(&[seed; 32]).verifying_key().to_bytes()
}

fn big_packet(len: usize) -> Packet {
    let data: Vec<u8> = (0..len).map(|i| (i % 251) as u8).collect();
    Packet::new(0, 0x1234, Payload::new(PayloadTag::Message, data))
}

#[test]
fn small_packet_is_not_split() {
    let p = big_packet(10);
    let parts = split_packet(&p);
    assert_eq!(parts.len(), 1);
    assert_eq!(parts[0].serialize(), p.serialize());
}

#[test]
fn large_packet_splits_and_reassembles() {
    let p = big_packet(3000);
    let whole = p.serialize();
    let parts = split_packet(&p);
    let n = (whole.len() + MAX_CHUNK - 1) / MAX_CHUNK;
    assert_eq!(parts.len(), n);
    for (i, f) in parts.iter().enumerate() {
        assert_eq!(f.payload.fragment_id, 0x1234);
        assert_eq!(f.payload.fragment_index as usize, i);
        assert_eq!(f.payload.fragment_total as usize, n);
        assert_eq!(f.header.version, CURRENT_VERSION);
        assert!(f.header.flags.contains(PacketFlag::Fragmented));
        assert_eq!(f.header.flags.contains(PacketFlag::LastFragment), i + 1 == n);
        assert!(f.payload.data.len() <= MAX_CHUNK);
    }
    let mut r = Reassembler::new();
    let mut out = None;
    for f in parts.iter().rev() {
        assert!(out.is_none());
        out = r.feed_at(f, addr(1), 5);
    }
    let back = out.unwrap();
    assert_eq!(back.serialize(), whole);
}

#[test]
fn fragments_from_other_senders_stay_apart() {
    let parts = split_packet(&big_packet(2000));
    assert_eq!(parts.len(), 2);
    let mut r = Reassembler::new();
    assert!(r.feed_at(&parts[0], addr(1), 0).is_none());
    assert!(r.feed_at(&parts[1], addr(2), 0).is_none());
    assert!(r.feed_at(&parts[1], addr(1), 0).is_some());
}

#[test]
fn stale_reassemblies_are_dropped() {
    let parts = split_packet(&big_packet(2000));
    let mut r = Reassembler::new();
    assert!(r.feed_at(&parts[0], addr(1), 0).is_none());
    r.evict_stale_at(ENTRY_TIMEOUT_MS - 1);
    assert!(r.feed_at(&parts[1], addr(1), ENTRY_TIMEOUT_MS - 1).is_some());
    r.evict_stale_at(ENTRY_TIMEOUT_MS);
    assert!(r.feed_at(&parts[1], addr(1), ENTRY_TIMEOUT_MS).is_none());
}

#[test]
fn unfragmented_packet_passes_through() {
    let p = big_packet(5);
    let mut r = Reassembler::new();
    let out = r.feed(&p, addr(1)).unwrap();
    assert_eq!(out.serialize(), p.serialize());
}

#[test]
fn pending_reassembly_is_full_only_when_complete() {
    let empty = PendingReassembly::new_at(0, 0);
    assert_eq!(empty.is_full(), Some(vec![]));
    let two = PendingReassembly::new(2);
    assert_eq!(two.is_full(), None);
}

#[test]
fn reliable_fragments_ask_for_acks() {
    let small = reliable_fragments(&big_packet(10));
    assert_eq!(small.len(), 1);
    assert!(small[0].header.flags.contains(PacketFlag::AckRequired));
    let big = reliable_fragments(&big_packet(2500));
    assert_eq!(big.len(), 3);
    for f in big.iter() {
        assert!(f.header.flags.contains(PacketFlag::AckRequired));
        assert!(f.header.flags.contains(PacketFlag::Fragmented));
    }
}

#[test]
fn pending_sends_retry_then_give_up() {
    let mut p = PendingSends::new();
    p.record_at(1, vec![1, 2], addr(1), 0);
    p.record_at(2, vec![3], addr(2), 1_000);
    assert_eq!(p.dest_of(1), Some(addr(1)));
    assert_eq!(p.dest_of(3), None);
    let first = p.retransmit_at(RETRY_DELAY_MS);
    assert!(first.is_empty());
    let second = p.retransmit_at(RETRY_DELAY_MS + 1);
    assert_eq!(second, vec![(vec![1u8, 2], addr(1))]);
    let mut now = RETRY_DELAY_MS + 1;
    let mut sent_for_one = 1;
    for _ in 0..10 {
        now += RETRY_DELAY_MS + 1;
        let r = p.retransmit_at(now);
        sent_for_one += r.iter().filter(|(b, _)| b == &vec![1u8, 2]).count();
    }
    assert_eq!(sent_for_one, MAX_RETRIES as usize);
    assert_eq!(p.dest_of(1), None);
    p.remove(2);
    assert_eq!(p.dest_of(2), None);
}

#[test]
fn seen_cache_drops_duplicates_within_ttl() {
    let mut c = SeenCache::new();
    assert!(c.check_new_at(7, 0));
    assert!(!c.check_new_at(7, 10));
    assert!(!c.check_new_at(7, DEDUP_TTL_MS - 1));
    assert!(c.check_new_at(7, DEDUP_TTL_MS));
    assert!(c.check_new_at(8, 1));
}

#[test]
fn ack_is_signed_packet_id() {
    let secret = [5u8; 32];
    let ack = build_ack(Some(&secret), 0x0a0b);
    assert!(ack.header.flags.contains(PacketFlag::Ack));
    assert_eq!(ack.header.id, 0x0a0b);
    assert_eq!(ack.payload.tag, PayloadTag::KeepAlive);
    assert_eq!(ack.payload.data.len(), 96);
    assert_eq!(&ack.payload.data[..32], &pubkey(5)[..]);
    let sig = Signature::from_bytes(ack.payload.data[32..96].try_into().unwrap());
    let vk = SigningKey::from_bytes(&secret).verifying_key();
    assert!(vk.verify(&0x0a0bu128.to_be_bytes(), &sig).is_ok());
    assert!(build_ack(None, 3).payload.data.is_empty());
}

#[test]
fn acks_settle_only_matching_sends_and_pin_keys() {
    let mut pending = PendingSends::new();
    pending.record_at(10, vec![1], addr(1), 0);
    let mut keys = PeerKeyMap::new();
    let ack = build_ack(Some(&[5u8; 32]), 10);
    assert!(!verify_ack(&ack, &pending, &mut keys, addr(2)));
    assert!(verify_ack(&ack, &pending, &mut keys, addr(1)));
    assert_eq!(keys.get(&addr(1)), Some(pubkey(5)));
    assert!(verify_ack(&ack, &pending, &mut keys, addr(1)));
    let forged = build_ack(Some(&[6u8; 32]), 10);
    assert!(!verify_ack(&forged, &pending, &mut keys, addr(1)));
    assert_eq!(keys.get(&addr(1)), Some(pubkey(5)));
    let unsigned = build_ack(None, 10);
    assert!(verify_ack(&unsigned, &pending, &mut keys, addr(1)));
    let other = build_ack(Some(&[5u8; 32]), 11);
    assert!(!verify_ack(&other, &pending, &mut keys, addr(1)));
}

#[test]
fn peer_keys_roundtrip() {
    let mut m = PeerKeyMap::new();
    m.insert(addr(1), pubkey(1));
    m.insert(PeerAddr::V6 { ip: 99, port: 2 }, pubkey(2));
    m.insert(addr(1), pubkey(3));
    assert_eq!(m.len(), 2);
    assert_eq!(m.get(&addr(1)), Some(pubkey(3)));
    let bytes = serialize_peer_keys(&m);
    assert_eq!(bytes.len(), 4 + (7 + 32) + (19 + 32));
    assert_eq!(&bytes[..4], &[0u8, 0, 0, 2][..]);
    let back = deserialize_peer_keys(&bytes).unwrap();
    assert_eq!(back.len(), 2);
    assert_eq!(back.get(&PeerAddr::V6 { ip: 99, port: 2 }), Some(pubkey(2)));
    assert!(deserialize_peer_keys(&bytes[..bytes.len() - 1]).is_err());
}

#[test]
fn key_addresses_roundtrip() {
    let mut m = PkAddrMap::new();
    m.insert([1u8; 32], addr(1));
    m.insert([2u8; 32], addr(2));
    m.insert([1u8; 32], addr(3));
    assert_eq!(m.len(), 2);
    assert_eq!(m.get(&[1u8; 32]), Some(addr(3)));
    let bytes = serialize_pk_to_addr(&m);
    assert_eq!(bytes.len(), 4 + 2 * (32 + 7));
    let back = deserialize_pk_to_addr(&bytes).unwrap();
    assert_eq!(back.get(&[2u8; 32]), Some(addr(2)));
    assert_eq!(back.get(&[9u8; 32]), None);
    assert!(deserialize_pk_to_addr(&[0u8, 0, 0, 1]).is_err());
}

#[test]
fn relay_id_is_hash_prefix() {
    let pk = [3u8; 32];
    let mut h = Sha256::new();
    h.update(pk);
    h.update(b"relay_id");
    let d = h.finalize();
    let expected = u128::from_be_bytes(d[..16].try_into().unwrap());
    assert_eq!(derive_id(&pk), expected);
    let mut h2 = Sha256::new();
    h2.update(pk);
    h2.update(b"peer_id");
    let d2 = h2.finalize();
    assert_eq!(PeerId::from_master_pubkey(&pk).id, u128::from_be_bytes(d2[..16].try_into().unwrap()));
}

#[test]
fn relay_entries_need_matching_id() {
    let pk = [3u8; 32];
    let id = derive_id(&pk);
    assert!(RelayEntry::new(id + 1, pk, addr(1)).is_err());
    let e = RelayEntry::new(id, pk, addr(1)).unwrap();
    let bytes = e.serialize();
    assert_eq!(bytes.len(), MIN_ENTRY_LEN + 6);
    let back = RelayEntry::from_serialized(bytes).unwrap();
    assert_eq!(back.id, id);
    assert_eq!(back.address, addr(1));
}

#[test]
fn registry_add_lookup_remove_roundtrip() {
    let mut reg = RelayRegistry::new();
    let e1 = RelayEntry::new(derive_id(&[1u8; 32]), [1u8; 32], addr(1)).unwrap();
    let e2 = RelayEntry::new(derive_id(&[2u8; 32]), [2u8; 32], PeerAddr::V6 { ip: 5, port: 6 }).unwrap();
    reg.add(e1);
    reg.add(e2);
    assert_eq!(reg.lookup(e2.id).unwrap().address, PeerAddr::V6 { ip: 5, port: 6 });
    let bytes = reg.serialize();
    let back = RelayRegistry::from_serialized(bytes.clone()).unwrap();
    assert_eq!(back.serialize(), bytes);
    assert_eq!(back.lookup(e1.id).unwrap().address, addr(1));
    reg.remove(e1.id);
    assert!(reg.lookup(e1.id).is_none());
    assert!(reg.lookup(e2.id).is_some());
    assert!(RelayRegistry::from_serialized(vec![0u8, 0, 0, 1, 0, 0, 0, 200]).is_err());
}

#[test]
fn relay_routes_frames_to_registered_address() {
    let mut reg = RelayRegistry::new();
    let e = RelayEntry::new(derive_id(&[1u8; 32]), [1u8; 32], addr(9)).unwrap();
    reg.add(e);
    let frame = RelayFrame::new(e.id, vec![1, 2, 3]);
    let packet = Packet::new(0, 1, Payload::new(PayloadTag::RelayFrame, frame.serialize()));
    let (bytes, to) = route_frame(&reg, &packet).unwrap();
    assert_eq!(bytes, vec![1, 2, 3]);
    assert_eq!(to, addr(9));
    let unknown = RelayFrame::new(e.id + 1, vec![1]);
    let p2 = Packet::new(0, 1, Payload::new(PayloadTag::RelayFrame, unknown.serialize()));
    assert!(route_frame(&reg, &p2).is_none());
    let short = Packet::new(0, 1, Payload::new(PayloadTag::RelayFrame, vec![1, 2]));
    assert!(route_frame(&reg, &short).is_none());
}

#[test]
fn lanes_and_lookup_filter() {
    assert_eq!(lane_for(PayloadTag::DhtOperation), Some(Lane::Dht));
    assert_eq!(lane_for(PayloadTag::RelayFrame), Some(Lane::Relay));
    assert_eq!(lane_for(PayloadTag::Handshake), Some(Lane::Handshake));
    assert_eq!(lane_for(PayloadTag::Message), Some(Lane::Message));
    assert_eq!(lane_for(PayloadTag::KeepAlive), None);
    let ping = Packet::new(0, 1, Payload::new(PayloadTag::DhtOperation, vec![1, 0]));
    assert!(skip_in_lookup(&ping));
    let nodes = Packet::new(0, 1, Payload::new(PayloadTag::DhtOperation, vec![4, 0]));
    assert!(!skip_in_lookup(&nodes));
    let empty = Packet::new(0, 1, Payload::new(PayloadTag::DhtOperation, vec![]));
    assert!(!skip_in_lookup(&empty));
}

#[test]
fn contact_key_is_hash_of_label_and_key() {
    let pk = [8u8; 32];
    let mut h = Sha256::new();
    h.update(b"contact");
    h.update(pk);
    let expected: [u8; 32] = h.finalize().into();
    assert_eq!(contact_key_for(&pk), expected);
}

#[test]
fn link_state_sends_settles_and_drops_duplicates() {
    let mut a = LinkState::new();
    let mut b = LinkState::new();
    let p = big_packet(20);
    let out = a.prepare_send(&p);
    assert_eq!(out.len(), 1);
    let sent = Packet::from_serialized(out[0].1.clone()).unwrap();
    assert_eq!(sent.header.id, out[0].0);
    assert!(sent.header.flags.contains(PacketFlag::AckRequired));
    assert_eq!(a.pending.dest_of(sent.header.id), None);
    a.record_sent_at(out[0].0, out[0].1.clone(), addr(2), 0);
    assert_eq!(a.pending.dest_of(sent.header.id), Some(addr(2)));
    let got = b.on_packet_at(&sent, addr(1), 5).unwrap();
    assert_eq!(got.payload.data, p.payload.data);
    assert!(b.on_packet_at(&sent, addr(1), 6).is_none());
    let ack = build_ack(Some(&[5u8; 32]), sent.header.id);
    assert!(a.on_packet_at(&ack, addr(3), 7).is_none());
    assert_eq!(a.pending.dest_of(sent.header.id), Some(addr(2)));
    assert!(a.on_packet_at(&ack, addr(2), 8).is_none());
    assert_eq!(a.pending.dest_of(sent.header.id), None);
    assert_eq!(a.peer_keys.get(&addr(2)), Some(pubkey(5)));
}

#[test]
fn link_state_reassembles_and_resends() {
    let mut a = LinkState::new();
    let mut b = LinkState::new();
    let p = big_packet(3000);
    let out = a.prepare_send(&p);
    assert_eq!(out.len(), 3);
    for (id, d) in out.iter() {
        a.record_sent_at(*id, d.clone(), addr(2), 0);
    }
    let mut whole = None;
    for (_, d) in out.iter() {
        let f = Packet::from_serialized(d.clone()).unwrap();
        assert!(whole.is_none());
        whole = b.on_packet_at(&f, addr(1), 1);
    }
    assert_eq!(whole.unwrap().serialize(), p.serialize());
    assert!(a.on_idle_at(RETRY_DELAY_MS).is_empty());
    let again = a.on_idle_at(RETRY_DELAY_MS + 1);
    assert_eq!(again.len(), 3);
    assert_eq!(again[0], (out[0].1.clone(), addr(2)));
}

#[test]
fn link_state_records_only_what_went_out() {
    let mut a = LinkState::new();
    let p = big_packet(3000);
    let out = a.prepare_send(&p);
    assert_eq!(out.len(), 3);
    a.record_sent_at(out[0].0, out[0].1.clone(), addr(2), 0);
    assert_eq!(a.pending.dest_of(out[0].0), Some(addr(2)));
    assert_eq!(a.pending.dest_of(out[1].0), None);
    assert_eq!(a.pending.dest_of(out[2].0), None);
    let again = a.on_idle_at(RETRY_DELAY_MS + 1);
    assert_eq!(again, vec![(out[0].1.clone(), addr(2))]);
}

#[test]
fn relay_packet_routes_back_to_inner_packet() {
    let pk = [1u8; 32];
    let mut reg = RelayRegistry::new();
    reg.add(RelayEntry::new(derive_id(&pk), pk, addr(9)).unwrap());
    let inner = big_packet(7);
    let outer = relay_packet(&inner, &pk, 55);
    assert_eq!(outer.header.id, 55);
    assert_eq!(outer.payload.tag, PayloadTag::RelayFrame);
    let (bytes, to) = route_frame(&reg, &outer).unwrap();
    assert_eq!(to, addr(9));
    assert_eq!(bytes, inner.serialize());
}

#[test]
fn dht_packets_carry_operations() {
    let op = insub::dht::protocol::DhtOperation::Ping { sender_id: insub::dht::node_id::NodeID { id: [3u8; 32] } };
    let p = dht_packet(&op, 8);
    assert_eq!(p.header.id, 8);
    assert_eq!(p.payload.tag, PayloadTag::DhtOperation);
    assert_eq!(p.payload.data, op.serialize());
}

#[test]
fn fragments_fed_in_a_shuffled_order_rejoin() {
    let p = big_packet(4000);
    let parts = split_packet(&p);
    assert_eq!(parts.len(), 4);
    let mut r = Reassembler::new();
    let order = [2usize, 0, 3, 1];
    for (k, i) in order.iter().enumerate() {
        let out = r.feed_at(&parts[*i], addr(1), k as u64);
        if k + 1 < order.len() {
            assert!(out.is_none());
        } else {
            assert_eq!(out.unwrap().serialize(), p.serialize());
        }
    }
}
