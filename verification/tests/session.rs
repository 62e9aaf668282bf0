use insub::api::Event;
use insub::crypto::handshake::{Initiator, Responder};
use insub::identity::certificates::DeviceCertificate;
use insub::identity::identity::{MasterKeyPair, UserID};
use insub::network::addr::PeerAddr;
use insub::protocol::message::Message;
use insub::protocol::payload::PayloadTag;
use insub::protocol::session::{bytes_less, handshake_offer, Session};
use insub::runtime::SessionTable;
use ed25519_dalek::SigningKey;
use x25519_dalek::{PublicKey, StaticSecret};

fn x_pub(secret: [u8; 32]) -> [u8; 32] {
    PublicKey::from(&StaticSecret::from(secret)).to_bytes()
}

struct Peer {
    master: MasterKeyPair,
    x_priv: [u8; 32],
    cert: DeviceCertificate,
}

fn peer(seed: u8) -> Peer {
    let master = MasterKeyPair::from_signing_key_bytes(&[seed; 32]);
    let x_priv = [seed.wrapping_add(100); 32];
    let cert = DeviceCertificate::new(&master, SigningKey::from_bytes(&[seed.wrapping_add(50); 32]).verifying_key().to_bytes(), x_pub(x_priv));
    Peer { master, x_priv, cert }
}

fn established() -> (Session, Session, Peer, Peer) {
    let alice = peer(1);
    let bob = peer(2);
    let mut a = Session::new_initiator(
        &alice.x_priv,
        &x_pub(bob.x_priv),
        alice.cert,
        alice.master.public_key,
        UserID::from_keypair(&bob.master),
    )
    .unwrap();
    let mut b = Session::new_responder(&bob.x_priv, bob.cert, bob.master.public_key).unwrap();
    assert!(a.is_initiator());
    assert!(!b.is_initiator());
    let m1 = a.initiate_handshake(PeerAddr::V4 { ip: 1, port: 2 }).unwrap();
    b.accept_handshake(&m1).unwrap();
    assert!(b.reply_ready());
    let m2 = b.reply_handshake().unwrap();
    a.complete_handshake(&m2).unwrap();
    (a, b, alice, bob)
}

#[test]
fn noise_handshake_agrees_on_hash_and_payloads() {
    let a_priv = [7u8; 32];
    let b_priv = [8u8; 32];
    let mut init = Initiator::new(&a_priv, &x_pub(b_priv)).unwrap();
    let mut resp = Responder::new(&b_priv).unwrap();
    let m1 = init.initiate(b"first".to_vec()).unwrap();
    assert_eq!(resp.accept(&m1).unwrap(), b"first".to_vec());
    let (m2, rr) = resp.reply(b"second".to_vec()).unwrap();
    let ir = init.finish(&m2).unwrap();
    assert_eq!(ir.peer_payload, b"second".to_vec());
    assert_eq!(ir.handshake_hash, rr.handshake_hash);
    assert_eq!(ir.remote_static, x_pub(b_priv));
    assert_eq!(rr.remote_static, x_pub(a_priv));
}

#[test]
fn noise_handshake_with_wrong_peer_key_fails() {
    let mut init = Initiator::new(&[7u8; 32], &x_pub([9u8; 32])).unwrap();
    let mut resp = Responder::new(&[8u8; 32]).unwrap();
    let m1 = init.initiate(vec![]).unwrap();
    assert!(resp.accept(&m1).is_err());
}

#[test]
fn session_handshake_establishes_both_sides() {
    let (a, b, alice, bob) = established();
    assert!(a.is_established());
    assert!(b.is_established());
    assert!(a.connection_id().is_some());
    assert_eq!(a.connection_id(), b.connection_id());
    assert_eq!(a.peer_master_pubkey(), None);
    assert!(!a.is_initiator());
    assert_eq!(b.peer_master_pubkey(), Some(alice.master.public_key));
    assert!(a.verify_peer(&UserID::from_keypair(&bob.master)));
    assert!(b.verify_peer(&UserID::from_keypair(&alice.master)));
    assert!(!a.verify_peer(&UserID::from_keypair(&alice.master)));
    assert_eq!(b.peer_addr(), Some(PeerAddr::V4 { ip: 1, port: 2 }));
    assert_eq!(a.peer_static(), Some(x_pub(bob.x_priv)));
    assert_eq!(a.peer_certificate().unwrap().device_x25519_pubkey, bob.cert.device_x25519_pubkey);
}

#[test]
fn safety_numbers_match_on_both_sides() {
    let (a, b, alice, bob) = established();
    let sa = a.safety_number(&alice.master.public_key, &bob.master.public_key).unwrap();
    let sb = b.safety_number(&bob.master.public_key, &alice.master.public_key).unwrap();
    assert_eq!(sa, sb);
    let (c, _, _, _) = established();
    assert_eq!(c.safety_number(&alice.master.public_key, &bob.master.public_key).map(|s| s == sa), Some(false));
}

#[test]
fn messages_flow_both_ways() {
    let (mut a, mut b, alice, bob) = established();
    let m = Message { id: 5, content: "hi bob".to_string(), timestamp: 100, reply_to: None };
    let packet = a.send(&m).unwrap();
    assert_eq!(packet.payload.tag, PayloadTag::Message);
    assert_eq!(&packet.payload.data[..16], &a.connection_id().unwrap()[..]);
    let (got, sender) = b.receive(&packet).unwrap();
    assert_eq!(got.content, "hi bob");
    assert_eq!(got.id, 5);
    assert_eq!(sender, alice.master.public_key);
    let reply = Message { id: 6, content: "hi alice".to_string(), timestamp: 101, reply_to: Some(5) };
    let p2 = b.send(&reply).unwrap();
    let (got2, sender2) = a.receive(&p2).unwrap();
    assert_eq!(got2.content, "hi alice");
    assert_eq!(got2.reply_to, Some(5));
    assert_eq!(sender2, bob.master.public_key);
    assert!(b.receive(&packet).is_err());
}

#[test]
fn unestablished_session_refuses_to_send() {
    let alice = peer(1);
    let bob = peer(2);
    let mut a = Session::new_initiator(
        &alice.x_priv,
        &x_pub(bob.x_priv),
        alice.cert,
        alice.master.public_key,
        UserID::from_keypair(&bob.master),
    )
    .unwrap();
    let m = Message { id: 1, content: String::new(), timestamp: 0, reply_to: None };
    assert!(a.send(&m).is_err());
    assert!(a.safety_number(&alice.master.public_key, &bob.master.public_key).is_none());
    let mut b = Session::new_responder(&bob.x_priv, bob.cert, bob.master.public_key).unwrap();
    assert!(b.accept_handshake(&[1, 2, 3]).is_err());
    assert!(a.accept_handshake(&[1, 2, 3]).is_err());
}

#[test]
fn bytes_less_is_lexicographic() {
    let mut a = [0u8; 32];
    let mut b = [0u8; 32];
    a[3] = 1;
    b[2] = 1;
    assert!(bytes_less(&a, &b));
    assert!(!bytes_less(&b, &a));
    assert!(!bytes_less(&a, &a));
}

#[test]
fn events_name_their_peer() {
    let p = [4u8; 32];
    assert_eq!(Event::MessageReceived { from: p, content: "x".to_string() }.peer(), p);
    assert_eq!(Event::SessionEstablished { peer: p, safety_number: [0u8; 32] }.peer(), p);
    assert_eq!(Event::SessionFailed { peer: p, reason: String::new() }.peer(), p);
    assert_eq!(Event::ContactFound { peer: p }.peer(), p);
    assert_eq!(Event::ContactFailed { peer: p, reason: String::new() }.peer(), p);
    assert_eq!(Event::DeviceListUpdated { peer: p }.peer(), p);
}

fn table_pair() -> (SessionTable, SessionTable, Peer, Peer, [u8; 16]) {
    let alice = peer(1);
    let bob = peer(2);
    let mut ta = SessionTable::new();
    let mut tb = SessionTable::new();
    let tag = [9u8; 16];
    let got = ta
        .enable_session_initiator(
            &alice.x_priv,
            &x_pub(bob.x_priv),
            alice.cert,
            Some(alice.master.public_key),
            UserID::from_keypair(&bob.master),
            tag,
        )
        .unwrap();
    assert_eq!(got, tag);
    let (hello, to) = ta.start_handshake(&tag, PeerAddr::V4 { ip: 7, port: 7 }).unwrap();
    assert_eq!(to, bob.master.public_key);
    assert_eq!(&hello[..16], &tag[..]);
    let fresh = Session::new_responder(&bob.x_priv, bob.cert, bob.master.public_key).unwrap();
    let rb = tb.on_handshake(&hello, Some(fresh));
    let (answer, back_to) = rb.reply.unwrap();
    assert_eq!(back_to, alice.master.public_key);
    assert_eq!(&answer[..16], &tag[..]);
    assert!(rb.peer_device_key.is_some());
    let ra = ta.on_handshake(&answer, None);
    assert!(ra.reply.is_none());
    assert_eq!(ra.peer_device_key, Some(bob.cert.device_ed25519_pubkey));
    assert_eq!(ra.established, rb.established);
    (ta, tb, alice, bob, ra.established.unwrap())
}

#[test]
fn session_tables_carry_messages_between_peers() {
    let (mut ta, mut tb, alice, bob, conn) = table_pair();
    assert!(ta.session_established(&conn));
    assert!(tb.session_established(&conn));
    assert_eq!(ta.first_active_conn_id(), Some(conn));
    assert_eq!(ta.peer_of(&conn), Some(bob.master.public_key));
    assert_eq!(tb.peer_of(&conn), Some(alice.master.public_key));
    let m = Message { id: 1, content: "over the table".to_string(), timestamp: 3, reply_to: None };
    let p = ta.send_message(&m, &bob.master.public_key).unwrap();
    let (got, from) = tb.on_message(&p).unwrap();
    assert_eq!(got.content, "over the table");
    assert_eq!(from, alice.master.public_key);
    let p2 = tb.send_message(&m, &alice.master.public_key).unwrap();
    assert!(ta.on_message(&p2).is_some());
    assert!(ta.send_message(&m, &[5u8; 32]).is_err());
    let sa = ta.peer_safety_number(&alice.master.public_key, &bob.master.public_key).unwrap();
    let sb = tb.peer_safety_number(&bob.master.public_key, &alice.master.public_key).unwrap();
    assert_eq!(sa, sb);
}

#[test]
fn session_table_ignores_unknown_and_short_handshakes() {
    let mut t = SessionTable::new();
    let r = t.on_handshake(&[1u8; 10], None);
    assert!(r.reply.is_none() && r.established.is_none() && r.peer_device_key.is_none());
    let r2 = t.on_handshake(&[1u8; 40], None);
    assert!(r2.established.is_none());
    assert!(t.first_active_conn_id().is_none());
    assert!(t.start_handshake(&[1u8; 16], PeerAddr::V4 { ip: 1, port: 1 }).is_err());
    let bob = peer(2);
    let fresh = Session::new_responder(&bob.x_priv, bob.cert, bob.master.public_key).unwrap();
    let r3 = t.on_handshake(&[1u8; 40], Some(fresh));
    assert!(r3.established.is_none());
    let alice = peer(1);
    assert!(t
        .enable_session_initiator(&alice.x_priv, &x_pub(bob.x_priv), alice.cert, None, UserID::from_keypair(&bob.master), [2u8; 16])
        .is_err());
}

#[test]
fn messages_for_unknown_connections_are_dropped() {
    let (_, mut tb, _, _, _) = table_pair();
    let packet = insub::protocol::packet::Packet::new(0, 1, insub::protocol::payload::Payload::new(PayloadTag::Message, vec![0u8; 80]));
    assert!(tb.on_message(&packet).is_none());
}

#[test]
fn accept_offer_takes_the_offer_parts() {
    let alice = peer(1);
    let bob = peer(2);
    let mut b = Session::new_responder(&bob.x_priv, bob.cert, bob.master.public_key).unwrap();
    let addr = PeerAddr::V4 { ip: 0x7f000001, port: 9000 };
    let offer = handshake_offer(&[5u8; 32], &alice.cert, &alice.master.public_key, &addr);
    assert!(b.accept_offer(&offer).is_ok());
    assert_eq!(b.peer_master_pubkey(), Some(alice.master.public_key));
    assert_eq!(b.peer_addr(), Some(addr));
    assert!(b.peer_certificate().is_some());
    assert!(b.reply_ready());
}

#[test]
fn accept_offer_refuses_a_short_payload() {
    let bob = peer(2);
    let mut b = Session::new_responder(&bob.x_priv, bob.cert, bob.master.public_key).unwrap();
    assert!(b.accept_offer(&[0u8; 40]).is_err());
    assert_eq!(b.peer_master_pubkey(), None);
    assert_eq!(b.peer_addr(), None);
    assert!(!b.reply_ready());
}

#[test]
fn finish_with_refuses_in_order() {
    let alice = peer(1);
    let bob = peer(2);
    let fresh = || {
        Session::new_initiator(&alice.x_priv, &x_pub(bob.x_priv), alice.cert, alice.master.public_key, UserID::from_keypair(&bob.master))
            .unwrap()
    };
    let mut a = fresh();
    assert_eq!(a.finish_with([1u8; 32], [2u8; 32], &[0u8; 40]), Err("handshake payload too short for certificate".to_string()));
    assert!(!a.is_initiator());
    assert!(!a.is_established());
    let mut payload = vec![5u8; 32];
    payload.extend_from_slice(&bob.cert.serialize());
    let mut b = fresh();
    assert_eq!(b.finish_with([1u8; 32], [2u8; 32], &payload), Err("peer certificate x25519 key doesn't match handshake".to_string()));
    let mut c = fresh();
    assert_eq!(c.finish_with([1u8; 32], x_pub(bob.x_priv), &payload), Err("ratchet key not set".to_string()));
    let carol = peer(3);
    let mut forged = vec![5u8; 32];
    forged.extend_from_slice(&carol.cert.serialize());
    let mut d = fresh();
    assert_eq!(d.finish_with([1u8; 32], x_pub(carol.x_priv), &forged), Err("peer device certificate signature invalid".to_string()));
}

#[test]
fn reply_with_needs_the_certified_key() {
    let bob = peer(2);
    let mut b = Session::new_responder(&bob.x_priv, bob.cert, bob.master.public_key).unwrap();
    assert_eq!(b.reply_with([1u8; 32], [2u8; 32]), Err("peer certificate not set".to_string()));
    assert!(b.connection_id().is_none());
}

#[test]
fn enable_session_initiator_succeeds_with_a_master_key() {
    let alice = peer(1);
    let bob = peer(2);
    let mut t = SessionTable::new();
    let r = t.enable_session_initiator(&alice.x_priv, &x_pub(bob.x_priv), alice.cert, Some(alice.master.public_key), UserID::from_keypair(&bob.master), [4u8; 16]);
    assert_eq!(r, Ok([4u8; 16]));
}
