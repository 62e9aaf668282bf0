use chacha20poly1305::aead::{Aead, KeyInit};
use insub::api::{join_retry_delay, list_for_device, list_with_device, list_without_device, JOIN_ATTEMPTS};
use chacha20poly1305::ChaCha20Poly1305;
use ed25519_dalek::{Signature, SigningKey, Verifier};
use hkdf::Hkdf;
use insub::crypto::argon::{decrypt_with_password, encrypt_with_password};
use insub::crypto::cipher::{decrypt, encrypt};
use insub::crypto::exchange::{EphemeralExchangeKeyPair, StaticExchangeKeyPair};
use insub::crypto::hkdf::{derive_key, hkdf_32};
use insub::crypto::ratchet::{Chain, DoubleRatchet};
use insub::dht::record::contact::ContactRecord;
use insub::identity::certificates::DeviceCertificate;
use insub::identity::devices::{DeviceList, MAX_DEVICES};
use insub::identity::identity::{MasterKeyPair, UserID};
use insub::identity::keychain::Keychain;
use insub::network::addr::PeerAddr;
use insub::runtime::{contact_from_value, contact_value};
use sha2::Sha256;
use x25519_dalek::{PublicKey, StaticSecret};

fn ed(seed: u8) -> [u8; 32] {
    SigningKey::from_bytes(&[seed; 32]).verifying_key().to_bytes()
}

fn x_pub(secret: [u8; 32]) -> [u8; 32] {
    PublicKey::from(&StaticSecret::from(secret)).to_bytes()
}

#[test]
fn cipher_roundtrip_matches_chacha20poly1305() {
    let key = [9u8; 32];
    let (c, nonce) = encrypt(b"secret text", &key).unwrap();
    assert_eq!(c.len(), 11 + 16);
    let plain = ChaCha20Poly1305::new(&key.into()).decrypt(&nonce.into(), c.as_slice()).unwrap();
    assert_eq!(plain, b"secret text".to_vec());
    assert_eq!(decrypt(&c, &nonce, &key).unwrap(), b"secret text".to_vec());
}

#[test]
fn cipher_rejects_wrong_key_and_tampering() {
    let key = [9u8; 32];
    let (mut c, nonce) = encrypt(b"abc", &key).unwrap();
    assert!(decrypt(&c, &nonce, &[8u8; 32]).is_err());
    c[0] ^= 1;
    assert!(decrypt(&c, &nonce, &key).is_err());
    assert!(decrypt(&[1u8, 2, 3], &nonce, &key).is_err());
}

#[test]
fn password_encryption_roundtrip() {
    let out = encrypt_with_password(b"payload", b"hunter2").unwrap();
    assert_eq!(out.len(), 7 + 60);
    assert_eq!(decrypt_with_password(&out, b"hunter2").unwrap(), b"payload".to_vec());
    assert!(decrypt_with_password(&out, b"hunter3").is_err());
    assert!(decrypt_with_password(&out[..59], b"hunter2").is_err());
}

#[test]
fn hkdf_matches_reference() {
    let ikm = [1u8, 2, 3, 4];
    let mut expected = [0u8; 32];
    Hkdf::<Sha256>::new(None, &ikm).expand(b"info", &mut expected).unwrap();
    assert_eq!(derive_key(&ikm, None, b"info").unwrap(), expected);
    let mut salted = [0u8; 32];
    Hkdf::<Sha256>::new(Some(b"salt"), &ikm).expand(b"info", &mut salted).unwrap();
    assert_eq!(hkdf_32(Some(b"salt"), &ikm, b"info"), salted);
    assert_ne!(salted, expected);
}

#[test]
fn static_key_pairs_agree() {
    let mut a = StaticExchangeKeyPair::new();
    let mut b = StaticExchangeKeyPair::new();
    let a_pub = a.public_key;
    let b_pub = b.public_key;
    assert!(a.compute_shared_secret(&b_pub).is_ok());
    assert!(b.compute_shared_secret(&a_pub).is_ok());
    assert_eq!(a.shared_secret, b.shared_secret);
    assert!(a.shared_secret.is_some());
    assert!(a.compute_shared_secret(&b_pub).is_ok());
    assert_eq!(a.shared_secret, b.shared_secret);
}

#[test]
fn ephemeral_key_pair_is_used_once() {
    let mut e = EphemeralExchangeKeyPair::new();
    let mut s = StaticExchangeKeyPair::new();
    let s_pub = s.public_key;
    let e_pub = e.public_key;
    assert!(e.compute_shared_secret(&s_pub).is_ok());
    s.compute_shared_secret(&e_pub).unwrap();
    assert_eq!(e.shared_secret, s.shared_secret);
    assert!(e.compute_shared_secret(&s_pub).is_err());
    assert_eq!(e.shared_secret, s.shared_secret);
}

#[test]
fn chain_advances_and_keeps_skipped_keys() {
    let mut c = Chain::fresh([5u8; 32]);
    let (n1, k1) = c.advance().unwrap();
    assert_eq!(n1, 1);
    let mut c2 = Chain::fresh([5u8; 32]);
    let k3 = c2.skip_to(3).unwrap();
    assert_eq!(c2.message_number, 3);
    assert_eq!(c2.skipped_keys.len(), 2);
    assert_eq!(c2.try_skipped(1), Some(k1));
    assert_eq!(c2.try_skipped(1), None);
    let (_, k2) = c.advance().unwrap();
    assert_eq!(c2.try_skipped(2), Some(k2));
    let (_, k3b) = c.advance().unwrap();
    assert_eq!(k3, k3b);
    assert_eq!(c.key, c2.key);
    assert_eq!(c2.skip_to(2).unwrap(), [0u8; 32]);
    assert_eq!(c2.message_number, 3);
}

fn ratchet_pair() -> (DoubleRatchet, DoubleRatchet) {
    let a_priv = [11u8; 32];
    let b_priv = [22u8; 32];
    let ss = [33u8; 32];
    let alice = DoubleRatchet::new(ss, a_priv, x_pub(b_priv));
    let bob = DoubleRatchet::new(ss, b_priv, x_pub(a_priv));
    (alice, bob)
}

#[test]
fn ratchet_messages_arrive_in_any_order() {
    let (mut alice, mut bob) = ratchet_pair();
    let (n1, c1, nonce1, pk1) = alice.encrypt(b"one").unwrap();
    let (n2, c2, nonce2, pk2) = alice.encrypt(b"two").unwrap();
    let (n3, c3, nonce3, pk3) = alice.encrypt(b"three").unwrap();
    assert_eq!((n1, n2, n3), (1, 2, 3));
    assert_eq!(pk1, x_pub([11u8; 32]));
    assert_eq!(bob.decrypt(n3, pk3, &nonce3, &c3).unwrap(), b"three".to_vec());
    assert_eq!(bob.decrypt(n1, pk1, &nonce1, &c1).unwrap(), b"one".to_vec());
    assert_eq!(bob.decrypt(n2, pk2, &nonce2, &c2).unwrap(), b"two".to_vec());
    assert!(bob.decrypt(n2, pk2, &nonce2, &c2).is_err());
}

#[test]
fn ratchet_steps_on_new_key_in_both_directions() {
    let (mut alice, mut bob) = ratchet_pair();
    let (n, c, nonce, pk) = alice.encrypt(b"hello bob").unwrap();
    assert_eq!(bob.decrypt(n, pk, &nonce, &c).unwrap(), b"hello bob".to_vec());
    alice.initiator_pre_ratchet();
    let (n, c, nonce, pk) = alice.encrypt(b"after step").unwrap();
    assert_ne!(pk, x_pub([11u8; 32]));
    assert_eq!(n, 1);
    assert_eq!(bob.decrypt(n, pk, &nonce, &c).unwrap(), b"after step".to_vec());
    let (n, c, nonce, pk) = bob.encrypt(b"reply").unwrap();
    assert_eq!(alice.decrypt(n, pk, &nonce, &c).unwrap(), b"reply".to_vec());
}

#[test]
fn ratchet_rejects_tampered_ciphertext() {
    let (mut alice, mut bob) = ratchet_pair();
    let (n, mut c, nonce, pk) = alice.encrypt(b"x").unwrap();
    c[0] ^= 0x80;
    assert!(bob.decrypt(n, pk, &nonce, &c).is_err());
}

#[test]
fn master_key_signs_like_ed25519() {
    let kp = MasterKeyPair::from_signing_key_bytes(&[1u8; 32]);
    let sk = SigningKey::from_bytes(&[1u8; 32]);
    assert_eq!(kp.public_key, sk.verifying_key().to_bytes());
    assert_eq!(kp.to_bytes(), [1u8; 32]);
    let sig = kp.sign(b"msg");
    assert!(sk.verifying_key().verify(b"msg", &Signature::from_bytes(&sig)).is_ok());
    let id = UserID { public_key: kp.public_key };
    assert!(id.verify(b"msg", &sig));
    assert!(!id.verify(b"other", &sig));
    let other = MasterKeyPair::from_signing_key_bytes(&[2u8; 32]);
    assert!(!UserID::from_keypair(&other).verify(b"msg", &sig));
}

#[test]
fn master_key_from_mnemonic_expands_the_seed() {
    let words = "abandon abandon abandon abandon abandon abandon abandon abandon abandon abandon abandon about";
    let m = bip39::Mnemonic::parse_normalized(words).unwrap();
    let kp = MasterKeyPair::from_mnemonic(words, Some("TREZOR")).unwrap();
    let seed = m.to_seed("TREZOR");
    assert_eq!(&seed[..4], &[0xc5u8, 0x52, 0x57, 0xc3][..]);
    let mut expected = [0u8; 32];
    Hkdf::<Sha256>::new(None, &seed).expand(b"insub-master-ed25519-v1", &mut expected).unwrap();
    assert_eq!(kp.to_bytes(), expected);
    assert_eq!(kp.public_key, SigningKey::from_bytes(&expected).verifying_key().to_bytes());
    let plain = MasterKeyPair::from_mnemonic(words, None).unwrap();
    let mut expected_plain = [0u8; 32];
    Hkdf::<Sha256>::new(None, &m.to_seed("")).expand(b"insub-master-ed25519-v1", &mut expected_plain).unwrap();
    assert_eq!(plain.to_bytes(), expected_plain);
    let from_seed = MasterKeyPair::from_seed(&seed);
    assert_eq!(from_seed.public_key, kp.public_key);
}

#[test]
fn new_master_key_comes_with_its_mnemonic() {
    let (kp, m) = MasterKeyPair::new();
    assert_eq!(m.split(' ').count(), 24);
    assert_eq!(bip39::Mnemonic::parse(m.as_str()).unwrap().word_count(), 24);
    assert_eq!(MasterKeyPair::from_mnemonic(&m, None).unwrap().public_key, kp.public_key);
}

#[test]
fn certificates_verify_against_their_master_only() {
    let master = MasterKeyPair::from_signing_key_bytes(&[3u8; 32]);
    let cert = DeviceCertificate::new(&master, ed(4), [5u8; 32]);
    assert!(cert.verify(&UserID::from_keypair(&master)));
    let other = MasterKeyPair::from_signing_key_bytes(&[6u8; 32]);
    assert!(!cert.verify(&UserID::from_keypair(&other)));
    let bytes = cert.serialize();
    assert_eq!(bytes.len(), 128);
    assert_eq!(&bytes[..32], &ed(4)[..]);
    let back = DeviceCertificate::from_serialized(bytes).unwrap();
    assert_eq!(back.device_x25519_pubkey, [5u8; 32]);
    assert_eq!(back.master_signature, cert.master_signature);
    let mut forged = cert;
    forged.device_x25519_pubkey = [7u8; 32];
    assert!(!forged.verify(&UserID::from_keypair(&master)));
}

#[test]
fn device_list_add_remove_and_resign() {
    let master = MasterKeyPair::from_signing_key_bytes(&[3u8; 32]);
    let id = UserID::from_keypair(&master);
    let mut list = DeviceList::new(&master);
    assert_eq!(list.sequence, 0);
    assert!(list.verify(&id));
    for i in 0..MAX_DEVICES {
        let cert = DeviceCertificate::new(&master, ed(i as u8 + 10), [i as u8; 32]);
        assert!(list.add_device(&master, cert).is_ok());
    }
    assert_eq!(list.sequence, MAX_DEVICES as u64);
    assert!(list.verify(&id));
    let extra = DeviceCertificate::new(&master, ed(99), [99u8; 32]);
    assert!(list.add_device(&master, extra).is_err());
    assert_eq!(list.devices.len(), MAX_DEVICES);
    assert!(list.contains_active(&ed(11)));
    assert!(list.remove_device(&master, &ed(11)).is_ok());
    assert!(!list.contains_active(&ed(11)));
    assert_eq!(list.devices[1].device_ed25519_pubkey, ed(14));
    assert_eq!(list.sequence, MAX_DEVICES as u64 + 1);
    assert!(list.verify(&id));
    assert!(list.remove_device(&master, &ed(11)).is_err());
    assert_eq!(list.sequence, MAX_DEVICES as u64 + 1);
}

#[test]
fn device_list_wire_roundtrip() {
    let master = MasterKeyPair::from_signing_key_bytes(&[3u8; 32]);
    let mut list = DeviceList::new(&master);
    list.add_device(&master, DeviceCertificate::new(&master, ed(1), [2u8; 32])).unwrap();
    let bytes = list.serialize();
    assert_eq!(bytes.len(), 72 + 128);
    let back = DeviceList::from_serialized(bytes.clone()).unwrap();
    assert_eq!(back.serialize(), bytes);
    assert!(back.verify(&UserID::from_keypair(&master)));
    assert!(DeviceList::from_serialized(bytes[..71].to_vec()).is_err());
    assert!(DeviceList::from_serialized(bytes[..100].to_vec()).is_err());
}

#[test]
fn contact_record_roundtrip() {
    let master = MasterKeyPair::from_signing_key_bytes(&[3u8; 32]);
    let mut list = DeviceList::new(&master);
    list.add_device(&master, DeviceCertificate::new(&master, ed(1), [2u8; 32])).unwrap();
    let relay = PeerAddr::V4 { ip: 0x01020304, port: 5000 };
    let rec = ContactRecord::new(list, relay, 77);
    let bytes = rec.serialize();
    assert_eq!(bytes.len(), 2 + 200 + 7 + 16);
    assert_eq!(&bytes[..2], &[0u8, 200][..]);
    let back = ContactRecord::from_serialized(bytes.clone()).unwrap();
    assert_eq!(back.relay_addr, relay);
    assert_eq!(back.relay_id, 77);
    assert_eq!(back.serialize(), bytes);
    assert!(ContactRecord::from_serialized(bytes[..150].to_vec()).is_err());
}

#[test]
fn keychain_roundtrip_with_and_without_password() {
    let seed = [42u8; 64];
    let kc = Keychain::from_seed(&seed, true);
    assert!(kc.has_password);
    assert_eq!(kc.device_x25519_pub, x_pub(kc.device_x25519_priv));
    assert_eq!(
        SigningKey::from_bytes(&kc.device_ed25519_priv).verifying_key().to_bytes(),
        kc.device_ed25519_pub
    );
    let locked = kc.serialize(Some("pw"));
    assert_eq!(locked[0], 1);
    let back = Keychain::from_serialized(&locked, Some("pw")).unwrap();
    assert_eq!(back.device_ed25519_priv, kc.device_ed25519_priv);
    assert_eq!(back.device_x25519_priv, kc.device_x25519_priv);
    assert!(back.has_password);
    assert!(Keychain::from_serialized(&locked, Some("wrong")).is_err());

    let open = Keychain::from_seed(&seed, false).serialize(None);
    assert_eq!(open.len(), 65);
    assert_eq!(open[0], 0);
    let back2 = Keychain::from_serialized(&open, None).unwrap();
    assert_eq!(back2.device_ed25519_pub, kc.device_ed25519_pub);
    assert!(!back2.has_password);
    assert!(Keychain::from_serialized(&[], None).is_err());
}

#[test]
fn keychain_from_seed_uses_labelled_hkdf() {
    let seed = [42u8; 64];
    let kc = Keychain::from_seed(&seed, false);
    let mut ed = [0u8; 32];
    Hkdf::<Sha256>::new(None, &seed).expand(b"keychain-ed25519", &mut ed).unwrap();
    let mut x = [0u8; 32];
    Hkdf::<Sha256>::new(None, &seed).expand(b"keychain-x25519", &mut x).unwrap();
    assert_eq!(kc.device_ed25519_priv, ed);
    assert_eq!(kc.device_x25519_priv, x);
}

#[test]
fn contact_values_roundtrip_through_records() {
    let master = MasterKeyPair::from_signing_key_bytes(&[3u8; 32]);
    let mut list = DeviceList::new(&master);
    list.add_device(&master, DeviceCertificate::new(&master, ed(1), [2u8; 32])).unwrap();
    let relay = PeerAddr::V6 { ip: 42, port: 4242 };
    let value = contact_value(list, relay, 99);
    assert_eq!(value[0], 1);
    assert!(!ContactRecord::list_fills(&value[1..]));
    let c = contact_from_value(value.clone()).unwrap();
    assert_eq!(c.relay_addr, relay);
    assert_eq!(c.relay_id, 99);
    assert!(c.device_list.verify(&UserID::from_keypair(&master)));
    assert!(contact_from_value(vec![2u8, 0, 0]).is_err());
    let list_only = c.device_list.serialize();
    let mut filled = vec![(list_only.len() >> 8) as u8, list_only.len() as u8];
    filled.extend_from_slice(&list_only);
    assert!(ContactRecord::list_fills(&filled));
}

#[test]
fn text_cipher_derives_key_from_secret() {
    let secret = [12u8; 32];
    let (c, nonce) = insub::cipher::encrypt("plain text", &secret).unwrap();
    let mut key = [0u8; 32];
    Hkdf::<Sha256>::new(Some(b"cipher-salt"), &secret).expand(b"encryption-key", &mut key).unwrap();
    let plain = ChaCha20Poly1305::new(&key.into()).decrypt(&nonce.into(), c.as_slice()).unwrap();
    assert_eq!(plain, b"plain text".to_vec());
    assert_eq!(insub::cipher::decrypt(&c, &nonce, &secret).unwrap(), "plain text");
    assert!(insub::cipher::decrypt(&c, &nonce, &[13u8; 32]).is_err());
    let bad = ChaCha20Poly1305::new(&key.into()).encrypt(&nonce.into(), &[0xffu8, 0xfe][..]).unwrap();
    assert!(insub::cipher::decrypt(&bad, &nonce, &secret).is_err());
}

#[test]
fn sealed_messages_open_for_their_recipient_once() {
    let sender = MasterKeyPair::from_signing_key_bytes(&[1u8; 32]);
    let mut eph = EphemeralExchangeKeyPair::new();
    let mut recipient = EphemeralExchangeKeyPair::new();
    let rpub = recipient.public_key;
    let m = insub::message::Message::new(&sender, &mut eph, &rpub, "sealed hello").unwrap();
    assert_eq!(m.sender_identity, sender.public_key);
    assert_eq!(m.exchange_key, eph.public_key);
    assert!(insub::message::Message::new(&sender, &mut eph, &rpub, "again").is_err());
    let impostor = MasterKeyPair::from_signing_key_bytes(&[2u8; 32]);
    assert_eq!(m.open(&mut recipient, &UserID::from_keypair(&impostor)), Err("The signature does not match"));
    assert_eq!(m.open(&mut recipient, &UserID::from_keypair(&sender)).unwrap(), "sealed hello");
    assert!(m.open(&mut recipient, &UserID::from_keypair(&sender)).is_err());
}

#[test]
fn node_ids_print_as_hex() {
    let id = insub::dht::node_id::NodeID { id: [0xabu8; 32] };
    assert_eq!(id.to_hex(), "ab".repeat(32));
    let op = insub::dht::protocol::DhtOperation::FindValue { sender_id: id, key: [0u8; 32] };
    assert_eq!(op.tag(), 7);
    assert_eq!(op.serialize()[0], 7);
}

#[test]
fn device_list_updates_start_from_published_list() {
    let master = MasterKeyPair::from_signing_key_bytes(&[3u8; 32]);
    let ours = DeviceList::new(&master);
    let mut published = DeviceList::new(&master);
    published.add_device(&master, DeviceCertificate::new(&master, ed(1), [1u8; 32])).unwrap();
    let cert = DeviceCertificate::new(&master, ed(2), [2u8; 32]);
    let l = list_with_device(Some(published.clone()), &ours, &master, cert).unwrap();
    assert_eq!(l.sequence, 3);
    assert_eq!(l.devices.len(), 2);
    assert_eq!(l.devices[1].device_ed25519_pubkey, ed(2));
    let again = list_with_device(Some(l.clone()), &ours, &master, cert).unwrap();
    assert_eq!(again.sequence, 4);
    assert_eq!(again.devices.len(), 2);
    let from_ours = list_with_device(None, &ours, &master, cert).unwrap();
    assert_eq!(from_ours.sequence, 2);
    assert_eq!(from_ours.devices.len(), 1);
    let gone = list_without_device(Some(l.clone()), &ours, &master, 0).unwrap();
    assert_eq!(gone.sequence, 5);
    assert_eq!(gone.devices.len(), 1);
    assert_eq!(gone.devices[0].device_ed25519_pubkey, ed(2));
    assert!(list_without_device(Some(l), &ours, &master, 2).is_err());
}

#[test]
fn full_device_list_takes_no_more() {
    let master = MasterKeyPair::from_signing_key_bytes(&[3u8; 32]);
    let mut full = DeviceList::new(&master);
    for i in 0..MAX_DEVICES {
        full.add_device(&master, DeviceCertificate::new(&master, ed(20 + i as u8), [0u8; 32])).unwrap();
    }
    let extra = DeviceCertificate::new(&master, ed(40), [0u8; 32]);
    assert!(list_with_device(None, &full, &master, extra).is_err());
}

#[test]
fn user_id_from_key_pair_carries_public_key() {
    let master = MasterKeyPair::from_signing_key_bytes(&[9u8; 32]);
    let id = UserID::from(&master);
    assert_eq!(id.public_key, master.public_key);
    assert!(id.verify(b"x", &master.sign(b"x")));
}

#[test]
fn from_mnemonic_refuses_a_phrase_outside_the_word_list() {
    assert!(MasterKeyPair::from_mnemonic("not a seed phrase at all", None).is_err());
    assert!(Keychain::from_mnemonic("not a seed phrase at all", Some("pw")).is_err());
    let bad_checksum = "abandon abandon abandon abandon abandon abandon abandon abandon abandon abandon abandon abandon";
    assert!(MasterKeyPair::from_mnemonic(bad_checksum, None).is_err());
}

#[test]
fn keychain_from_mnemonic_follows_the_passphrase() {
    let words = "abandon abandon abandon abandon abandon abandon abandon abandon abandon abandon abandon about";
    let a = Keychain::from_mnemonic(words, Some("TREZOR")).unwrap();
    let b = Keychain::from_mnemonic(words, None).unwrap();
    let seed = bip39::Mnemonic::parse(words).unwrap().to_seed("TREZOR");
    let c = Keychain::from_seed(&seed, true);
    assert_eq!(a.device_ed25519_pub, c.device_ed25519_pub);
    assert_eq!(a.device_x25519_pub, c.device_x25519_pub);
    assert!(a.has_password);
    assert!(!b.has_password);
    assert_ne!(a.device_ed25519_pub, b.device_ed25519_pub);
}

#[test]
fn generated_keychain_comes_from_its_phrase() {
    let (k, phrase) = Keychain::generate(Some("pw"));
    assert_eq!(phrase.split(' ').count(), 12);
    let again = Keychain::from_mnemonic(&phrase, Some("pw")).unwrap();
    assert_eq!(again.device_ed25519_pub, k.device_ed25519_pub);
    assert_eq!(again.device_x25519_pub, k.device_x25519_pub);
}

#[test]
fn list_for_device_adds_this_device_once() {
    let master = MasterKeyPair::from_signing_key_bytes(&[3u8; 32]);
    let cert = DeviceCertificate::new(&master, ed(4), [5u8; 32]);
    let fresh = list_for_device(None, &master, cert).unwrap();
    assert_eq!(fresh.sequence, 1);
    assert_eq!(fresh.devices.len(), 1);
    assert!(fresh.contains_active(&ed(4)));
    let same = list_for_device(Some(fresh.clone()), &master, cert).unwrap();
    assert_eq!(same.sequence, 1);
    assert_eq!(same.serialize(), fresh.serialize());
    let other = DeviceCertificate::new(&master, ed(6), [7u8; 32]);
    let two = list_for_device(Some(fresh), &master, other).unwrap();
    assert_eq!(two.sequence, 2);
    assert_eq!(two.devices.len(), 2);
}

#[test]
fn password_blob_is_salt_nonce_and_seal() {
    let out = encrypt_with_password(b"secret keys", b"pw").unwrap();
    assert_eq!(out.len(), 11 + 60);
    let mut key = [0u8; 32];
    let params = argon2::Params::new(65_536, 3, 4, Some(32)).unwrap();
    argon2::Argon2::new(argon2::Algorithm::Argon2id, argon2::Version::V0x13, params)
        .hash_password_into(b"pw", &out[..32], &mut key)
        .unwrap();
    let sealed = ChaCha20Poly1305::new(&key.into())
        .encrypt(chacha20poly1305::Nonce::from_slice(&out[32..44]), &b"secret keys"[..])
        .unwrap();
    assert_eq!(&out[44..], &sealed[..]);
}

#[test]
fn keychain_with_password_stores_125_bytes() {
    let k = Keychain::from_seed(&[9u8; 64], true);
    let stored = k.serialize(Some("pw"));
    assert_eq!(stored.len(), 125);
    assert_eq!(stored[0], 1);
    let plain = k.serialize(None);
    assert_eq!(plain.len(), 65);
}

#[test]
fn second_ephemeral_exchange_is_refused() {
    let mut kp = EphemeralExchangeKeyPair::new();
    assert!(kp.compute_shared_secret(&[9u8; 32]).is_ok());
    assert_eq!(kp.compute_shared_secret(&[9u8; 32]), Err("ephemeral secret already consumed"));
}

#[test]
fn join_is_tried_five_times_half_a_second_apart() {
    assert_eq!(JOIN_ATTEMPTS, 5);
    for a in 0..4 {
        assert_eq!(join_retry_delay(a), Some(500));
    }
    assert_eq!(join_retry_delay(4), None);
    assert_eq!(join_retry_delay(9), None);
}

#[test]
fn certificates_need_a_valid_ed25519_point() {
    let master = MasterKeyPair::from_signing_key_bytes(&[3u8; 32]);
    let good = DeviceCertificate::try_new(&master, ed(4), [5u8; 32]).unwrap();
    assert_eq!(good.serialize(), DeviceCertificate::new(&master, ed(4), [5u8; 32]).serialize());
    let mut bad = [0u8; 32];
    while ed25519_dalek::VerifyingKey::from_bytes(&bad).is_ok() {
        bad[0] += 1;
    }
    assert!(DeviceCertificate::try_new(&master, bad, [5u8; 32]).is_none());
}
