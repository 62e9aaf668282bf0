//! Fixed context strings fed to hash functions and key derivations.

use vstd::prelude::*;

verus! {

/// The bytes of `"message-key"`.
pub open spec fn message_key_label() -> Seq<u8> {
    seq![109u8, 101, 115, 115, 97, 103, 101, 45, 107, 101, 121]
}

pub fn message_key_bytes() -> (r: [u8; 11])
    ensures
        r@ == message_key_label(),
{
    let r: [u8; 11] = [109u8, 101, 115, 115, 97, 103, 101, 45, 107, 101, 121];
    assert(r@ =~= message_key_label());
    r
}

/// The bytes of `"chain-key"`.
pub open spec fn chain_key_label() -> Seq<u8> {
    seq![99u8, 104, 97, 105, 110, 45, 107, 101, 121]
}

pub fn chain_key_bytes() -> (r: [u8; 9])
    ensures
        r@ == chain_key_label(),
{
    let r: [u8; 9] = [99u8, 104, 97, 105, 110, 45, 107, 101, 121];
    assert(r@ =~= chain_key_label());
    r
}

/// The bytes of `"init-chain"`.
pub open spec fn init_chain_label() -> Seq<u8> {
    seq![105u8, 110, 105, 116, 45, 99, 104, 97, 105, 110]
}

pub fn init_chain_bytes() -> (r: [u8; 10])
    ensures
        r@ == init_chain_label(),
{
    let r: [u8; 10] = [105u8, 110, 105, 116, 45, 99, 104, 97, 105, 110];
    assert(r@ =~= init_chain_label());
    r
}

/// The bytes of `"WhisperRatchet"`.
pub open spec fn whisper_ratchet_label() -> Seq<u8> {
    seq![87u8, 104, 105, 115, 112, 101, 114, 82, 97, 116, 99, 104, 101, 116]
}

pub fn whisper_ratchet_bytes() -> (r: [u8; 14])
    ensures
        r@ == whisper_ratchet_label(),
{
    let r: [u8; 14] = [87u8, 104, 105, 115, 112, 101, 114, 82, 97, 116, 99, 104, 101, 116];
    assert(r@ =~= whisper_ratchet_label());
    r
}

/// The bytes of `"insub-ratchet-root"`.
pub open spec fn ratchet_root_label() -> Seq<u8> {
    seq![105u8, 110, 115, 117, 98, 45, 114, 97, 116, 99, 104, 101, 116, 45, 114, 111, 111, 116]
}

pub fn ratchet_root_bytes() -> (r: [u8; 18])
    ensures
        r@ == ratchet_root_label(),
{
    let r: [u8; 18] = [105u8, 110, 115, 117, 98, 45, 114, 97, 116, 99, 104, 101, 116, 45, 114, 111, 111, 116];
    assert(r@ =~= ratchet_root_label());
    r
}

/// The bytes of `"connection-id"`.
pub open spec fn connection_id_label() -> Seq<u8> {
    seq![99u8, 111, 110, 110, 101, 99, 116, 105, 111, 110, 45, 105, 100]
}

pub fn connection_id_bytes() -> (r: [u8; 13])
    ensures
        r@ == connection_id_label(),
{
    let r: [u8; 13] = [99u8, 111, 110, 110, 101, 99, 116, 105, 111, 110, 45, 105, 100];
    assert(r@ =~= connection_id_label());
    r
}

/// The bytes of `"dht_node_id"`.
pub open spec fn dht_node_id_label() -> Seq<u8> {
    seq![100u8, 104, 116, 95, 110, 111, 100, 101, 95, 105, 100]
}

pub fn dht_node_id_bytes() -> (r: [u8; 11])
    ensures
        r@ == dht_node_id_label(),
{
    let r: [u8; 11] = [100u8, 104, 116, 95, 110, 111, 100, 101, 95, 105, 100];
    assert(r@ =~= dht_node_id_label());
    r
}

/// The bytes of `"relay_id"`.
pub open spec fn relay_id_label() -> Seq<u8> {
    seq![114u8, 101, 108, 97, 121, 95, 105, 100]
}

pub fn relay_id_bytes() -> (r: [u8; 8])
    ensures
        r@ == relay_id_label(),
{
    let r: [u8; 8] = [114u8, 101, 108, 97, 121, 95, 105, 100];
    assert(r@ =~= relay_id_label());
    r
}

/// The bytes of `"peer_id"`.
pub open spec fn peer_id_label() -> Seq<u8> {
    seq![112u8, 101, 101, 114, 95, 105, 100]
}

pub fn peer_id_bytes() -> (r: [u8; 7])
    ensures
        r@ == peer_id_label(),
{
    let r: [u8; 7] = [112u8, 101, 101, 114, 95, 105, 100];
    assert(r@ =~= peer_id_label());
    r
}

/// The bytes of `"contact"`.
pub open spec fn contact_label() -> Seq<u8> {
    seq![99u8, 111, 110, 116, 97, 99, 116]
}

pub fn contact_bytes() -> (r: [u8; 7])
    ensures
        r@ == contact_label(),
{
    let r: [u8; 7] = [99u8, 111, 110, 116, 97, 99, 116];
    assert(r@ =~= contact_label());
    r
}

/// The bytes of `"keychain-ed25519"`.
pub open spec fn keychain_ed25519_label() -> Seq<u8> {
    seq![107u8, 101, 121, 99, 104, 97, 105, 110, 45, 101, 100, 50, 53, 53, 49, 57]
}

pub fn keychain_ed25519_bytes() -> (r: [u8; 16])
    ensures
        r@ == keychain_ed25519_label(),
{
    let r: [u8; 16] = [107u8, 101, 121, 99, 104, 97, 105, 110, 45, 101, 100, 50, 53, 53, 49, 57];
    assert(r@ =~= keychain_ed25519_label());
    r
}

/// The bytes of `"keychain-x25519"`.
pub open spec fn keychain_x25519_label() -> Seq<u8> {
    seq![107u8, 101, 121, 99, 104, 97, 105, 110, 45, 120, 50, 53, 53, 49, 57]
}

pub fn keychain_x25519_bytes() -> (r: [u8; 15])
    ensures
        r@ == keychain_x25519_label(),
{
    let r: [u8; 15] = [107u8, 101, 121, 99, 104, 97, 105, 110, 45, 120, 50, 53, 53, 49, 57];
    assert(r@ =~= keychain_x25519_label());
    r
}

/// The bytes of `"insub-master-ed25519-v1"`.
pub open spec fn master_ed25519_label() -> Seq<u8> {
    seq![105u8, 110, 115, 117, 98, 45, 109, 97, 115, 116, 101, 114, 45, 101, 100, 50, 53, 53, 49, 57, 45, 118, 49]
}

pub fn master_ed25519_bytes() -> (r: [u8; 23])
    ensures
        r@ == master_ed25519_label(),
{
    let r: [u8; 23] = [105u8, 110, 115, 117, 98, 45, 109, 97, 115, 116, 101, 114, 45, 101, 100, 50, 53, 53, 49, 57, 45, 118, 49];
    assert(r@ =~= master_ed25519_label());
    r
}

/// The bytes of `"encryption-key"`.
pub open spec fn encryption_key_label() -> Seq<u8> {
    seq![101u8, 110, 99, 114, 121, 112, 116, 105, 111, 110, 45, 107, 101, 121]
}

pub fn encryption_key_bytes() -> (r: [u8; 14])
    ensures
        r@ == encryption_key_label(),
{
    let r: [u8; 14] = [101u8, 110, 99, 114, 121, 112, 116, 105, 111, 110, 45, 107, 101, 121];
    assert(r@ =~= encryption_key_label());
    r
}

/// The bytes of `"cipher-salt"`.
pub open spec fn cipher_salt_label() -> Seq<u8> {
    seq![99u8, 105, 112, 104, 101, 114, 45, 115, 97, 108, 116]
}

pub fn cipher_salt_bytes() -> (r: [u8; 11])
    ensures
        r@ == cipher_salt_label(),
{
    let r: [u8; 11] = [99u8, 105, 112, 104, 101, 114, 45, 115, 97, 108, 116];
    assert(r@ =~= cipher_salt_label());
    r
}

} // verus!
