//! The Noise IK handshake (`Noise_IK_25519_ChaChaPoly_SHA256`), as run by
//! the `snow` crate, carrying an application payload in each direction.
//!
//! The handshake state is `snow`'s own and opaque here: what the library
//! decides is when a handshake may still move, and that a finished one is
//! used up.

use vstd::prelude::*;

verus! {

#[verifier::external_type_specification]
#[verifier::external_body]
pub struct ExHandshakeState(snow::HandshakeState);

#[verifier::external_type_specification]
#[verifier::external_body]
pub struct ExTransportState(snow::TransportState);

#[verifier::external_type_specification]
#[verifier::external_body]
pub struct ExNoiseError(snow::Error);

/// Calls `"Noise_IK_25519_ChaChaPoly_SHA256".parse()`, then
/// `snow::Builder::new(..).local_private_key(..)`, `.remote_public_key(..)`
/// and `.build_initiator()`. The builder copies the private key into a
/// 32-byte buffer and the public key into a `MAXDHLEN` (at least 56) byte
/// one, and panics on longer keys, hence the bounds. With the default
/// resolver, which resolves X25519, ChaChaPoly, SHA-256 and the OS random
/// source, the build cannot fail for keys of the DH length: that is claimed.
/// Nothing is claimed of the state itself.
#[verifier::external_body]
fn noise_initiator_state(our_static_priv: &[u8], peer_static_pub: &[u8]) -> (r: Result<snow::HandshakeState, snow::Error>)
    requires
        our_static_priv.len() <= 32,
        peer_static_pub.len() <= 56,
    ensures
        our_static_priv.len() == 32 && peer_static_pub.len() == 32 ==> r is Ok,
{
    let params: snow::params::NoiseParams = "Noise_IK_25519_ChaChaPoly_SHA256".parse()?;
    snow::Builder::new(params).local_private_key(our_static_priv)?.remote_public_key(peer_static_pub)?.build_initiator()
}

/// Calls `"Noise_IK_25519_ChaChaPoly_SHA256".parse()`, then
/// `snow::Builder::new(..).local_private_key(..)` and `.build_responder()`.
/// The builder copies the key into a 32-byte buffer and panics on a longer
/// one. With the default resolver the build cannot fail for a key of the DH
/// length: that is claimed. Nothing is claimed of the state itself.
#[verifier::external_body]
fn noise_responder_state(our_static_priv: &[u8]) -> (r: Result<snow::HandshakeState, snow::Error>)
    requires
        our_static_priv.len() <= 32,
    ensures
        our_static_priv.len() == 32 ==> r is Ok,
{
    let params: snow::params::NoiseParams = "Noise_IK_25519_ChaChaPoly_SHA256".parse()?;
    snow::Builder::new(params).local_private_key(our_static_priv)?.build_responder()
}

/// Calls `HandshakeState::write_message` with `payload` into a 1024-byte
/// buffer and returns the bytes written. Nothing is claimed of them: they
/// hold fresh ephemeral keys and ciphertext.
#[verifier::external_body]
fn noise_write(hs: &mut snow::HandshakeState, payload: &[u8]) -> Result<Vec<u8>, snow::Error> {
    let mut out = vec![0u8; 1024];
    let n = hs.write_message(payload, &mut out)?;
    out.truncate(n);
    Ok(out)
}

/// Calls `HandshakeState::read_message` into a 1024-byte buffer and returns
/// the payload read. Nothing is claimed of it: it is what the peer encrypted.
#[verifier::external_body]
fn noise_read(hs: &mut snow::HandshakeState, message: &[u8]) -> Result<Vec<u8>, snow::Error> {
    let mut payload = vec![0u8; 1024];
    let n = hs.read_message(message, &mut payload)?;
    payload.truncate(n);
    Ok(payload)
}

/// Calls `HandshakeState::get_handshake_hash`, which is 32 bytes for SHA-256.
/// Nothing is claimed of the hash.
#[verifier::external_body]
fn noise_handshake_hash(hs: &snow::HandshakeState) -> [u8; 32] {
    let mut hash = [0u8; 32];
    hash.copy_from_slice(&hs.get_handshake_hash()[..32]);
    hash
}

/// Calls `HandshakeState::into_transport_mode`. Nothing is claimed.
#[verifier::external_body]
fn noise_into_transport(hs: snow::HandshakeState) -> Result<snow::TransportState, snow::Error> {
    hs.into_transport_mode()
}

/// Calls `TransportState::get_remote_static`, as a 32-byte key. Nothing is
/// claimed of the key.
#[verifier::external_body]
fn noise_remote_static(ts: &snow::TransportState) -> Option<[u8; 32]> {
    ts.get_remote_static().and_then(|k| k.try_into().ok())
}

/// What a finished handshake leaves: the transport keys, the handshake hash,
/// the peer's authenticated static key, and the payload the peer sent.
pub struct HandshakeResult {
    pub transport: snow::TransportState,
    pub handshake_hash: [u8; 32],
    pub remote_static: [u8; 32],
    pub peer_payload: Vec<u8>,
}

/// Moves a handshake that has exchanged its messages to transport mode.
fn finish_state(hs: snow::HandshakeState, peer_payload: Vec<u8>) -> (r: Result<HandshakeResult, String>)
    ensures
        r matches Ok(res) ==> res.peer_payload@ == peer_payload@,
{
    let handshake_hash = noise_handshake_hash(&hs);
    let transport = match noise_into_transport(hs) {
        Ok(t) => t,
        Err(_) => return Err("transition to transport mode failed".to_string()),
    };
    let remote_static = match noise_remote_static(&transport) {
        Some(k) => k,
        None => return Err("remote static key not available after handshake".to_string()),
    };
    Ok(HandshakeResult { transport, handshake_hash, remote_static, peer_payload })
}

pub struct Initiator {
    handshake: Option<snow::HandshakeState>,
}

pub struct Responder {
    handshake: Option<snow::HandshakeState>,
}

impl Initiator {
    /// Whether the handshake can still move.
    pub closed spec fn in_progress(&self) -> bool {
        self.handshake is Some
    }

    /// An IK initiator that knows the peer's static key.
    pub fn new(our_static_priv: &[u8], peer_static_pub: &[u8]) -> (r: Result<Self, String>)
        requires
            our_static_priv.len() <= 32,
            peer_static_pub.len() <= 56,
        ensures
            r matches Ok(i) ==> i.in_progress(),
            our_static_priv.len() == 32 && peer_static_pub.len() == 32 ==> r is Ok,
    {
        match noise_initiator_state(our_static_priv, peer_static_pub) {
            Ok(hs) => Ok(Initiator { handshake: Some(hs) }),
            Err(_) => Err("failed to build initiator".to_string()),
        }
    }

    /// The first handshake message, carrying `payload`.
    pub fn initiate(&mut self, payload: Vec<u8>) -> (r: Result<Vec<u8>, String>)
        ensures
            final(self).in_progress() == old(self).in_progress(),
            !old(self).in_progress() ==> r is Err,
    {
        match &mut self.handshake {
            None => Err("handshake already completed".to_string()),
            Some(hs) => match noise_write(hs, payload.as_slice()) {
                Ok(m) => Ok(m),
                Err(_) => Err("handshake initiation failed".to_string()),
            },
        }
    }

    /// Reads the responder's reply and finishes; the handshake is used up
    /// whatever the outcome.
    pub fn finish(&mut self, response: &[u8]) -> (r: Result<HandshakeResult, String>)
        ensures
            !final(self).in_progress(),
            !old(self).in_progress() ==> r is Err,
    {
        let mut hs = match self.handshake.take() {
            Some(h) => h,
            None => return Err("handshake already completed".to_string()),
        };
        let peer_payload = match noise_read(&mut hs, response) {
            Ok(p) => p,
            Err(_) => return Err("handshake response failed".to_string()),
        };
        finish_state(hs, peer_payload)
    }
}

impl Responder {
    pub closed spec fn in_progress(&self) -> bool {
        self.handshake is Some
    }

    /// An IK responder: the initiator's identity is learned from its message.
    pub fn new(our_static_priv: &[u8]) -> (r: Result<Self, String>)
        requires
            our_static_priv.len() <= 32,
        ensures
            r matches Ok(i) ==> i.in_progress(),
            our_static_priv.len() == 32 ==> r is Ok,
    {
        match noise_responder_state(our_static_priv) {
            Ok(hs) => Ok(Responder { handshake: Some(hs) }),
            Err(_) => Err("failed to build responder".to_string()),
        }
    }

    /// Reads the initiator's first message; returns the payload it carries.
    pub fn accept(&mut self, incoming_message: &[u8]) -> (r: Result<Vec<u8>, String>)
        ensures
            final(self).in_progress() == old(self).in_progress(),
            !old(self).in_progress() ==> r is Err,
    {
        match &mut self.handshake {
            None => Err("handshake already completed".to_string()),
            Some(hs) => match noise_read(hs, incoming_message) {
                Ok(p) => Ok(p),
                Err(_) => Err("handshake accept failed".to_string()),
            },
        }
    }

    /// The reply message, carrying `payload`, and the finished handshake;
    /// the handshake is used up whatever the outcome.
    pub fn reply(&mut self, payload: Vec<u8>) -> (r: Result<(Vec<u8>, HandshakeResult), String>)
        ensures
            !final(self).in_progress(),
            !old(self).in_progress() ==> r is Err,
    {
        let mut hs = match self.handshake.take() {
            Some(h) => h,
            None => return Err("handshake already completed".to_string()),
        };
        let message = match noise_write(&mut hs, payload.as_slice()) {
            Ok(m) => m,
            Err(_) => return Err("handshake reply failed".to_string()),
        };
        match finish_state(hs, Vec::new()) {
            Ok(res) => Ok((message, res)),
            Err(e) => Err(e),
        }
    }
}

} // verus!
