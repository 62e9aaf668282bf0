//! Peer-to-peer messaging core: wire formats, identities, key agreement,
//! ratcheting encryption, a Kademlia-style DHT and relay bookkeeping.

pub mod api;
pub mod assoc;
pub mod cipher;
pub mod cli;
pub mod clock;
pub mod crypto;
pub mod dht;
pub mod identity;
pub mod message;
pub mod network;
pub mod protocol;
pub mod relay;
pub mod runtime;
pub mod storage;
pub mod transport;
