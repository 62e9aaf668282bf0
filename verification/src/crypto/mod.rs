pub mod argon;
pub mod cipher;
pub mod dh;
pub mod exchange;
pub mod handshake;
pub mod hkdf;
pub mod labels;
pub mod mnemonic;
pub mod random;
pub mod ratchet;
pub mod sha;
pub mod sign;
pub mod wipe;
