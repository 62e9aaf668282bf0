//! The relay frame, as seen by relay nodes.

pub use crate::network::relay::RelayFrame;
