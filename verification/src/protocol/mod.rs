pub mod wire;
pub mod payload;
pub mod packet;
pub mod message;
pub mod session;
