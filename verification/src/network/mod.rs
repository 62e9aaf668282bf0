pub mod addr;
pub mod registry;
pub mod relay;
