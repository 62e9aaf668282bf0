pub mod certificates;
pub mod devices;
pub mod identity;
pub mod keychain;
