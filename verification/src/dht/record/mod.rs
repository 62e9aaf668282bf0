pub mod record;
pub mod contact;
