pub mod client;
pub mod node;
pub mod node_id;
pub mod protocol;
pub mod record;
pub mod routing;
