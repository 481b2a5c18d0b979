pub mod models;
pub mod registry;
pub mod helpers;
pub mod server_messages;
pub mod encoding;
pub mod jwtoken;
pub mod handlers;
pub mod laws;
