pub mod command_handler;
pub mod connection_handler;
pub mod game_handler;
pub mod timeout_handler;
