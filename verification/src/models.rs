pub mod lobby;
pub mod communication;
pub mod game;
