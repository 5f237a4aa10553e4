//! Discrete core of a team quiz-and-fire game server: connection ids,
//! ping payloads, problem shuffling, the room that forms teams, the game
//! that runs rounds, and the lobby that routes every user to one of them.

pub mod common;
pub mod counter;
pub mod ping;
pub mod problem;
pub mod action;
pub mod room;
pub mod game;
pub mod lobby;
pub mod service;
pub mod server;
