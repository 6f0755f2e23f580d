//! A terminal chess game: the rules engine, the wire protocol between client
//! and server, and the state machines behind the user interface.
pub mod board;
pub mod model;
pub mod text;
pub mod api;
pub mod simple;

pub use board::MoveList;
pub use simple::Board;
pub mod menu;
pub mod game;
pub mod multiplayer;
pub mod server;
pub mod properties;
pub mod diagram;
pub mod attacks;
