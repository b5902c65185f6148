//! Engine for the Game of Y: two players alternately claim cells on a
//! triangular grid; the first whose connected group of cells touches all
//! three sides wins.
//!
//! The crate provides the coordinate system of the triangular board, an
//! incremental connectivity tracker (union-find over cells plus three
//! virtual side anchors), the game state machine, move-choosing bots
//! (random, heuristic, Monte-Carlo playouts), a bot registry, the compact
//! exchange form of a game, and the pure cores of the command-line and
//! HTTP front ends.

pub mod bot;
pub mod bot_server;
pub mod cli;
pub mod connectivity;
pub mod coords;
pub mod game;
pub mod game_server;
mod rng;
pub mod text;
pub mod winning;
pub mod yen;
