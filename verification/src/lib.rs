//! The "15" number game: two players alternately claim distinct digits from
//! 1 to 9, and whoever first holds three digits that sum to 15 wins.
//!
//! The crate holds the game engine and the per-connection session protocol as
//! pure, verified functions. Sockets and scheduling belong to the caller.

pub mod heuristic;
pub mod input;
pub mod numbers;
pub mod player;
mod random;
pub mod selection;
pub mod session;
pub mod text;
pub mod win;
