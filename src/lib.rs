//! Game rules of a small arcade shooter: the ranked leaderboard, player
//! progression, and the decisions the engine's frame callbacks delegate here.

pub mod enemy;
pub mod item;
pub mod leaderboard;
pub mod level;
pub mod menu;
pub mod player;
