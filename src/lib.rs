//! A multi-armed-bandit treasure game: a fixed table of chests, a reward
//! sampler, an epsilon-greedy learning agent, and the bookkeeping that turns
//! finished episodes into persisted rows and chart-ready statistics.
//!
//! Every quantity that the game thinks of as a fraction (a chest's tilt, a
//! uniform draw, a value estimate, a learning or exploration rate) is held in
//! fixed point, as an integer count of millionths (see [`outcome::SCALE`]).

mod draw;
pub mod outcome;
pub mod text;
pub mod game;
pub mod player;
pub mod stats;
pub mod codec;
pub mod record;
pub mod session;
pub mod menu;
