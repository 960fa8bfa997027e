//! A grid-based combat and treasure game engine: a fixed 10x10 board of
//! tiles holding players and chests, movement with wraparound, area attacks,
//! reward settlement between an escrow pool and an actor, deterministic spawn
//! placement and a bounded log of recent actions.
pub mod board;
pub mod laws;
pub mod log;
pub mod rules;
pub mod rng;
pub mod tile;

pub use board::GameDataAccount;
pub use rules::GameError;
pub use log::{GameAction, GameActionHistory};
pub use rng::XorShift64;
pub use tile::{Pubkey, Tile};
