//! Actor identities and the tiles that make up the board.
use vstd::prelude::*;

verus! {

/// Tile state: nobody and nothing on the cell.
pub const STATE_EMPTY: u8 = 0;

/// Tile state: a player occupies the cell.
pub const STATE_PLAYER: u8 = 1;

/// Tile state: a chest lies on the cell.
pub const STATE_CHEST: u8 = 2;

/// Identity of an actor: a 32-byte public key held as four 64-bit words.
#[derive(Clone, Copy, Debug, PartialEq, Eq, Structural)]
pub struct Pubkey {
    pub w0: u64,
    pub w1: u64,
    pub w2: u64,
    pub w3: u64,
}

impl Pubkey {
    /// The all-zero key, which an empty tile carries.
    pub open spec fn zero_spec() -> Pubkey {
        Pubkey { w0: 0, w1: 0, w2: 0, w3: 0 }
    }

    pub fn zero() -> (k: Pubkey)
        ensures
            k == Pubkey::zero_spec(),
    {
        Pubkey { w0: 0, w1: 0, w2: 0, w3: 0 }
    }
}

/// One cell of the board. Which fields mean something depends on `state`;
/// an empty tile carries the all-zero payload.
#[derive(Clone, Copy, Debug, PartialEq, Eq, Structural)]
pub struct Tile {
    pub player: Pubkey,
    pub state: u8,
    pub health: u16,
    pub collect_reward: u64,
    pub avatar: Pubkey,
    pub kills: u8,
    pub look_direction: u8,
}

impl Tile {
    /// The zeroed empty tile.
    pub open spec fn empty_spec() -> Tile {
        Tile {
            player: Pubkey::zero_spec(),
            state: STATE_EMPTY,
            health: 0,
            collect_reward: 0,
            avatar: Pubkey::zero_spec(),
            kills: 0,
            look_direction: 0,
        }
    }

    pub fn empty() -> (t: Tile)
        ensures
            t == Tile::empty_spec(),
    {
        Tile {
            player: Pubkey::zero(),
            state: STATE_EMPTY,
            health: 0,
            collect_reward: 0,
            avatar: Pubkey::zero(),
            kills: 0,
            look_direction: 0,
        }
    }

    /// A tile occupied by the player `id`.
    pub open spec fn is_player_of(self, id: Pubkey) -> bool {
        self.state == STATE_PLAYER && self.player == id
    }
}

impl Default for Tile {
    fn default() -> (t: Tile)
        ensures
            t == Tile::empty_spec(),
    {
        Tile::empty()
    }
}

} // verus!
