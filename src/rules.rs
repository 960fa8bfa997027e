//! The rules of the game over the board's cells, as spec functions: where an
//! actor stands, where a spawn lands, and what a move or an attack does.
use crate::log::GameAction;
use crate::rng::xorshift_step;
use crate::tile::{Pubkey, Tile, STATE_CHEST, STATE_EMPTY, STATE_PLAYER};
use vstd::prelude::*;

verus! {

/// Number of columns (the first coordinate).
pub const BOARD_SIZE_X: usize = 10;

/// Number of rows (the second coordinate).
pub const BOARD_SIZE_Y: usize = 10;

/// Number of cells; cell (x, y) is stored at index `x * BOARD_SIZE_Y + y`.
pub const BOARD_CELLS: usize = 100;

/// Damage that an attack deals to each neighbour it reaches.
pub const ATTACK_DAMAGE: u16 = 50;

/// Damage written into the log entry of an attack.
pub const LOGGED_DAMAGE: u64 = 5;

/// Action type of an attack in the log.
pub const ACTION_ATTACK: u8 = 0;

pub const DIR_UP: u8 = 0;

pub const DIR_RIGHT: u8 = 1;

pub const DIR_DOWN: u8 = 2;

pub const DIR_LEFT: u8 = 3;

/// Why an operation was refused. A refused operation changes nothing.
#[derive(Clone, Copy, Debug, PartialEq, Eq, Structural)]
pub enum GameError {
    /// The actor has no player tile on the board.
    ActorNotOnBoard,
    /// The actor already has a player tile on the board.
    ActorAlreadyPresent,
    /// No cell is empty.
    BoardFull,
    /// The direction code is not one of up, right, down, left.
    InvalidDirection,
    /// A reward transfer would take the escrow below zero or the receiving
    /// balance past its largest value.
    InsufficientBalance,
}

pub open spec fn cell_of(x: int, y: int) -> int {
    x * BOARD_SIZE_Y + y
}

pub open spec fn col_of(i: int) -> int {
    i / BOARD_SIZE_Y as int
}

pub open spec fn row_of(i: int) -> int {
    i % BOARD_SIZE_Y as int
}

/// The last of the first `n` cells, in board order, that holds a player tile of `id`.
pub open spec fn last_position(b: Seq<Tile>, id: Pubkey, n: int) -> Option<int>
    decreases n,
{
    if n <= 0 {
        None
    } else if b[n - 1].is_player_of(id) {
        Some(n - 1)
    } else {
        last_position(b, id, n - 1)
    }
}

/// Where `id` stands on the board, if anywhere.
pub open spec fn position(b: Seq<Tile>, id: Pubkey) -> Option<int> {
    last_position(b, id, b.len() as int)
}

/// The empty cells among the first `n`, in board order.
pub open spec fn empty_slots(b: Seq<Tile>, n: int) -> Seq<usize>
    decreases n,
{
    if n <= 0 {
        Seq::empty()
    } else if b[n - 1].state == STATE_EMPTY {
        empty_slots(b, n - 1).push((n - 1) as usize)
    } else {
        empty_slots(b, n - 1)
    }
}

pub open spec fn all_empty_slots(b: Seq<Tile>) -> Seq<usize> {
    empty_slots(b, b.len() as int)
}

/// The empty cell that a spawn picks: one xorshift step from `seed`, taken
/// modulo the number of empty cells, indexes the list of empty cells.
pub open spec fn spawn_cell(b: Seq<Tile>, seed: int) -> int {
    let slots = all_empty_slots(b);
    slots[(xorshift_step(seed as u64) % (slots.len() as u64)) as int] as int
}

pub open spec fn new_player(id: Pubkey, avatar: Pubkey, reward: u64) -> Tile {
    Tile {
        player: id,
        state: STATE_PLAYER,
        health: 1,
        collect_reward: reward,
        avatar: avatar,
        kills: 0,
        look_direction: 0,
    }
}

pub open spec fn new_chest(placer: Pubkey, reward: u64) -> Tile {
    Tile {
        player: placer,
        state: STATE_CHEST,
        health: 1,
        collect_reward: reward,
        avatar: placer,
        kills: 0,
        look_direction: 0,
    }
}

/// Spawning a player: refused if the actor is already on the board, then if
/// no cell is empty; otherwise the player lands on the cell picked with the
/// number of empty cells as seed.
pub open spec fn spawn_player_outcome(b: Seq<Tile>, id: Pubkey, avatar: Pubkey, reward: u64) -> Result<Seq<Tile>, GameError> {
    let n = all_empty_slots(b).len();
    if position(b, id) is Some {
        Err(GameError::ActorAlreadyPresent)
    } else if n == 0 {
        Err(GameError::BoardFull)
    } else {
        Ok(b.update(spawn_cell(b, n as int), new_player(id, avatar, reward)))
    }
}

/// Spawning a chest: refused if no cell is empty; otherwise the chest lands on
/// the cell picked with one more than the number of empty cells as seed.
pub open spec fn spawn_chest_outcome(b: Seq<Tile>, placer: Pubkey, reward: u64) -> Result<Seq<Tile>, GameError> {
    let n = all_empty_slots(b).len();
    if n == 0 {
        Err(GameError::BoardFull)
    } else {
        Ok(b.update(spawn_cell(b, n as int + 1), new_chest(placer, reward)))
    }
}

/// The cell one step from `i` in direction `dir`, wrapping at every edge.
pub open spec fn step_cell(i: int, dir: u8) -> int {
    let x = col_of(i);
    let y = row_of(i);
    if dir == DIR_UP {
        if y == 0 { cell_of(x, BOARD_SIZE_Y - 1) } else { cell_of(x, y - 1) }
    } else if dir == DIR_RIGHT {
        if x == BOARD_SIZE_X - 1 { cell_of(0, y) } else { cell_of(x + 1, y) }
    } else if dir == DIR_DOWN {
        if y == BOARD_SIZE_Y - 1 { cell_of(x, 0) } else { cell_of(x, y + 1) }
    } else {
        if x == 0 { cell_of(BOARD_SIZE_X - 1, y) } else { cell_of(x - 1, y) }
    }
}

/// Whether `amount` can leave an escrow of `escrow` for a balance of `balance`.
pub open spec fn can_transfer(escrow: u64, balance: u64, amount: u64) -> bool {
    amount <= escrow && balance + amount <= u64::MAX
}

/// What a mover collects on entering a tile.
pub open spec fn bounty(t: Tile) -> u64 {
    if t.state == STATE_CHEST || t.state == STATE_PLAYER {
        t.collect_reward
    } else {
        0
    }
}

/// Board, escrow and the actor's balance.
pub type Settled = (Seq<Tile>, u64, u64);

/// Moving `id` one step in `dir`. The mover's tile replaces whatever stands on
/// the destination, the origin becomes the zeroed empty tile, and the bounty of
/// a chest or player that stood there goes from escrow to the mover. A
/// destination in a state other than empty, player or chest stops the move.
pub open spec fn move_outcome(b: Seq<Tile>, id: Pubkey, dir: u8, escrow: u64, balance: u64) -> Result<Settled, GameError> {
    match position(b, id) {
        None => Err(GameError::ActorNotOnBoard),
        Some(o) => if dir > DIR_LEFT {
            Err(GameError::InvalidDirection)
        } else {
            let d = step_cell(o, dir);
            let t = b[d];
            if t.state == STATE_EMPTY || t.state == STATE_CHEST || t.state == STATE_PLAYER {
                let r = bounty(t);
                if !can_transfer(escrow, balance, r) {
                    Err(GameError::InsufficientBalance)
                } else {
                    Ok((b.update(d, b[o]).update(o, Tile::empty_spec()), (escrow - r) as u64, (balance + r) as u64))
                }
            } else {
                Ok((b, escrow, balance))
            }
        },
    }
}

/// The cells an attack from `o` reaches, in order: right, down, then left twice.
/// There is no wraparound, and the cell above is never reached.
pub open spec fn attack_targets(o: int) -> Seq<int> {
    let x = col_of(o);
    let y = row_of(o);
    let right = if x < BOARD_SIZE_X - 1 { seq![o + BOARD_SIZE_Y] } else { Seq::empty() };
    let down = if y < BOARD_SIZE_Y - 1 { seq![o + 1] } else { Seq::empty() };
    let left = if x > 0 { seq![o - BOARD_SIZE_Y, o - BOARD_SIZE_Y] } else { Seq::empty() };
    right + down + left
}

/// One hit on cell `c`: a player whose health is at most the damage is
/// cleared and its bounty goes from escrow to the attacker; a sturdier player
/// loses the damage in health; any other tile is left alone. `None` when the
/// transfer cannot be made.
pub open spec fn hit(s: Settled, c: int) -> Option<Settled> {
    let b = s.0;
    let t = b[c];
    if t.state != STATE_PLAYER {
        Some(s)
    } else if t.health <= ATTACK_DAMAGE {
        if can_transfer(s.1, s.2, t.collect_reward) {
            Some((b.update(c, Tile::empty_spec()), (s.1 - t.collect_reward) as u64, (s.2 + t.collect_reward) as u64))
        } else {
            None
        }
    } else {
        Some((b.update(c, Tile { health: (t.health - ATTACK_DAMAGE) as u16, ..t }), s.1, s.2))
    }
}

/// The hits on `cs`, one after the other.
pub open spec fn hits(s: Settled, cs: Seq<int>) -> Option<Settled>
    decreases cs.len(),
{
    if cs.len() == 0 {
        Some(s)
    } else {
        match hit(s, cs[0]) {
            None => None,
            Some(s2) => hits(s2, cs.drop_first()),
        }
    }
}

/// An attack by `id` on its neighbours.
pub open spec fn attack_outcome(b: Seq<Tile>, id: Pubkey, escrow: u64, balance: u64) -> Result<Settled, GameError> {
    match position(b, id) {
        None => Err(GameError::ActorNotOnBoard),
        Some(o) => match hits((b, escrow, balance), attack_targets(o)) {
            None => Err(GameError::InsufficientBalance),
            Some(s) => Ok(s),
        },
    }
}

/// The action id after `id`, wrapping to zero.
pub open spec fn next_action_id(id: u64) -> u64 {
    if id == u64::MAX { 0 } else { (id + 1) as u64 }
}

/// The log entry of an attack: fixed type and damage, the actor as both
/// player and target.
pub open spec fn attack_entry(id: Pubkey, action_id: u64) -> GameAction {
    GameAction {
        action_id: action_id,
        action_type: ACTION_ATTACK,
        player: id,
        target: id,
        damage: LOGGED_DAMAGE,
    }
}

pub proof fn lemma_last_position(b: Seq<Tile>, id: Pubkey, n: int)
    requires
        0 <= n <= b.len(),
    ensures
        last_position(b, id, n) is None <==> forall|j: int| 0 <= j < n ==> !(#[trigger] b[j]).is_player_of(id),
        last_position(b, id, n) is Some ==> {
            let i = last_position(b, id, n)->0;
            &&& 0 <= i < n
            &&& b[i].is_player_of(id)
        },
    decreases n,
{
    if n > 0 {
        lemma_last_position(b, id, n - 1);
    }
}

pub proof fn lemma_empty_slots(b: Seq<Tile>, n: int)
    requires
        0 <= n <= b.len() <= BOARD_CELLS,
    ensures
        empty_slots(b, n).len() <= n,
        forall|k: int| 0 <= k < empty_slots(b, n).len() ==> {
            &&& (#[trigger] empty_slots(b, n)[k]) < n
            &&& b[empty_slots(b, n)[k] as int].state == STATE_EMPTY
        },
        empty_slots(b, n).len() == 0 <==> forall|j: int| 0 <= j < n ==> (#[trigger] b[j]).state != STATE_EMPTY,
    decreases n,
{
    if n > 0 {
        lemma_empty_slots(b, n - 1);
        let s = empty_slots(b, n - 1);
        if b[n - 1].state == STATE_EMPTY {
            assert(empty_slots(b, n) == s.push((n - 1) as usize));
            assert forall|k: int| 0 <= k < empty_slots(b, n).len() implies {
                &&& (#[trigger] empty_slots(b, n)[k]) < n
                &&& b[empty_slots(b, n)[k] as int].state == STATE_EMPTY
            } by {
                if k < s.len() {
                    assert(empty_slots(b, n)[k] == s[k]);
                }
            }
        }
    }
}

/// A spawn lands on an empty cell of the board.
pub proof fn lemma_spawn_cell(b: Seq<Tile>, seed: int)
    requires
        b.len() <= BOARD_CELLS,
        all_empty_slots(b).len() > 0,
    ensures
        0 <= spawn_cell(b, seed) < b.len(),
        b[spawn_cell(b, seed)].state == STATE_EMPTY,
{
    lemma_empty_slots(b, b.len() as int);
    let slots = all_empty_slots(b);
    let k = (xorshift_step(seed as u64) % (slots.len() as u64)) as int;
    assert(0 <= k < slots.len());
    assert(slots[k] < b.len());
}

pub proof fn lemma_step_cell(i: int, dir: u8)
    requires
        0 <= i < BOARD_CELLS,
    ensures
        0 <= step_cell(i, dir) < BOARD_CELLS,
        step_cell(i, dir) != i,
{
}

pub proof fn lemma_attack_targets(o: int)
    requires
        0 <= o < BOARD_CELLS,
    ensures
        forall|k: int| 0 <= k < attack_targets(o).len() ==> 0 <= #[trigger] attack_targets(o)[k] < BOARD_CELLS,
{
}

} // verus!
