//! The board engine: the board itself and the operations on it.
use crate::log::{recorded, GameAction, GameActionHistory};
use crate::rng::XorShift64;
use crate::rules::{
    attack_entry, attack_outcome, attack_targets, cell_of, col_of, hit, hits, last_position,
    lemma_attack_targets, lemma_empty_slots, lemma_last_position, lemma_spawn_cell,
    lemma_step_cell, move_outcome, next_action_id, position, row_of, spawn_chest_outcome,
    spawn_player_outcome, step_cell, empty_slots, GameError, ACTION_ATTACK,
    ATTACK_DAMAGE, BOARD_CELLS, BOARD_SIZE_X, BOARD_SIZE_Y, DIR_DOWN, DIR_LEFT, DIR_RIGHT, DIR_UP,
    LOGGED_DAMAGE,
};
use crate::tile::{Pubkey, Tile, STATE_CHEST, STATE_EMPTY, STATE_PLAYER};
use vstd::prelude::*;

verus! {

/// The game board, the id of the last action and the configured bounties.
pub struct GameDataAccount {
    board: Vec<Tile>,
    action_id: u64,
    player_kill_reward: u64,
    chest_reward: u64,
}

impl GameDataAccount {
    /// The cells; cell (x, y) is at index `x * BOARD_SIZE_Y + y`.
    pub closed spec fn cells(&self) -> Seq<Tile> {
        self.board@
    }

    pub closed spec fn last_action_id(&self) -> u64 {
        self.action_id
    }

    /// Bounty carried by a newly spawned player.
    pub closed spec fn kill_reward(&self) -> u64 {
        self.player_kill_reward
    }

    /// Bounty carried by a newly spawned chest.
    pub closed spec fn chest_bounty(&self) -> u64 {
        self.chest_reward
    }

    pub open spec fn wf(&self) -> bool {
        self.cells().len() == BOARD_CELLS
    }

    /// Same bounties and action id as `other`.
    pub open spec fn same_config(&self, other: &GameDataAccount) -> bool {
        &&& self.kill_reward() == other.kill_reward()
        &&& self.chest_bounty() == other.chest_bounty()
        &&& self.last_action_id() == other.last_action_id()
    }

    /// An empty board with the given bounties.
    pub fn new(player_kill_reward: u64, chest_reward: u64) -> (g: GameDataAccount)
        ensures
            g.wf(),
            g.cells() == Seq::new(BOARD_CELLS as nat, |i: int| Tile::empty_spec()),
            g.last_action_id() == 0,
            g.kill_reward() == player_kill_reward,
            g.chest_bounty() == chest_reward,
    {
        let mut board: Vec<Tile> = Vec::new();
        let mut i: usize = 0;
        while i < BOARD_CELLS
            invariant
                i <= BOARD_CELLS,
                board@ == Seq::new(i as nat, |j: int| Tile::empty_spec()),
            decreases BOARD_CELLS - i,
        {
            board.push(Tile::empty());
            i = i + 1;
        }
        GameDataAccount { board, action_id: 0, player_kill_reward, chest_reward }
    }

    pub fn action_id(&self) -> (r: u64)
        ensures
            r == self.last_action_id(),
    {
        self.action_id
    }

    /// The tile at (x, y).
    pub fn tile(&self, x: usize, y: usize) -> (t: Tile)
        requires
            self.wf(),
            x < BOARD_SIZE_X,
            y < BOARD_SIZE_Y,
        ensures
            t == self.cells()[cell_of(x as int, y as int)],
    {
        self.board[x * BOARD_SIZE_Y + y]
    }

    /// Puts `t` at (x, y).
    pub fn set_tile(&mut self, x: usize, y: usize, t: Tile)
        requires
            old(self).wf(),
            x < BOARD_SIZE_X,
            y < BOARD_SIZE_Y,
        ensures
            final(self).wf(),
            final(self).same_config(old(self)),
            final(self).cells() == old(self).cells().update(cell_of(x as int, y as int), t),
    {
        self.board.set(x * BOARD_SIZE_Y + y, t);
    }

    /// Reports the board; it has nothing to say and always succeeds.
    pub fn print(&self) -> (r: Result<(), GameError>)
        ensures
            r is Ok,
    {
        Ok(())
    }

    /// Index of the cell where `id` stands.
    fn locate(&self, id: Pubkey) -> (r: Option<usize>)
        requires
            self.wf(),
        ensures
            r is None <==> position(self.cells(), id) is None,
            r is Some ==> position(self.cells(), id) == Some(r->0 as int) && r->0 < BOARD_CELLS,
    {
        let mut found: Option<usize> = None;
        let mut i: usize = 0;
        while i < BOARD_CELLS
            invariant
                self.wf(),
                i <= BOARD_CELLS,
                found is None <==> last_position(self.cells(), id, i as int) is None,
                found is Some ==> last_position(self.cells(), id, i as int) == Some(found->0 as int) && found->0 < i,
            decreases BOARD_CELLS - i,
        {
            let t = self.board[i];
            if t.state == STATE_PLAYER && t.player == id {
                found = Some(i);
            }
            i = i + 1;
        }
        found
    }

    /// The (x, y) cell where `id` stands, if it is on the board.
    pub fn find(&self, id: Pubkey) -> (r: Option<(usize, usize)>)
        requires
            self.wf(),
        ensures
            match position(self.cells(), id) {
                None => r is None,
                Some(i) => r == Some(((col_of(i)) as usize, (row_of(i)) as usize)),
            },
    {
        match self.locate(id) {
            None => None,
            Some(i) => Some((i / BOARD_SIZE_Y, i % BOARD_SIZE_Y)),
        }
    }

    /// Empties every cell. Balances and the log are untouched.
    pub fn clear(&mut self) -> (r: Result<(), GameError>)
        requires
            old(self).wf(),
        ensures
            r is Ok,
            final(self).wf(),
            final(self).same_config(old(self)),
            final(self).cells() == Seq::new(BOARD_CELLS as nat, |i: int| Tile::empty_spec()),
    {
        let mut i: usize = 0;
        while i < BOARD_CELLS
            invariant
                i <= BOARD_CELLS,
                self.wf(),
                self.same_config(old(self)),
                forall|j: int| 0 <= j < i ==> self.cells()[j] == Tile::empty_spec(),
            decreases BOARD_CELLS - i,
        {
            self.board.set(i, Tile::empty());
            i = i + 1;
        }
        assert(self.cells() =~= Seq::new(BOARD_CELLS as nat, |i: int| Tile::empty_spec()));
        Ok(())
    }

    /// Places a new player for `id` on an empty cell picked by the generator
    /// seeded with the number of empty cells. Refused when `id` is already on
    /// the board, then when no cell is empty.
    pub fn spawn_player(&mut self, id: Pubkey, avatar: Pubkey) -> (r: Result<(), GameError>)
        requires
            old(self).wf(),
        ensures
            final(self).wf(),
            final(self).same_config(old(self)),
            match spawn_player_outcome(old(self).cells(), id, avatar, old(self).kill_reward()) {
                Ok(b) => r is Ok && final(self).cells() == b,
                Err(e) => r == Err::<(), GameError>(e) && final(self).cells() == old(self).cells(),
            },
    {
        let mut slots: Vec<usize> = Vec::new();
        let mut i: usize = 0;
        while i < BOARD_CELLS
            invariant
                i <= BOARD_CELLS,
                self == old(self),
                self.wf(),
                slots@ == empty_slots(self.cells(), i as int),
                forall|j: int| 0 <= j < i ==> !(#[trigger] self.cells()[j]).is_player_of(id),
            decreases BOARD_CELLS - i,
        {
            let t = self.board[i];
            if t.state == STATE_EMPTY {
                slots.push(i);
            } else if t.player == id && t.state == STATE_PLAYER {
                proof {
                    lemma_last_position(self.cells(), id, BOARD_CELLS as int);
                    assert(self.cells()[i as int].is_player_of(id));
                }
                return Err(GameError::ActorAlreadyPresent);
            }
            i = i + 1;
        }
        proof {
            lemma_last_position(self.cells(), id, BOARD_CELLS as int);
            lemma_empty_slots(self.cells(), BOARD_CELLS as int);
        }
        if slots.len() == 0 {
            return Err(GameError::BoardFull);
        }
        let n: usize = slots.len();
        let mut rng = XorShift64::new(n as u64);
        let k: u64 = rng.next() % (n as u64);
        let c: usize = slots[k as usize];
        proof {
            lemma_spawn_cell(self.cells(), n as int);
        }
        self.board.set(c, Tile {
            player: id,
            state: STATE_PLAYER,
            health: 1,
            collect_reward: self.player_kill_reward,
            avatar: avatar,
            kills: 0,
            look_direction: 0,
        });
        Ok(())
    }

    /// Places a chest from `placer` on an empty cell picked by the generator
    /// seeded with one more than the number of empty cells. Refused when no
    /// cell is empty.
    pub fn spawn_chest(&mut self, placer: Pubkey) -> (r: Result<(), GameError>)
        requires
            old(self).wf(),
        ensures
            final(self).wf(),
            final(self).same_config(old(self)),
            match spawn_chest_outcome(old(self).cells(), placer, old(self).chest_bounty()) {
                Ok(b) => r is Ok && final(self).cells() == b,
                Err(e) => r == Err::<(), GameError>(e) && final(self).cells() == old(self).cells(),
            },
    {
        let mut slots: Vec<usize> = Vec::new();
        let mut i: usize = 0;
        while i < BOARD_CELLS
            invariant
                i <= BOARD_CELLS,
                self.wf(),
                slots@ == empty_slots(self.cells(), i as int),
            decreases BOARD_CELLS - i,
        {
            if self.board[i].state == STATE_EMPTY {
                slots.push(i);
            }
            i = i + 1;
        }
        proof {
            lemma_empty_slots(self.cells(), BOARD_CELLS as int);
        }
        if slots.len() == 0 {
            return Err(GameError::BoardFull);
        }
        let n: usize = slots.len();
        let mut rng = XorShift64::new((n + 1) as u64);
        let k: u64 = rng.next() % (n as u64);
        let c: usize = slots[k as usize];
        proof {
            lemma_spawn_cell(self.cells(), n as int + 1);
        }
        self.board.set(c, Tile {
            player: placer,
            state: STATE_CHEST,
            health: 1,
            collect_reward: self.chest_reward,
            avatar: placer,
            kills: 0,
            look_direction: 0,
        });
        Ok(())
    }

    /// Moves `id` one step in `direction` (0 up, 1 right, 2 down, 3 left),
    /// wrapping at the edges. The mover takes over the destination cell and
    /// collects the bounty of a chest or player that stood there, paid from
    /// `chest_vault` into `player_balance`; the origin becomes the zeroed
    /// empty tile.
    pub fn move_in_direction(
        &mut self,
        direction: u8,
        id: Pubkey,
        chest_vault: &mut u64,
        player_balance: &mut u64,
    ) -> (r: Result<(), GameError>)
        requires
            old(self).wf(),
        ensures
            final(self).wf(),
            final(self).same_config(old(self)),
            match move_outcome(old(self).cells(), id, direction, *old(chest_vault), *old(player_balance)) {
                Ok(s) => {
                    &&& r is Ok
                    &&& final(self).cells() == s.0
                    &&& *final(chest_vault) == s.1
                    &&& *final(player_balance) == s.2
                },
                Err(e) => {
                    &&& r == Err::<(), GameError>(e)
                    &&& final(self).cells() == old(self).cells()
                    &&& *final(chest_vault) == *old(chest_vault)
                    &&& *final(player_balance) == *old(player_balance)
                },
            },
    {
        let o: usize = match self.locate(id) {
            None => {
                return Err(GameError::ActorNotOnBoard);
            },
            Some(o) => o,
        };
        let x: usize = o / BOARD_SIZE_Y;
        let y: usize = o % BOARD_SIZE_Y;
        let d: usize = if direction == DIR_UP {
            if y == 0 { x * BOARD_SIZE_Y + (BOARD_SIZE_Y - 1) } else { x * BOARD_SIZE_Y + (y - 1) }
        } else if direction == DIR_RIGHT {
            if x == BOARD_SIZE_X - 1 { y } else { (x + 1) * BOARD_SIZE_Y + y }
        } else if direction == DIR_DOWN {
            if y == BOARD_SIZE_Y - 1 { x * BOARD_SIZE_Y } else { x * BOARD_SIZE_Y + (y + 1) }
        } else if direction == DIR_LEFT {
            if x == 0 { (BOARD_SIZE_X - 1) * BOARD_SIZE_Y + y } else { (x - 1) * BOARD_SIZE_Y + y }
        } else {
            return Err(GameError::InvalidDirection);
        };
        proof {
            lemma_step_cell(o as int, direction);
            assert(d == step_cell(o as int, direction));
        }
        let t = self.board[d];
        if t.state == STATE_EMPTY || t.state == STATE_CHEST || t.state == STATE_PLAYER {
            let reward: u64 = if t.state == STATE_EMPTY { 0 } else { t.collect_reward };
            if reward > *chest_vault || reward > u64::MAX - *player_balance {
                return Err(GameError::InsufficientBalance);
            }
            let mover = self.board[o];
            self.board.set(d, mover);
            self.board.set(o, Tile::empty());
            *chest_vault = *chest_vault - reward;
            *player_balance = *player_balance + reward;
        }
        Ok(())
    }

    /// Attacks the neighbours of `id` (right, down, then left twice; no
    /// wraparound, never the cell above), dealing each player there the attack
    /// damage. A player whose health is at most the damage is cleared and its
    /// bounty is paid from `chest_vault` into `player_balance`. On success the
    /// action id advances, wrapping to zero, and an attack entry with the
    /// fixed logged damage is recorded in `game_actions`.
    pub fn shoot(
        &mut self,
        id: Pubkey,
        game_actions: &mut GameActionHistory,
        chest_vault: &mut u64,
        player_balance: &mut u64,
    ) -> (r: Result<(), GameError>)
        requires
            old(self).wf(),
            old(game_actions)@.len() < usize::MAX,
        ensures
            final(self).wf(),
            final(self).kill_reward() == old(self).kill_reward(),
            final(self).chest_bounty() == old(self).chest_bounty(),
            final(game_actions).id_counter == old(game_actions).id_counter,
            match attack_outcome(old(self).cells(), id, *old(chest_vault), *old(player_balance)) {
                Ok(s) => {
                    &&& r is Ok
                    &&& final(self).cells() == s.0
                    &&& *final(chest_vault) == s.1
                    &&& *final(player_balance) == s.2
                    &&& final(self).last_action_id() == next_action_id(old(self).last_action_id())
                    &&& final(game_actions)@ == recorded(
                        old(game_actions)@,
                        attack_entry(id, next_action_id(old(self).last_action_id())),
                    )
                },
                Err(e) => {
                    &&& r == Err::<(), GameError>(e)
                    &&& final(self).cells() == old(self).cells()
                    &&& final(self).last_action_id() == old(self).last_action_id()
                    &&& *final(chest_vault) == *old(chest_vault)
                    &&& *final(player_balance) == *old(player_balance)
                    &&& final(game_actions)@ == old(game_actions)@
                },
            },
    {
        let o: usize = match self.locate(id) {
            None => {
                return Err(GameError::ActorNotOnBoard);
            },
            Some(o) => o,
        };
        let targets = neighbours(o);
        let ghost ts = attack_targets(o as int);
        let mut work: Vec<Tile> = Vec::new();
        let mut i: usize = 0;
        while i < BOARD_CELLS
            invariant
                i <= BOARD_CELLS,
                self.wf(),
                self == old(self),
                chest_vault == old(chest_vault),
                player_balance == old(player_balance),
                game_actions == old(game_actions),
                work@ == self.cells().subrange(0, i as int),
            decreases BOARD_CELLS - i,
        {
            work.push(self.board[i]);
            i = i + 1;
        }
        assert(work@ =~= self.cells());
        let mut vault: u64 = *chest_vault;
        let mut balance: u64 = *player_balance;
        let mut k: usize = 0;
        assert(ts.subrange(0, ts.len() as int) =~= ts);
        while k < targets.len()
            invariant
                k <= targets.len(),
                self.wf(),
                self == old(self),
                chest_vault == old(chest_vault),
                player_balance == old(player_balance),
                game_actions == old(game_actions),
                position(self.cells(), id) == Some(o as int),
                ts == attack_targets(o as int),
                targets@.len() == ts.len(),
                forall|j: int| 0 <= j < ts.len() ==> targets@[j] as int == ts[j] && ts[j] < BOARD_CELLS,
                work@.len() == BOARD_CELLS,
                hits((self.cells(), *chest_vault, *player_balance), ts) == hits(
                    (work@, vault, balance),
                    ts.subrange(k as int, ts.len() as int),
                ),
            decreases targets.len() - k,
        {
            let ghost rest = ts.subrange(k as int, ts.len() as int);
            assert(rest.drop_first() =~= ts.subrange(k + 1, ts.len() as int));
            assert(rest[0] == targets@[k as int] as int);
            let ghost before = (work@, vault, balance);
            if attack_tile(&mut work, targets[k], &mut vault, &mut balance).is_err() {
                assert(hit(before, rest[0]) is None);
                assert(hits(before, rest) is None);
                return Err(GameError::InsufficientBalance);
            }
            k = k + 1;
        }
        assert(ts.subrange(ts.len() as int, ts.len() as int) =~= Seq::<int>::empty());
        let next: u64 = if self.action_id == u64::MAX { 0 } else { self.action_id + 1 };
        self.action_id = next;
        game_actions.record(GameAction {
            action_id: next,
            action_type: ACTION_ATTACK,
            player: id,
            target: id,
            damage: LOGGED_DAMAGE,
        });
        self.board = work;
        *chest_vault = vault;
        *player_balance = balance;
        Ok(())
    }
}

/// The cells an attack from `o` reaches, in the order the hits land.
fn neighbours(o: usize) -> (r: Vec<usize>)
    requires
        o < BOARD_CELLS,
    ensures
        r@.len() == attack_targets(o as int).len(),
        forall|j: int| 0 <= j < r@.len() ==> r@[j] as int == attack_targets(o as int)[j] && r@[j] < BOARD_CELLS,
{
    proof {
        lemma_attack_targets(o as int);
    }
    let x: usize = o / BOARD_SIZE_Y;
    let y: usize = o % BOARD_SIZE_Y;
    let mut r: Vec<usize> = Vec::new();
    if x < BOARD_SIZE_X - 1 {
        r.push(o + BOARD_SIZE_Y);
    }
    if y < BOARD_SIZE_Y - 1 {
        r.push(o + 1);
    }
    if x > 0 {
        r.push(o - BOARD_SIZE_Y);
        r.push(o - BOARD_SIZE_Y);
    }
    assert(r@ =~= attack_targets(o as int).map_values(|c: int| c as usize));
    r
}

/// One hit on cell `c` of `board`, paying a kill's bounty from `vault` into
/// `balance`.
fn attack_tile(board: &mut Vec<Tile>, c: usize, vault: &mut u64, balance: &mut u64) -> (r: Result<(), GameError>)
    requires
        c < old(board)@.len(),
    ensures
        match hit((old(board)@, *old(vault), *old(balance)), c as int) {
            Some(s) => r is Ok && final(board)@ == s.0 && *final(vault) == s.1 && *final(balance) == s.2,
            None => r is Err && final(board)@ == old(board)@ && *final(vault) == *old(vault) && *final(balance) == *old(balance),
        },
{
    let t = board[c];
    if t.state == STATE_PLAYER {
        if t.health <= ATTACK_DAMAGE {
            if t.collect_reward > *vault || t.collect_reward > u64::MAX - *balance {
                return Err(GameError::InsufficientBalance);
            }
            board.set(c, Tile::empty());
            *vault = *vault - t.collect_reward;
            *balance = *balance + t.collect_reward;
        } else {
            board.set(c, Tile { health: t.health - ATTACK_DAMAGE, ..t });
        }
    }
    Ok(())
}

} // verus!
