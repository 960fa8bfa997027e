//! Properties of the game rules that span several calls or all boards.
use crate::rules::{
    all_empty_slots, can_transfer, cell_of, col_of, lemma_last_position, lemma_spawn_cell,
    lemma_step_cell, move_outcome, position, row_of, spawn_cell, spawn_chest_outcome,
    spawn_player_outcome, step_cell, GameError, BOARD_CELLS, BOARD_SIZE_X, BOARD_SIZE_Y,
    DIR_DOWN, DIR_LEFT, DIR_RIGHT, DIR_UP,
};
use crate::rules::{
    attack_outcome, new_chest, new_player, attack_targets, hit, hits, lemma_attack_targets, lemma_empty_slots, Settled,
    ATTACK_DAMAGE,
};
use crate::tile::{Pubkey, Tile, STATE_CHEST, STATE_EMPTY, STATE_PLAYER};
use vstd::prelude::*;

verus! {

/// After a successful spawn of `id`, looking `id` up finds exactly the cell
/// the spawn picked, and that cell holds a player tile with health 1.
pub proof fn lemma_spawn_then_find(b: Seq<Tile>, id: Pubkey, avatar: Pubkey, reward: u64)
    requires
        b.len() == BOARD_CELLS,
        spawn_player_outcome(b, id, avatar, reward) is Ok,
    ensures
        ({
            let nb = spawn_player_outcome(b, id, avatar, reward)->Ok_0;
            let c = spawn_cell(b, all_empty_slots(b).len() as int);
            &&& position(nb, id) == Some(c)
            &&& nb[c].state == STATE_PLAYER
            &&& nb[c].health == 1
        }),
{
    let n = all_empty_slots(b).len();
    let c = spawn_cell(b, n as int);
    let nb = spawn_player_outcome(b, id, avatar, reward)->Ok_0;
    lemma_last_position(b, id, BOARD_CELLS as int);
    lemma_spawn_cell(b, n as int);
    lemma_last_position(nb, id, BOARD_CELLS as int);
    assert(nb[c].is_player_of(id));
    let i = position(nb, id)->0;
    if i != c {
        assert(b[i] == nb[i]);
        assert(false);
    }
}

/// Spawning an actor that already stands on the board is refused as already
/// present (and a refused spawn leaves the board as it was).
pub proof fn lemma_spawn_present_refused(b: Seq<Tile>, id: Pubkey, avatar: Pubkey, reward: u64, j: int)
    requires
        b.len() == BOARD_CELLS,
        0 <= j < BOARD_CELLS,
        b[j].is_player_of(id),
    ensures
        spawn_player_outcome(b, id, avatar, reward) == Err::<Seq<Tile>, GameError>(GameError::ActorAlreadyPresent),
{
    lemma_last_position(b, id, BOARD_CELLS as int);
}

/// On a board without an empty cell both spawns are refused as board full;
/// for a player this holds when the actor is not already on the board, which
/// is checked first.
pub proof fn lemma_spawn_on_full_board(b: Seq<Tile>, id: Pubkey, avatar: Pubkey, reward: u64)
    requires
        b.len() == BOARD_CELLS,
        forall|j: int| 0 <= j < BOARD_CELLS ==> (#[trigger] b[j]).state != STATE_EMPTY,
    ensures
        spawn_chest_outcome(b, id, reward) == Err::<Seq<Tile>, GameError>(GameError::BoardFull),
        position(b, id) is None ==> spawn_player_outcome(b, id, avatar, reward) == Err::<Seq<Tile>, GameError>(GameError::BoardFull),
{
    lemma_empty_slots(b, BOARD_CELLS as int);
}

/// A step off any edge lands on the opposite edge, in the same row or column.
pub proof fn lemma_step_wraps(x: int, y: int)
    requires
        0 <= x < BOARD_SIZE_X,
        0 <= y < BOARD_SIZE_Y,
    ensures
        col_of(cell_of(x, y)) == x,
        row_of(cell_of(x, y)) == y,
        y == 0 ==> step_cell(cell_of(x, y), DIR_UP) == cell_of(x, BOARD_SIZE_Y - 1),
        y == BOARD_SIZE_Y - 1 ==> step_cell(cell_of(x, y), DIR_DOWN) == cell_of(x, 0),
        x == 0 ==> step_cell(cell_of(x, y), DIR_LEFT) == cell_of(BOARD_SIZE_X - 1, y),
        x == BOARD_SIZE_X - 1 ==> step_cell(cell_of(x, y), DIR_RIGHT) == cell_of(0, y),
{
}

/// A move onto an empty cell succeeds with balances unchanged: the destination
/// now holds the mover's tile, the origin the zeroed empty tile, and no other
/// cell changes.
pub proof fn lemma_move_into_empty(b: Seq<Tile>, id: Pubkey, dir: u8, escrow: u64, balance: u64)
    requires
        b.len() == BOARD_CELLS,
        position(b, id) is Some,
        dir <= DIR_LEFT,
        b[step_cell(position(b, id)->0, dir)].state == STATE_EMPTY,
    ensures
        ({
            let o = position(b, id)->0;
            let d = step_cell(o, dir);
            let s = move_outcome(b, id, dir, escrow, balance);
            &&& s is Ok
            &&& s->Ok_0.1 == escrow
            &&& s->Ok_0.2 == balance
            &&& s->Ok_0.0.len() == BOARD_CELLS
            &&& s->Ok_0.0[d] == b[o]
            &&& s->Ok_0.0[o] == Tile::empty_spec()
            &&& forall|j: int| 0 <= j < BOARD_CELLS && j != o && j != d ==> s->Ok_0.0[j] == b[j]
        }),
{
    lemma_last_position(b, id, BOARD_CELLS as int);
    lemma_step_cell(position(b, id)->0, dir);
}

/// A move onto a chest pays exactly the chest's bounty from escrow to the
/// mover, and the chest is gone: its cell now holds the mover's player tile.
/// When escrow cannot pay, the move is refused.
pub proof fn lemma_move_onto_chest(b: Seq<Tile>, id: Pubkey, dir: u8, escrow: u64, balance: u64)
    requires
        b.len() == BOARD_CELLS,
        position(b, id) is Some,
        dir <= DIR_LEFT,
        b[step_cell(position(b, id)->0, dir)].state == STATE_CHEST,
    ensures
        ({
            let o = position(b, id)->0;
            let d = step_cell(o, dir);
            let r = b[d].collect_reward;
            let s = move_outcome(b, id, dir, escrow, balance);
            &&& can_transfer(escrow, balance, r) ==> {
                &&& s is Ok
                &&& s->Ok_0.1 == escrow - r
                &&& s->Ok_0.2 == balance + r
                &&& s->Ok_0.0[d] == b[o]
                &&& s->Ok_0.0[d].state == STATE_PLAYER
                &&& s->Ok_0.0[o] == Tile::empty_spec()
            }
            &&& !can_transfer(escrow, balance, r) ==> s == Err::<(Seq<Tile>, u64, u64), GameError>(GameError::InsufficientBalance)
        }),
{
    lemma_last_position(b, id, BOARD_CELLS as int);
    lemma_step_cell(position(b, id)->0, dir);
}

/// Hits on a concatenation are the hits on the first part, then on the second.
pub proof fn lemma_hits_append(s: Settled, a: Seq<int>, c: Seq<int>)
    ensures
        hits(s, a + c) == match hits(s, a) {
            None => None,
            Some(t) => hits(t, c),
        },
    decreases a.len(),
{
    if a.len() == 0 {
        assert(a + c =~= c);
    } else {
        assert((a + c)[0] == a[0]);
        assert((a + c).drop_first() =~= a.drop_first() + c);
        match hit(s, a[0]) {
            None => {},
            Some(s2) => {
                lemma_hits_append(s2, a.drop_first(), c);
            },
        }
    }
}

/// Hits elsewhere leave cell `c` as it was.
pub proof fn lemma_hits_frame(s: Settled, cs: Seq<int>, c: int)
    requires
        0 <= c < s.0.len(),
        forall|k: int| 0 <= k < cs.len() ==> #[trigger] cs[k] != c && 0 <= cs[k] < s.0.len(),
    ensures
        hits(s, cs) is Some ==> (hits(s, cs)->0).0[c] == s.0[c] && (hits(s, cs)->0).0.len() == s.0.len(),
    decreases cs.len(),
{
    if cs.len() > 0 {
        assert(cs[0] != c);
        match hit(s, cs[0]) {
            None => {},
            Some(s2) => {
                assert(s2.0[c] == s.0[c] && s2.0.len() == s.0.len());
                assert forall|k: int| 0 <= k < cs.drop_first().len() implies #[trigger] cs.drop_first()[k] != c
                    && 0 <= cs.drop_first()[k] < s2.0.len() by {
                    assert(cs.drop_first()[k] == cs[k + 1]);
                }
                lemma_hits_frame(s2, cs.drop_first(), c);
            },
        }
    }
}

/// Hits on cells that hold no player change nothing.
pub proof fn lemma_hits_quiet(s: Settled, cs: Seq<int>)
    requires
        forall|k: int| 0 <= k < cs.len() ==> 0 <= #[trigger] cs[k] < s.0.len() && s.0[cs[k]].state != STATE_PLAYER,
    ensures
        hits(s, cs) == Some(s),
    decreases cs.len(),
{
    if cs.len() > 0 {
        assert(hit(s, cs[0]) == Some(s));
        assert forall|k: int| 0 <= k < cs.drop_first().len() implies 0 <= #[trigger] cs.drop_first()[k] < s.0.len()
            && s.0[cs.drop_first()[k]].state != STATE_PLAYER by {
            assert(cs.drop_first()[k] == cs[k + 1]);
        }
        lemma_hits_quiet(s, cs.drop_first());
    }
}

/// An attack on the neighbour to the right or below (each reached once): a
/// neighbouring player with health above the attack damage loses exactly that
/// much and stays a player; one with health at most the damage is cleared to
/// the empty tile. When that neighbour is the only player the attack reaches,
/// the attacker is credited exactly its bounty, taken from escrow.
pub proof fn lemma_attack_neighbour(b: Seq<Tile>, id: Pubkey, escrow: u64, balance: u64, c: int)
    requires
        b.len() == BOARD_CELLS,
        0 <= c < BOARD_CELLS,
        position(b, id) is Some,
        ({
            let o = position(b, id)->0;
            ||| (col_of(o) < BOARD_SIZE_X - 1 && c == o + BOARD_SIZE_Y)
            ||| (row_of(o) < BOARD_SIZE_Y - 1 && c == o + 1)
        }),
        b[c].state == STATE_PLAYER,
    ensures
        ({
            let o = position(b, id)->0;
            let out = attack_outcome(b, id, escrow, balance);
            let r = b[c].collect_reward;
            &&& b[c].health > ATTACK_DAMAGE && out is Ok ==> {
                &&& out->Ok_0.0[c].health == b[c].health - ATTACK_DAMAGE
                &&& out->Ok_0.0[c].state == STATE_PLAYER
            }
            &&& b[c].health <= ATTACK_DAMAGE && out is Ok ==> out->Ok_0.0[c] == Tile::empty_spec()
            &&& b[c].health <= ATTACK_DAMAGE && can_transfer(escrow, balance, r)
                && (forall|k: int| 0 <= k < attack_targets(o).len() && #[trigger] attack_targets(o)[k] != c
                    ==> b[attack_targets(o)[k]].state != STATE_PLAYER) ==> {
                &&& out is Ok
                &&& out->Ok_0.1 == escrow - r
                &&& out->Ok_0.2 == balance + r
                &&& out->Ok_0.0[c] == Tile::empty_spec()
            }
        }),
{
    lemma_last_position(b, id, BOARD_CELLS as int);
    let o = position(b, id)->0;
    lemma_attack_targets(o);
    let ts = attack_targets(o);
    let m: int = if c == o + 1 && col_of(o) < BOARD_SIZE_X - 1 { 1 } else { 0 };
    assert(ts[m] == c);
    let pre = ts.subrange(0, m);
    let post = ts.subrange(m + 1, ts.len() as int);
    assert(ts =~= pre + seq![c] + post);
    assert forall|k: int| 0 <= k < pre.len() implies #[trigger] pre[k] != c && 0 <= pre[k] < b.len() by {
        assert(pre[k] == ts[k]);
    }
    assert forall|k: int| 0 <= k < post.len() implies #[trigger] post[k] != c && 0 <= post[k] < b.len() by {
        assert(post[k] == ts[k + m + 1]);
    }
    let s0: Settled = (b, escrow, balance);
    lemma_hits_append(s0, pre + seq![c], post);
    lemma_hits_append(s0, pre, seq![c]);
    lemma_hits_frame(s0, pre, c);
    assert(seq![c].drop_first() =~= Seq::<int>::empty());
    match hits(s0, pre) {
        None => {},
        Some(t) => {
            assert(t.0[c] == b[c]);
            match hit(t, c) {
                None => {},
                Some(u) => {
                    assert(seq![c][0] == c);
                    assert(hits(u, Seq::<int>::empty()) == Some(u));
                    assert(hits(t, seq![c]) == Some(u));
                    lemma_hits_frame(u, post, c);
                },
            }
        },
    }
    if b[c].health <= ATTACK_DAMAGE && can_transfer(escrow, balance, b[c].collect_reward)
        && (forall|k: int| 0 <= k < ts.len() && #[trigger] ts[k] != c ==> b[ts[k]].state != STATE_PLAYER) {
        assert forall|k: int| 0 <= k < pre.len() implies 0 <= #[trigger] pre[k] < s0.0.len()
            && s0.0[pre[k]].state != STATE_PLAYER by {
            assert(pre[k] == ts[k]);
        }
        lemma_hits_quiet(s0, pre);
        let u = hit(s0, c)->0;
        assert(seq![c][0] == c);
        assert(hits(u, Seq::<int>::empty()) == Some(u));
        assert(hits(s0, seq![c]) == Some(u));
        assert forall|k: int| 0 <= k < post.len() implies 0 <= #[trigger] post[k] < u.0.len()
            && u.0[post[k]].state != STATE_PLAYER by {
            assert(post[k] == ts[k + m + 1]);
        }
        lemma_hits_quiet(u, post);
    }
}

/// Every empty cell carries the zeroed empty tile.
pub open spec fn empties_zeroed(b: Seq<Tile>) -> bool {
    forall|j: int| 0 <= j < b.len() && (#[trigger] b[j]).state == STATE_EMPTY ==> b[j] == Tile::empty_spec()
}

proof fn lemma_hits_keep_empties_zeroed(s: Settled, cs: Seq<int>)
    requires
        empties_zeroed(s.0),
        forall|k: int| 0 <= k < cs.len() ==> 0 <= #[trigger] cs[k] < s.0.len(),
    ensures
        hits(s, cs) is Some ==> empties_zeroed((hits(s, cs)->0).0),
    decreases cs.len(),
{
    if cs.len() > 0 {
        match hit(s, cs[0]) {
            None => {},
            Some(s2) => {
                assert(empties_zeroed(s2.0));
                assert forall|k: int| 0 <= k < cs.drop_first().len() implies 0 <= #[trigger] cs.drop_first()[k] < s2.0.len() by {
                    assert(cs.drop_first()[k] == cs[k + 1]);
                }
                lemma_hits_keep_empties_zeroed(s2, cs.drop_first());
            },
        }
    }
}

/// No operation leaves stale data in an empty cell: when every empty cell
/// carries the zeroed tile before a spawn, a move or an attack, it still does
/// after it.
pub proof fn lemma_operations_keep_empties_zeroed(
    b: Seq<Tile>,
    id: Pubkey,
    avatar: Pubkey,
    reward: u64,
    dir: u8,
    escrow: u64,
    balance: u64,
)
    requires
        b.len() == BOARD_CELLS,
        empties_zeroed(b),
    ensures
        spawn_player_outcome(b, id, avatar, reward) is Ok ==> empties_zeroed(spawn_player_outcome(b, id, avatar, reward)->Ok_0),
        spawn_chest_outcome(b, id, reward) is Ok ==> empties_zeroed(spawn_chest_outcome(b, id, reward)->Ok_0),
        move_outcome(b, id, dir, escrow, balance) is Ok ==> empties_zeroed((move_outcome(b, id, dir, escrow, balance)->Ok_0).0),
        attack_outcome(b, id, escrow, balance) is Ok ==> empties_zeroed((attack_outcome(b, id, escrow, balance)->Ok_0).0),
{
    let n = all_empty_slots(b).len();
    if n > 0 {
        lemma_spawn_cell(b, n as int);
        lemma_spawn_cell(b, n as int + 1);
        let c1 = spawn_cell(b, n as int);
        let c2 = spawn_cell(b, n as int + 1);
        assert(empties_zeroed(b.update(c1, new_player(id, avatar, reward))));
        assert(empties_zeroed(b.update(c2, new_chest(id, reward))));
    }
    lemma_last_position(b, id, BOARD_CELLS as int);
    if position(b, id) is Some {
        let o = position(b, id)->0;
        lemma_step_cell(o, dir);
        lemma_attack_targets(o);
        lemma_hits_keep_empties_zeroed((b, escrow, balance), attack_targets(o));
    }
}

/// No two cells hold player tiles of the same actor.
pub open spec fn players_unique(b: Seq<Tile>) -> bool {
    forall|i: int, j: int|
        0 <= i < b.len() && 0 <= j < b.len() && i != j && (#[trigger] b[i]).state == STATE_PLAYER
            && (#[trigger] b[j]).state == STATE_PLAYER ==> b[i].player != b[j].player
}

proof fn lemma_hits_keep_players_unique(s: Settled, cs: Seq<int>)
    requires
        players_unique(s.0),
        forall|k: int| 0 <= k < cs.len() ==> 0 <= #[trigger] cs[k] < s.0.len(),
    ensures
        hits(s, cs) is Some ==> players_unique((hits(s, cs)->0).0),
    decreases cs.len(),
{
    if cs.len() > 0 {
        match hit(s, cs[0]) {
            None => {},
            Some(s2) => {
                assert(players_unique(s2.0));
                assert forall|k: int| 0 <= k < cs.drop_first().len() implies 0 <= #[trigger] cs.drop_first()[k] < s2.0.len() by {
                    assert(cs.drop_first()[k] == cs[k + 1]);
                }
                lemma_hits_keep_players_unique(s2, cs.drop_first());
            },
        }
    }
}

/// Each actor stands on at most one cell, whatever sequence of spawns, moves
/// and attacks is made: every operation keeps that true.
pub proof fn lemma_operations_keep_players_unique(
    b: Seq<Tile>,
    id: Pubkey,
    avatar: Pubkey,
    reward: u64,
    dir: u8,
    escrow: u64,
    balance: u64,
)
    requires
        b.len() == BOARD_CELLS,
        players_unique(b),
    ensures
        spawn_player_outcome(b, id, avatar, reward) is Ok ==> players_unique(spawn_player_outcome(b, id, avatar, reward)->Ok_0),
        spawn_chest_outcome(b, id, reward) is Ok ==> players_unique(spawn_chest_outcome(b, id, reward)->Ok_0),
        move_outcome(b, id, dir, escrow, balance) is Ok ==> players_unique((move_outcome(b, id, dir, escrow, balance)->Ok_0).0),
        attack_outcome(b, id, escrow, balance) is Ok ==> players_unique((attack_outcome(b, id, escrow, balance)->Ok_0).0),
{
    let n = all_empty_slots(b).len();
    lemma_last_position(b, id, BOARD_CELLS as int);
    if n > 0 {
        lemma_spawn_cell(b, n as int);
        lemma_spawn_cell(b, n as int + 1);
        let c1 = spawn_cell(b, n as int);
        let c2 = spawn_cell(b, n as int + 1);
        assert(players_unique(b.update(c2, new_chest(id, reward))));
        if position(b, id) is None {
            let nb = b.update(c1, new_player(id, avatar, reward));
            assert forall|i: int, j: int|
                0 <= i < nb.len() && 0 <= j < nb.len() && i != j && (#[trigger] nb[i]).state == STATE_PLAYER
                    && (#[trigger] nb[j]).state == STATE_PLAYER implies nb[i].player != nb[j].player by {
                if i == c1 {
                    assert(!b[j].is_player_of(id));
                } else if j == c1 {
                    assert(!b[i].is_player_of(id));
                }
            }
        }
    }
    if position(b, id) is Some {
        let o = position(b, id)->0;
        lemma_step_cell(o, dir);
        let d = step_cell(o, dir);
        let nb = b.update(d, b[o]).update(o, Tile::empty_spec());
        assert forall|i: int, j: int|
            0 <= i < nb.len() && 0 <= j < nb.len() && i != j && (#[trigger] nb[i]).state == STATE_PLAYER
                && (#[trigger] nb[j]).state == STATE_PLAYER implies nb[i].player != nb[j].player by {
            if i == d {
                assert(nb[i] == b[o]);
                assert(nb[j] == b[j]);
            } else if j == d {
                assert(nb[j] == b[o]);
                assert(nb[i] == b[i]);
            }
        }
        lemma_attack_targets(o);
        lemma_hits_keep_players_unique((b, escrow, balance), attack_targets(o));
    }
}

} // verus!
