use seven_seas::log::{GameAction, GameActionHistory};
use seven_seas::rules::{GameError, BOARD_SIZE_X, BOARD_SIZE_Y, DIR_DOWN, DIR_LEFT, DIR_RIGHT, DIR_UP};
use seven_seas::tile::{Pubkey, Tile, STATE_CHEST, STATE_EMPTY, STATE_PLAYER};
use seven_seas::{GameDataAccount, XorShift64};

const KILL_REWARD: u64 = 1000;
const CHEST_REWARD: u64 = 5000;

fn key(n: u64) -> Pubkey {
    Pubkey { w0: n, w1: 0, w2: 0, w3: 0 }
}

fn player(id: Pubkey, health: u16, reward: u64) -> Tile {
    Tile {
        player: id,
        state: STATE_PLAYER,
        health,
        collect_reward: reward,
        avatar: id,
        kills: 0,
        look_direction: 0,
    }
}

fn chest(reward: u64) -> Tile {
    Tile {
        player: key(99),
        state: STATE_CHEST,
        health: 1,
        collect_reward: reward,
        avatar: key(99),
        kills: 0,
        look_direction: 0,
    }
}

fn snapshot(g: &GameDataAccount) -> Vec<Tile> {
    let mut v = Vec::new();
    for x in 0..BOARD_SIZE_X {
        for y in 0..BOARD_SIZE_Y {
            v.push(g.tile(x, y));
        }
    }
    v
}

fn count_state(g: &GameDataAccount, state: u8) -> usize {
    snapshot(g).iter().filter(|t| t.state == state).count()
}

#[test]
fn xorshift_steps_exactly() {
    let mut r = XorShift64::new(1);
    assert_eq!(r.next(), 1082269761);
    assert_eq!(r.a, 1082269761);
    let mut s = XorShift64::new(101);
    assert_eq!(s.next(), 109291419941);
}

#[test]
fn new_board_is_empty() {
    let g = GameDataAccount::new(KILL_REWARD, CHEST_REWARD);
    assert_eq!(count_state(&g, STATE_EMPTY), 100);
    assert_eq!(g.tile(3, 7), Tile::default());
    assert_eq!(g.action_id(), 0);
    assert_eq!(g.print(), Ok(()));
}

#[test]
fn spawn_player_then_find_gives_spawn_cell() {
    let mut g = GameDataAccount::new(KILL_REWARD, CHEST_REWARD);
    assert_eq!(g.spawn_player(key(1), key(7)), Ok(()));
    // 100 empty cells: one step from seed 100, modulo 100, picks cell 24.
    assert_eq!(g.find(key(1)), Some((2, 4)));
    let t = g.tile(2, 4);
    assert_eq!(t.state, STATE_PLAYER);
    assert_eq!(t.health, 1);
    assert_eq!(t.kills, 0);
    assert_eq!(t.collect_reward, KILL_REWARD);
    assert_eq!(t.avatar, key(7));
    assert_eq!(count_state(&g, STATE_PLAYER), 1);
}

#[test]
fn find_absent_actor_is_none() {
    let g = GameDataAccount::new(KILL_REWARD, CHEST_REWARD);
    assert_eq!(g.find(key(1)), None);
}

#[test]
fn spawn_player_already_present_is_refused() {
    let mut g = GameDataAccount::new(KILL_REWARD, CHEST_REWARD);
    g.spawn_player(key(1), key(1)).unwrap();
    let before = snapshot(&g);
    assert_eq!(g.spawn_player(key(1), key(2)), Err(GameError::ActorAlreadyPresent));
    assert_eq!(snapshot(&g), before);
}

#[test]
fn spawn_on_full_board_is_refused() {
    let mut g = GameDataAccount::new(KILL_REWARD, CHEST_REWARD);
    for x in 0..BOARD_SIZE_X {
        for y in 0..BOARD_SIZE_Y {
            g.set_tile(x, y, chest(3));
        }
    }
    let before = snapshot(&g);
    assert_eq!(g.spawn_player(key(1), key(1)), Err(GameError::BoardFull));
    assert_eq!(g.spawn_chest(key(2)), Err(GameError::BoardFull));
    assert_eq!(snapshot(&g), before);
}

#[test]
fn spawn_chest_on_empty_board() {
    let mut g = GameDataAccount::new(KILL_REWARD, CHEST_REWARD);
    assert_eq!(g.spawn_chest(key(5)), Ok(()));
    // Seed 101, modulo 100, picks cell 41.
    let t = g.tile(4, 1);
    assert_eq!(t.state, STATE_CHEST);
    assert_eq!(t.collect_reward, CHEST_REWARD);
    assert_eq!(t.player, key(5));
    assert_eq!(t.avatar, key(5));
    assert_eq!(count_state(&g, STATE_CHEST), 1);
}

#[test]
fn move_wraps_at_every_edge() {
    let mut g = GameDataAccount::new(KILL_REWARD, CHEST_REWARD);
    let (mut vault, mut bal) = (100u64, 0u64);
    g.set_tile(3, 0, player(key(1), 1, KILL_REWARD));
    assert_eq!(g.move_in_direction(DIR_UP, key(1), &mut vault, &mut bal), Ok(()));
    assert_eq!(g.find(key(1)), Some((3, 9)));
    assert_eq!(g.tile(3, 0), Tile::default());
    assert_eq!(count_state(&g, STATE_PLAYER), 1);
    assert_eq!(g.move_in_direction(DIR_DOWN, key(1), &mut vault, &mut bal), Ok(()));
    assert_eq!(g.find(key(1)), Some((3, 0)));
    g.set_tile(3, 0, Tile::default());
    g.set_tile(9, 5, player(key(1), 1, KILL_REWARD));
    assert_eq!(g.move_in_direction(DIR_RIGHT, key(1), &mut vault, &mut bal), Ok(()));
    assert_eq!(g.find(key(1)), Some((0, 5)));
    assert_eq!(g.move_in_direction(DIR_LEFT, key(1), &mut vault, &mut bal), Ok(()));
    assert_eq!(g.find(key(1)), Some((9, 5)));
    assert_eq!(g.tile(0, 5), Tile::default());
    assert_eq!((vault, bal), (100, 0));
}

#[test]
fn move_into_empty_cell_carries_the_tile() {
    let mut g = GameDataAccount::new(KILL_REWARD, CHEST_REWARD);
    let (mut vault, mut bal) = (100u64, 0u64);
    let p = player(key(1), 7, 33);
    g.set_tile(4, 4, p);
    assert_eq!(g.move_in_direction(DIR_RIGHT, key(1), &mut vault, &mut bal), Ok(()));
    assert_eq!(g.tile(5, 4), p);
    assert_eq!(g.tile(4, 4), Tile::default());
    assert_eq!(count_state(&g, STATE_EMPTY), 99);
}

#[test]
fn move_errors() {
    let mut g = GameDataAccount::new(KILL_REWARD, CHEST_REWARD);
    let (mut vault, mut bal) = (100u64, 0u64);
    assert_eq!(g.move_in_direction(DIR_UP, key(1), &mut vault, &mut bal), Err(GameError::ActorNotOnBoard));
    g.set_tile(4, 4, player(key(1), 1, 10));
    let before = snapshot(&g);
    assert_eq!(g.move_in_direction(4, key(1), &mut vault, &mut bal), Err(GameError::InvalidDirection));
    assert_eq!(snapshot(&g), before);
}

#[test]
fn move_onto_chest_collects_reward() {
    let mut g = GameDataAccount::new(KILL_REWARD, CHEST_REWARD);
    let (mut vault, mut bal) = (10_000u64, 50u64);
    g.set_tile(2, 2, player(key(1), 1, KILL_REWARD));
    g.set_tile(2, 3, chest(700));
    assert_eq!(g.move_in_direction(DIR_DOWN, key(1), &mut vault, &mut bal), Ok(()));
    assert_eq!((vault, bal), (9_300, 750));
    assert_eq!(g.tile(2, 3).state, STATE_PLAYER);
    assert_eq!(g.tile(2, 3).player, key(1));
    assert_eq!(g.tile(2, 2), Tile::default());
    assert_eq!(count_state(&g, STATE_CHEST), 0);
}

#[test]
fn move_onto_player_evicts_and_collects() {
    let mut g = GameDataAccount::new(KILL_REWARD, CHEST_REWARD);
    let (mut vault, mut bal) = (10_000u64, 0u64);
    g.set_tile(2, 2, player(key(1), 1, KILL_REWARD));
    g.set_tile(1, 2, player(key(2), 200, 400));
    assert_eq!(g.move_in_direction(DIR_LEFT, key(1), &mut vault, &mut bal), Ok(()));
    assert_eq!((vault, bal), (9_600, 400));
    assert_eq!(g.find(key(1)), Some((1, 2)));
    assert_eq!(g.find(key(2)), None);
}

#[test]
fn move_without_escrow_funds_is_refused() {
    let mut g = GameDataAccount::new(KILL_REWARD, CHEST_REWARD);
    let (mut vault, mut bal) = (100u64, 0u64);
    g.set_tile(2, 2, player(key(1), 1, KILL_REWARD));
    g.set_tile(2, 1, chest(700));
    let before = snapshot(&g);
    assert_eq!(g.move_in_direction(DIR_UP, key(1), &mut vault, &mut bal), Err(GameError::InsufficientBalance));
    assert_eq!(snapshot(&g), before);
    assert_eq!((vault, bal), (100, 0));
    let (mut vault, mut bal) = (1_000u64, u64::MAX - 5);
    assert_eq!(g.move_in_direction(DIR_UP, key(1), &mut vault, &mut bal), Err(GameError::InsufficientBalance));
    assert_eq!(snapshot(&g), before);
}

#[test]
fn attack_kills_weak_neighbour() {
    let mut g = GameDataAccount::new(KILL_REWARD, CHEST_REWARD);
    let mut log = GameActionHistory::new();
    let (mut vault, mut bal) = (10_000u64, 0u64);
    g.set_tile(4, 4, player(key(1), 1, KILL_REWARD));
    g.set_tile(5, 4, player(key(2), 50, 300));
    assert_eq!(g.shoot(key(1), &mut log, &mut vault, &mut bal), Ok(()));
    assert_eq!(g.tile(5, 4), Tile::default());
    assert_eq!((vault, bal), (9_700, 300));
    assert_eq!(g.action_id(), 1);
    assert_eq!(log.len(), 1);
}

#[test]
fn attack_wounds_sturdy_neighbour() {
    let mut g = GameDataAccount::new(KILL_REWARD, CHEST_REWARD);
    let mut log = GameActionHistory::new();
    let (mut vault, mut bal) = (10_000u64, 0u64);
    g.set_tile(4, 4, player(key(1), 1, KILL_REWARD));
    g.set_tile(4, 5, player(key(2), 80, 300));
    assert_eq!(g.shoot(key(1), &mut log, &mut vault, &mut bal), Ok(()));
    assert_eq!(g.tile(4, 5).health, 30);
    assert_eq!(g.tile(4, 5).state, STATE_PLAYER);
    assert_eq!((vault, bal), (10_000, 0));
}

#[test]
fn attack_hits_left_twice_and_never_up() {
    let mut g = GameDataAccount::new(KILL_REWARD, CHEST_REWARD);
    let mut log = GameActionHistory::new();
    let (mut vault, mut bal) = (10_000u64, 0u64);
    g.set_tile(4, 4, player(key(1), 1, KILL_REWARD));
    g.set_tile(3, 4, player(key(2), 100, 300));
    g.set_tile(4, 3, player(key(3), 1, 500));
    assert_eq!(g.shoot(key(1), &mut log, &mut vault, &mut bal), Ok(()));
    assert_eq!(g.tile(3, 4), Tile::default());
    assert_eq!(g.tile(4, 3), player(key(3), 1, 500));
    assert_eq!((vault, bal), (9_700, 300));
}

#[test]
fn attack_does_not_wrap() {
    let mut g = GameDataAccount::new(KILL_REWARD, CHEST_REWARD);
    let mut log = GameActionHistory::new();
    let (mut vault, mut bal) = (10_000u64, 0u64);
    g.set_tile(9, 9, player(key(1), 1, KILL_REWARD));
    g.set_tile(0, 9, player(key(2), 1, 300));
    g.set_tile(9, 0, player(key(3), 1, 300));
    assert_eq!(g.shoot(key(1), &mut log, &mut vault, &mut bal), Ok(()));
    assert_eq!(count_state(&g, STATE_PLAYER), 3);
    assert_eq!((vault, bal), (10_000, 0));
}

#[test]
fn attack_errors_change_nothing() {
    let mut g = GameDataAccount::new(KILL_REWARD, CHEST_REWARD);
    let mut log = GameActionHistory::new();
    let (mut vault, mut bal) = (100u64, 0u64);
    assert_eq!(g.shoot(key(1), &mut log, &mut vault, &mut bal), Err(GameError::ActorNotOnBoard));
    assert_eq!(log.len(), 0);
    g.set_tile(4, 4, player(key(1), 1, KILL_REWARD));
    g.set_tile(5, 4, player(key(2), 1, 300));
    let before = snapshot(&g);
    assert_eq!(g.shoot(key(1), &mut log, &mut vault, &mut bal), Err(GameError::InsufficientBalance));
    assert_eq!(snapshot(&g), before);
    assert_eq!((vault, bal), (100, 0));
    assert_eq!(log.len(), 0);
    assert_eq!(g.action_id(), 0);
}

#[test]
fn log_evicts_oldest_batch_past_limit() {
    let mut log = GameActionHistory::new();
    let entry = |i: u64| GameAction { action_id: i, action_type: 0, player: key(1), target: key(1), damage: 5 };
    for i in 0..10u64 {
        log.record(entry(i));
    }
    assert_eq!(log.len(), 10);
    log.record(entry(10));
    assert_eq!(log.len(), 11);
    log.record(entry(11));
    assert_eq!(log.len(), 7);
    assert_eq!(log.get(0).action_id, 5);
    assert_eq!(log.get(6).action_id, 11);
    for i in 12..16u64 {
        log.record(entry(i));
    }
    assert_eq!(log.len(), 11);
    log.record(entry(16));
    assert_eq!(log.len(), 7);
    assert_eq!(log.get(0).action_id, 10);
}

#[test]
fn clear_empties_the_board() {
    let mut g = GameDataAccount::new(KILL_REWARD, CHEST_REWARD);
    g.spawn_player(key(1), key(1)).unwrap();
    g.spawn_chest(key(2)).unwrap();
    assert_eq!(g.clear(), Ok(()));
    assert_eq!(count_state(&g, STATE_EMPTY), 100);
    assert_eq!(g.tile(2, 4), Tile::default());
}

#[test]
fn chest_hunt_end_to_end() {
    let mut g = GameDataAccount::new(KILL_REWARD, CHEST_REWARD);
    let (mut vault, mut bal) = (20_000u64, 0u64);
    g.spawn_chest(key(9)).unwrap();
    assert_eq!(g.tile(4, 1).state, STATE_CHEST);
    g.spawn_player(key(1), key(1)).unwrap();
    // 99 empty cells: seed 99 picks the fifth empty cell, (0, 4).
    assert_eq!(g.find(key(1)), Some((0, 4)));
    assert_eq!(g.tile(0, 4).health, 1);
    for _ in 0..4 {
        g.move_in_direction(DIR_RIGHT, key(1), &mut vault, &mut bal).unwrap();
    }
    assert_eq!((vault, bal), (20_000, 0));
    for _ in 0..3 {
        g.move_in_direction(DIR_UP, key(1), &mut vault, &mut bal).unwrap();
    }
    assert_eq!(g.find(key(1)), Some((4, 1)));
    assert_eq!((vault, bal), (20_000 - CHEST_REWARD, CHEST_REWARD));
    assert_eq!(count_state(&g, STATE_CHEST), 0);
    assert_eq!(count_state(&g, STATE_PLAYER), 1);
}

#[test]
fn repeated_attack_logs_fixed_damage() {
    let mut g = GameDataAccount::new(KILL_REWARD, CHEST_REWARD);
    let mut log = GameActionHistory::new();
    let (mut vault, mut bal) = (10_000u64, 0u64);
    g.set_tile(4, 4, player(key(1), 1, KILL_REWARD));
    g.set_tile(4, 5, player(key(2), 1, KILL_REWARD));
    for call in 1..=3u64 {
        assert_eq!(g.shoot(key(1), &mut log, &mut vault, &mut bal), Ok(()));
        assert_eq!(g.tile(4, 5), Tile::default());
        assert_eq!(log.len() as u64, call);
        let last = log.get(log.len() - 1);
        assert_eq!(last, GameAction { action_id: call, action_type: 0, player: key(1), target: key(1), damage: 5 });
    }
    assert_eq!((vault, bal), (10_000 - KILL_REWARD, KILL_REWARD));
    assert_eq!(g.find(key(1)), Some((4, 4)));
}
