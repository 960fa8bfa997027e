//! The bounded log of recent actions.
use crate::tile::Pubkey;
use vstd::prelude::*;

verus! {

/// A log longer than this is trimmed before the next entry goes in.
pub const LOG_LIMIT: usize = 10;

/// How many of the oldest entries one trim removes.
pub const EVICT_BATCH: usize = 5;

/// One recorded action.
#[derive(Clone, Copy, Debug, PartialEq, Eq, Structural)]
pub struct GameAction {
    pub action_id: u64,
    pub action_type: u8,
    pub player: Pubkey,
    pub target: Pubkey,
    pub damage: u64,
}

/// The recent actions, oldest first.
pub struct GameActionHistory {
    pub id_counter: u64,
    pub game_actions: Vec<GameAction>,
}

/// The log after `a` is recorded: a log longer than the limit first loses its
/// oldest batch of entries, then `a` goes at the end.
pub open spec fn recorded(log: Seq<GameAction>, a: GameAction) -> Seq<GameAction> {
    if log.len() > LOG_LIMIT {
        log.subrange(EVICT_BATCH as int, log.len() as int).push(a)
    } else {
        log.push(a)
    }
}

impl View for GameActionHistory {
    type V = Seq<GameAction>;

    open spec fn view(&self) -> Seq<GameAction> {
        self.game_actions@
    }
}

impl GameActionHistory {
    pub fn new() -> (h: GameActionHistory)
        ensures
            h@ == Seq::<GameAction>::empty(),
            h.id_counter == 0,
    {
        GameActionHistory { id_counter: 0, game_actions: Vec::new() }
    }

    pub fn len(&self) -> (n: usize)
        ensures
            n == self@.len(),
    {
        self.game_actions.len()
    }

    pub fn get(&self, i: usize) -> (a: GameAction)
        requires
            i < self@.len(),
        ensures
            a == self@[i as int],
    {
        self.game_actions[i]
    }

    /// Appends `a`, first evicting the oldest batch when the log is over the limit.
    pub fn record(&mut self, a: GameAction)
        requires
            old(self)@.len() < usize::MAX,
        ensures
            final(self)@ == recorded(old(self)@, a),
            final(self).id_counter == old(self).id_counter,
    {
        if self.game_actions.len() > LOG_LIMIT {
            let mut k: usize = 0;
            while k < EVICT_BATCH
                invariant
                    k <= EVICT_BATCH,
                    old(self)@.len() > LOG_LIMIT,
                    self.id_counter == old(self).id_counter,
                    self@ == old(self)@.subrange(k as int, old(self)@.len() as int),
                decreases EVICT_BATCH - k,
            {
                self.game_actions.remove(0);
                k = k + 1;
            }
        }
        self.game_actions.push(a);
    }
}

/// Recording into a log of at most the limit, or of one more than the limit,
/// leaves at most one more than the limit; and the log stays within the
/// limit except when it held exactly the limit before.
pub proof fn lemma_record_bounded(log: Seq<GameAction>, a: GameAction)
    requires
        log.len() <= LOG_LIMIT + 1,
    ensures
        recorded(log, a).len() <= LOG_LIMIT + 1,
        log.len() != LOG_LIMIT ==> recorded(log, a).len() <= LOG_LIMIT,
{
}

/// Crossing the limit evicts exactly the oldest batch, [0, 5), in one go:
/// what remains is the rest of the old log in order, followed by the new entry.
pub proof fn lemma_record_evicts_batch(log: Seq<GameAction>, a: GameAction)
    requires
        log.len() > LOG_LIMIT,
    ensures
        recorded(log, a).len() == log.len() - EVICT_BATCH + 1,
        forall|i: int| 0 <= i < log.len() - EVICT_BATCH ==> #[trigger] recorded(log, a)[i] == log[i + EVICT_BATCH],
        recorded(log, a).last() == a,
{
}

} // verus!
