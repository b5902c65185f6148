//! Move-choosing bots and the registry that serves them by name.

pub mod greedy;
pub mod mcts;

use crate::coords::Coordinates;
use crate::coords::coords_valid;
use crate::coords::index_of;
use crate::game::GameY;
use crate::game::avail_spec;
use crate::game::lemma_avail_upto_props;
use crate::rng::rand_below;
use crate::text::str_eq;
use vstd::prelude::*;
use vstd::string::StringExecFns;

verus! {

/// A move chooser: anything that can pick one available cell of a game, or
/// decline when none is available.
pub trait YBot {
    /// The registry name of the bot.
    fn name(&self) -> (r: String);

    /// Picks a cell to claim: always an empty cell of the board, and
    /// nothing when the board is full.
    fn choose_move(&self, board: &GameY) -> (r: Option<Coordinates>)
        requires
            board.wf(),
        ensures
            r matches Some(c) ==> coords_valid(c, board.size_spec()) && board.occ()[index_of(
                c,
                board.size_spec(),
            )] is None,
            avail_spec(board.occ()).len() == 0 ==> r is None,
    ;
}

/// Chooses uniformly at random among the available cells.
#[derive(Clone, Copy)]
pub struct RandomBot;

impl YBot for RandomBot {
    fn name(&self) -> (r: String)
        ensures
            r@ == "random_bot"@,
    {
        "random_bot".to_owned()
    }

    /// Returns a uniformly random available cell whenever one exists.
    fn choose_move(&self, board: &GameY) -> (r: Option<Coordinates>)
        ensures
            avail_spec(board.occ()).len() > 0 ==> r is Some,
    {
        let avail = board.available_cells();
        if avail.len() == 0 {
            None
        } else {
            proof {
                lemma_avail_upto_props(board.occ(), board.occ().len() as int);
            }
            let k = rand_below(avail.len() as u32);
            let idx = avail[k as usize];
            Some(Coordinates::from_index(idx, board.board_size()))
        }
    }
}

/// The name a bot answers to in the registry.
pub open spec fn bot_name(b: AnyBot) -> Seq<char> {
    match b {
        AnyBot::Random(_) => "random_bot"@,
        AnyBot::Greedy(_) => "greedy_bot"@,
        AnyBot::Mcts(_) => "mcts_bot"@,
    }
}

/// Any of the bots the crate ships, as one value the registry can hold.
#[derive(Clone, Copy)]
pub enum AnyBot {
    Random(RandomBot),
    Greedy(greedy::GreedyBot),
    Mcts(mcts::MctsBot),
}

impl YBot for AnyBot {
    fn name(&self) -> (r: String)
        ensures
            r@ == bot_name(*self),
    {
        match self {
            AnyBot::Random(b) => b.name(),
            AnyBot::Greedy(b) => b.name(),
            AnyBot::Mcts(b) => b.name(),
        }
    }

    /// Every shipped bot finds a move while the game goes on and a cell is
    /// free.
    fn choose_move(&self, board: &GameY) -> (r: Option<Coordinates>)
        ensures
            (avail_spec(board.occ()).len() > 0 && board.status_spec() matches
                crate::game::GameStatus::Ongoing { .. }) ==> r is Some,
    {
        match self {
            AnyBot::Random(b) => b.choose_move(board),
            AnyBot::Greedy(b) => b.choose_move(board),
            AnyBot::Mcts(b) => b.choose_move(board),
        }
    }
}

/// The bot at position `k` is the first of its name in the registry.
pub open spec fn found_at(bots: Seq<AnyBot>, name: Seq<char>, k: int) -> bool {
    &&& 0 <= k < bots.len()
    &&& bot_name(bots[k]) == name
    &&& forall|j: int| 0 <= j < k ==> bot_name(#[trigger] bots[j]) != name
}

/// Maps bot names to bots, for the front ends to dispatch on.
pub struct YBotRegistry {
    bots: Vec<AnyBot>,
}

impl YBotRegistry {
    /// The registered bots, in registration order.
    pub closed spec fn bots_spec(&self) -> Seq<AnyBot> {
        self.bots@
    }

    /// An empty registry.
    pub fn new() -> (r: YBotRegistry)
        ensures
            r.bots_spec() == Seq::<AnyBot>::empty(),
    {
        YBotRegistry { bots: Vec::new() }
    }

    /// Adds one bot at the end of the registry.
    pub fn with_bot(self, bot: AnyBot) -> (r: YBotRegistry)
        ensures
            r.bots_spec() == self.bots_spec().push(bot),
    {
        let mut bots = self.bots;
        bots.push(bot);
        YBotRegistry { bots }
    }

    /// Looks a bot up by name: the first registered bot of that name, or
    /// nothing when the name is unknown.
    pub fn find(&self, name: &str) -> (r: Option<AnyBot>)
        ensures
            r matches Some(b) ==> exists|k: int|
                #[trigger] found_at(self.bots_spec(), name@, k) && b == self.bots_spec()[k],
            r is None ==> forall|k: int|
                0 <= k < self.bots_spec().len() ==> bot_name(#[trigger] self.bots_spec()[k])
                    != name@,
    {
        let mut k: usize = 0;
        while k < self.bots.len()
            invariant
                k <= self.bots@.len(),
                forall|j: int| 0 <= j < k ==> bot_name(#[trigger] self.bots@[j]) != name@,
            decreases self.bots@.len() - k,
        {
            let b = self.bots[k];
            let nm = b.name();
            if str_eq(nm.as_str(), name) {
                proof {
                    let ghost ki = k as int;
                    assert(found_at(self.bots_spec(), name@, ki));
                    assert(b == self.bots_spec()[ki]);
                }
                return Some(b);
            }
            k = k + 1;
        }
        None
    }

    /// The names of all registered bots, in registration order.
    pub fn names(&self) -> (r: Vec<String>)
        ensures
            r@.len() == self.bots_spec().len(),
            forall|k: int|
                0 <= k < r@.len() ==> (#[trigger] r@[k])@ == bot_name(self.bots_spec()[k]),
    {
        let mut out: Vec<String> = Vec::new();
        let mut k: usize = 0;
        while k < self.bots.len()
            invariant
                k <= self.bots@.len(),
                out@.len() == k,
                forall|j: int| 0 <= j < k ==> (#[trigger] out@[j])@ == bot_name(self.bots@[j]),
            decreases self.bots@.len() - k,
        {
            let b = self.bots[k];
            out.push(b.name());
            k = k + 1;
        }
        out
    }
}

} // verus!
