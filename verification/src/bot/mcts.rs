//! The search bot: Monte-Carlo playouts over cloned games.
//!
//! For each available cell the bot plays a share of its iteration budget
//! out at random on independent copies of the game and counts wins for the
//! acting player.  It returns the first candidate with the strictly highest
//! win count.  Every candidate gets the same number of trials, so comparing
//! counts compares win rates; a candidate whose trials are zero counts as
//! never winning.

use crate::bot::YBot;
use crate::coords::Coordinates;
use crate::coords::coords_valid;
use crate::coords::index_of;
use crate::game::GameStatus;
use crate::game::GameY;
use crate::game::Movement;
use crate::game::PlayerId;
use crate::game::avail_spec;
use crate::game::empties;
use crate::game::lemma_avail_upto_props;
use crate::game::lemma_empties_update;
use crate::rng::rand_below;
use vstd::prelude::*;

verus! {

/// The search bot, with its per-decision iteration budget.
#[derive(Clone, Copy)]
pub struct MctsBot {
    iterations: u32,
}

impl MctsBot {
    /// The iteration budget the bot was built with.
    pub closed spec fn iterations_spec(&self) -> u32 {
        self.iterations
    }

    /// Builds a search bot with the given iteration budget.
    pub fn new(iterations: u32) -> (r: MctsBot)
        ensures
            r.iterations_spec() == iterations,
    {
        MctsBot { iterations }
    }

    /// Plays a game out with uniformly random placements until it finishes,
    /// and reports the winner; a board that fills with no winner yields
    /// nothing.  Which winner a still-open game yields depends on the
    /// random draws, so only the chance-free part is promised: a board
    /// already decided yields its winner, a full undecided board yields
    /// nothing, and any reported winner is one of the two players.
    fn simulate(&self, virtual_board: GameY) -> (r: Option<PlayerId>)
        requires
            virtual_board.wf(),
        ensures
            (virtual_board.status_spec() matches GameStatus::Finished { winner } ==> r == Some(
                winner,
            )),
            (virtual_board.status_spec() matches GameStatus::Ongoing { .. } && avail_spec(
                virtual_board.occ(),
            ).len() == 0) ==> r is None,
            r matches Some(w) ==> w.id < 2,
    {
        let mut board = virtual_board;
        loop
            invariant
                board.wf(),
                (virtual_board.status_spec() matches GameStatus::Finished { .. })
                    ==> board.status_spec() == virtual_board.status_spec(),
                (virtual_board.status_spec() matches GameStatus::Ongoing { .. } && avail_spec(
                    virtual_board.occ(),
                ).len() == 0) ==> (board.status_spec() == virtual_board.status_spec()
                    && board.occ() == virtual_board.occ()),
            decreases empties(board.occ(), board.occ().len() as int),
        {
            match board.status() {
                GameStatus::Finished { winner } => {
                    proof {
                        crate::winning::lemma_replay_players(board.size_spec(), board.hist());
                    }
                    return Some(winner);
                },
                GameStatus::Ongoing { next_player } => {
                    let avail = board.available_cells();
                    if avail.len() == 0 {
                        return None;
                    }
                    proof {
                        lemma_avail_upto_props(board.occ(), board.occ().len() as int);
                    }
                    let k = rand_below(avail.len() as u32);
                    let idx = avail[k as usize];
                    let coords = Coordinates::from_index(idx, board.board_size());
                    let ghost pre = board.model();
                    let res = board.add_move(Movement::Placement { player: next_player, coords });
                    proof {
                        assert(res is Ok);
                        lemma_empties_update(pre.occ, idx as int, next_player, pre.occ.len() as int);
                        lemma_avail_upto_props(board.occ(), board.occ().len() as int);
                    }
                },
            }
        }
    }
}

impl YBot for MctsBot {
    fn name(&self) -> (r: String)
        ensures
            r@ == "mcts_bot"@,
    {
        "mcts_bot".to_owned()
    }

    /// Returns an available cell whenever the game goes on and one is
    /// available, and nothing otherwise: which cell comes back depends on
    /// the random playouts.
    fn choose_move(&self, board: &GameY) -> (r: Option<Coordinates>)
        ensures
            r is Some <==> (avail_spec(board.occ()).len() > 0 && board.status_spec() matches
                GameStatus::Ongoing { .. }),
    {
        let my_player = match board.status() {
            GameStatus::Ongoing { next_player } => next_player,
            GameStatus::Finished { .. } => {
                return None;
            },
        };
        let avail = board.available_cells();
        if avail.len() == 0 {
            return None;
        }
        proof {
            lemma_avail_upto_props(board.occ(), board.occ().len() as int);
        }
        let size = board.board_size();
        let trials = self.iterations / (avail.len() as u32);
        let mut best: Option<Coordinates> = None;
        let mut best_wins: u32 = 0;
        let mut ci: usize = 0;
        while ci < avail.len()
            invariant
                board.wf(),
                avail@ == avail_spec(board.occ()),
                size == board.size_spec(),
                board.status_spec() == (GameStatus::Ongoing { next_player: my_player }),
                ci <= avail@.len(),
                ci > 0 ==> best is Some,
                best matches Some(c) ==> coords_valid(c, size) && board.occ()[index_of(
                    c,
                    size,
                )] is None,
            decreases avail@.len() - ci,
        {
            proof {
                lemma_avail_upto_props(board.occ(), board.occ().len() as int);
            }
            let idx = avail[ci];
            let coords = Coordinates::from_index(idx, size);
            let mut wins: u32 = 0;
            let mut t: u32 = 0;
            while t < trials
                invariant
                    board.wf(),
                    size == board.size_spec(),
                    board.status_spec() == (GameStatus::Ongoing { next_player: my_player }),
                    coords_valid(coords, size),
                    board.occ()[index_of(coords, size)] is None,
                    t <= trials,
                    wins <= t,
                decreases trials - t,
            {
                let mut sim = board.duplicate();
                let res = sim.add_move(Movement::Placement { player: my_player, coords });
                proof {
                    assert(res is Ok);
                }
                match self.simulate(sim) {
                    Some(w) => {
                        if w == my_player {
                            wins = wins + 1;
                        }
                    },
                    None => {},
                }
                t = t + 1;
            }
            let better = match best {
                None => true,
                Some(_) => wins > best_wins,
            };
            if better {
                best = Some(coords);
                best_wins = wins;
            }
            ci = ci + 1;
        }
        best
    }
}

} // verus!
