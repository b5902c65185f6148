//! The compact exchange form of a game: board size plus full move history.
//!
//! Replaying the history reconstructs occupancy, connectivity and status
//! exactly, so this form is lossless; see
//! [`lemma_replay_deterministic`](crate::game::lemma_replay_deterministic).

use crate::game::GameY;
use crate::game::GameYError;
use crate::game::Movement;
use crate::game::replay_model;
use crate::game::size_ok;
use vstd::prelude::*;

verus! {

/// A game, flattened to what determines it: board size and move history.
#[derive(Debug)]
pub struct YEN {
    pub size: u32,
    pub moves: Vec<Movement>,
}

impl YEN {
    /// The board size the notation carries.
    pub fn size(&self) -> (r: u32)
        ensures
            r == self.size,
    {
        self.size
    }

    /// Flattens a game to its exchange form.
    pub fn from_game(game: &GameY) -> (r: YEN)
        requires
            game.wf(),
        ensures
            r.size == game.size_spec(),
            r.moves@ == game.hist(),
    {
        YEN { size: game.board_size(), moves: game.history_vec() }
    }
}

/// A rejected history stays rejected under any extension: replay fails on
/// the whole once it fails on a prefix.
pub proof fn lemma_replay_prefix_none(size: u32, moves: Seq<Movement>, j: int)
    requires
        0 <= j <= moves.len(),
        replay_model(size, moves.subrange(0, j)) is None,
    ensures
        replay_model(size, moves) is None,
    decreases moves.len() - j,
{
    if j == moves.len() {
        assert(moves.subrange(0, j) =~= moves);
    } else {
        assert(moves.subrange(0, j + 1).drop_last() =~= moves.subrange(0, j));
        assert(replay_model(size, moves.subrange(0, j + 1)) is None);
        lemma_replay_prefix_none(size, moves, j + 1);
    }
}

impl GameY {
    /// Rebuilds a game from its exchange form by replaying the history on a
    /// fresh board.  Succeeds exactly when the size is usable and every move
    /// of the history is legal in turn; the first rejection is reported.
    pub fn try_from_yen(yen: &YEN) -> (r: Result<GameY, GameYError>)
        ensures
            r matches Ok(g) ==> g.wf() && g.size_spec() == yen.size && g.hist() == yen.moves@
                && replay_model(yen.size, yen.moves@) == Some(g.model()),
            r is Err <==> replay_model(yen.size, yen.moves@) is None,
            !size_ok(yen.size) ==> (r matches Err(e) && e matches GameYError::InvalidBoardSize),
    {
        let mut game = match GameY::try_new(yen.size) {
            Ok(g) => g,
            Err(e) => {
                return Err(e);
            },
        };
        let mut k: usize = 0;
        while k < yen.moves.len()
            invariant
                game.wf(),
                game.size_spec() == yen.size,
                k <= yen.moves@.len(),
                game.hist() == yen.moves@.subrange(0, k as int),
            decreases yen.moves@.len() - k,
        {
            let ghost pre = game.hist();
            match game.add_move(yen.moves[k]) {
                Ok(()) => {
                    proof {
                        assert(game.hist() =~= yen.moves@.subrange(0, k + 1 as int));
                    }
                },
                Err(e) => {
                    proof {
                        let prefix = yen.moves@.subrange(0, k + 1 as int);
                        assert(prefix.drop_last() =~= pre);
                        assert(replay_model(yen.size, prefix) is None);
                        lemma_replay_prefix_none(yen.size, yen.moves@, k + 1 as int);
                    }
                    return Err(e);
                },
            }
            k = k + 1;
        }
        proof {
            assert(yen.moves@.subrange(0, yen.moves@.len() as int) =~= yen.moves@);
        }
        Ok(game)
    }
}

} // verus!
