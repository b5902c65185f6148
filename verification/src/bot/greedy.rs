//! The heuristic bot: a stateless scorer over the available cells.
//!
//! Lower scores are better.  The score rewards proximity to some side and
//! balanced, central positions, and penalises pure corners, which are
//! locally inflexible.  The bot returns the first available cell with the
//! least score.

use crate::bot::YBot;
use crate::coords::Coordinates;
use crate::coords::coords_of;
use crate::coords::lemma_coords_of;
use crate::coords::tri;
use crate::coords::zero_count;
use crate::game::GameY;
use crate::game::PlayerId;
use crate::game::avail_spec;
use crate::game::lemma_avail_upto_props;
use vstd::prelude::*;

verus! {

/// The least of the three side distances.
pub open spec fn min3(c: Coordinates) -> int {
    if c.x <= c.y && c.x <= c.z {
        c.x as int
    } else if c.y <= c.z {
        c.y as int
    } else {
        c.z as int
    }
}

/// The greatest of the three side distances.
pub open spec fn max3(c: Coordinates) -> int {
    if c.x >= c.y && c.x >= c.z {
        c.x as int
    } else if c.y >= c.z {
        c.y as int
    } else {
        c.z as int
    }
}

/// A pure corner: the cell touches two sides at once.
pub open spec fn is_dead_corner(c: Coordinates) -> bool {
    (c.x == 0 && c.y == 0) || (c.y == 0 && c.z == 0) || (c.x == 0 && c.z == 0)
}

/// The heuristic score of a cell; lower is better.  Proximity to some side
/// counts 15 per step, a pure corner costs a flat 25, and imbalance costs
/// 5 per step of spread.
pub open spec fn greedy_score(c: Coordinates) -> int {
    15 * min3(c) + (if is_dead_corner(c) {
        25int
    } else {
        0int
    }) + 5 * (max3(c) - min3(c))
}

/// The cell at position `k` of the available list is the bot's choice: no
/// available cell scores lower, and every earlier one scores strictly
/// higher.
pub open spec fn greedy_choice_at(
    occ: Seq<Option<PlayerId>>,
    size: u32,
    c: Coordinates,
    k: int,
) -> bool {
    let avail = avail_spec(occ);
    &&& 0 <= k < avail.len()
    &&& c == coords_of(avail[k] as int, size)
    &&& forall|j: int|
        0 <= j < avail.len() ==> greedy_score(coords_of((#[trigger] avail[j]) as int, size))
            >= greedy_score(c)
    &&& forall|j: int|
        0 <= j < k ==> greedy_score(coords_of((#[trigger] avail[j]) as int, size)) > greedy_score(
            c,
        )
}

/// What the heuristic bot picks: the first available cell of least score.
pub open spec fn is_greedy_choice(occ: Seq<Option<PlayerId>>, size: u32, c: Coordinates) -> bool {
    exists|k: int| greedy_choice_at(occ, size, c, k)
}

/// Computes the heuristic score of a cell.
fn score_of(c: &Coordinates) -> (r: u64)
    ensures
        r as int == greedy_score(*c),
{
    let x = c.x();
    let y = c.y();
    let z = c.z();
    let mn: u32 = if x <= y && x <= z {
        x
    } else if y <= z {
        y
    } else {
        z
    };
    let mx: u32 = if x >= y && x >= z {
        x
    } else if y >= z {
        y
    } else {
        z
    };
    let corner: u64 = if (x == 0 && y == 0) || (y == 0 && z == 0) || (x == 0 && z == 0) {
        25
    } else {
        0
    };
    15 * (mn as u64) + corner + 5 * ((mx - mn) as u64)
}

/// The heuristic bot.
#[derive(Clone, Copy)]
pub struct GreedyBot;

impl YBot for GreedyBot {
    fn name(&self) -> (r: String)
        ensures
            r@ == "greedy_bot"@,
    {
        "greedy_bot".to_owned()
    }

    /// Returns the first available cell with the least heuristic score, or
    /// nothing when the board is full.
    fn choose_move(&self, board: &GameY) -> (r: Option<Coordinates>)
        ensures
            avail_spec(board.occ()).len() > 0 ==> (r matches Some(c) && is_greedy_choice(
                board.occ(),
                board.size_spec(),
                c,
            )),
    {
        let avail = board.available_cells();
        if avail.len() == 0 {
            return None;
        }
        proof {
            lemma_avail_upto_props(board.occ(), board.occ().len() as int);
        }
        let size = board.board_size();
        let mut best = Coordinates::from_index(avail[0], size);
        let mut best_score = score_of(&best);
        let ghost mut best_k: int = 0;
        let mut j: usize = 1;
        while j < avail.len()
            invariant
                board.wf(),
                avail@ == avail_spec(board.occ()),
                size == board.size_spec(),
                1 <= j <= avail@.len(),
                0 <= best_k < j,
                best == coords_of(avail@[best_k] as int, size),
                best_score as int == greedy_score(best),
                forall|t: int|
                    0 <= t < j ==> greedy_score(coords_of((#[trigger] avail@[t]) as int, size))
                        >= greedy_score(best),
                forall|t: int|
                    0 <= t < best_k ==> greedy_score(coords_of((#[trigger] avail@[t]) as int, size))
                        > greedy_score(best),
            decreases avail@.len() - j,
        {
            proof {
                lemma_avail_upto_props(board.occ(), board.occ().len() as int);
            }
            let c = Coordinates::from_index(avail[j], size);
            let sc = score_of(&c);
            if sc < best_score {
                best = c;
                best_score = sc;
                proof {
                    best_k = j as int;
                }
            }
            j = j + 1;
        }
        proof {
            lemma_avail_upto_props(board.occ(), board.occ().len() as int);
            lemma_coords_of(avail@[best_k] as int, size);
            assert(greedy_choice_at(board.occ(), size, best, best_k));
        }
        Some(best)
    }
}

/// On an empty board of size 7 the heuristic never picks a cell that
/// touches two sides: a balanced interior cell always scores strictly
/// better than any pure corner.
pub proof fn lemma_greedy_avoids_corners(occ: Seq<Option<PlayerId>>, c: Coordinates)
    requires
        occ.len() == tri(7),
        forall|i: int| 0 <= i < occ.len() ==> (#[trigger] occ[i]) is None,
        is_greedy_choice(occ, 7u32, c),
    ensures
        zero_count(c) < 2,
{
    let size: u32 = 7;
    let avail = avail_spec(occ);
    reveal_with_fuel(tri, 9);
    reveal_with_fuel(crate::coords::row_of, 6);
    assert(tri(7) == 28);
    lemma_avail_identity(occ, occ.len() as int);
    lemma_avail_upto_props(occ, occ.len() as int);
    let k = choose|k: int| greedy_choice_at(occ, size, c, k);
    // The balanced cell in row 2, column 1 has coordinates (4, 1, 1) and
    // score 30.
    assert(crate::coords::row_of(4) == 2);
    assert(avail[4] == 4u32);
    assert(coords_of(4, size) == (Coordinates { x: 4, y: 1, z: 1 }));
    assert(greedy_score(Coordinates { x: 4, y: 1, z: 1 }) == 30);
    assert(greedy_score(c) <= 30);
    lemma_coords_of(avail[k] as int, size);
    if zero_count(c) == 2 {
        crate::coords::lemma_zero_coordinates(c, size);
        assert(greedy_score(c) == 55);
    }
}

/// On a fully empty board the available list is the identity: cell `k` sits
/// at position `k`.
proof fn lemma_avail_identity(occ: Seq<Option<PlayerId>>, n: int)
    requires
        0 <= n <= occ.len(),
        n <= u32::MAX,
        forall|i: int| 0 <= i < occ.len() ==> (#[trigger] occ[i]) is None,
    ensures
        crate::game::avail_upto(occ, n).len() == n,
        forall|k: int| 0 <= k < n ==> #[trigger] crate::game::avail_upto(occ, n)[k] == k,
    decreases n,
{
    if n > 0 {
        lemma_avail_identity(occ, n - 1);
        let prev = crate::game::avail_upto(occ, n - 1);
        let cur = crate::game::avail_upto(occ, n);
        assert(cur == prev.push((n - 1) as u32));
        assert forall|k: int| 0 <= k < n implies #[trigger] cur[k] == k by {
            if k < n - 1 {
                assert(cur[k] == prev[k]);
            } else {
                assert(cur[k] == (n - 1) as u32);
            }
        }
    }
}

} // verus!
