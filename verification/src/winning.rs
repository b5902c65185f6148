//! The side-connectivity laws of the game, proved for every board size and
//! every order of moves.
//!
//! The links a game records are complete and sound: they join every pair of
//! adjacent same-player cells and tie every cell to the anchors of exactly
//! the sides its player touches.  Two laws follow.  A player who holds one
//! whole side of the board has connected all three sides, since the side's
//! corner cells touch the other two sides and the side is a joined chain.
//! And a player with no cell on some side has not connected all three: that
//! side's anchor stands in none of the player's links.

use crate::connectivity::joined;
use crate::connectivity::lemma_joined_concat;
use crate::connectivity::lemma_joined_equivalence;
use crate::connectivity::lemma_link_joined;
use crate::connectivity::lemma_unmentioned_isolated;
use crate::coords::Coordinates;
use crate::coords::adjacent;
use crate::coords::coords_of;
use crate::coords::coords_valid;
use crate::coords::index_of;
use crate::coords::lemma_adjacent_sym;
use crate::coords::lemma_coords_of;
use crate::coords::lemma_index_of_bound;
use crate::coords::lemma_index_of_injective;
use crate::coords::nbr;
use crate::coords::tri;
use crate::game::GameModel;
use crate::game::GameStatus;
use crate::game::Movement;
use crate::game::PlayerId;
use crate::game::all_anchors_joined;
use crate::game::anchor;
use crate::game::dir_links;
use crate::game::lemma_place_links_has_anchor;
use crate::game::lemma_place_links_has_dir;
use crate::game::lemma_replay_dimensions;
use crate::game::place_links;
use crate::game::replay_model;
use crate::game::step_model;
use vstd::prelude::*;

verus! {

/// The link sequence of one player's tracker in a model.
pub open spec fn links_of(m: GameModel, player: PlayerId) -> Seq<(int, int)> {
    if player.id == 0 {
        m.links0
    } else {
        m.links1
    }
}

/// The links of a model join every pair of adjacent cells of one player,
/// and every cell to the anchor of each side it touches.
pub open spec fn links_complete(m: GameModel) -> bool {
    &&& forall|i: int, j: int|
        0 <= i < m.occ.len() && 0 <= j < m.occ.len() && m.occ[i] is Some && m.occ[i] == m.occ[j]
            && #[trigger] adjacent(coords_of(i, m.size), coords_of(j, m.size)) ==> joined(
            links_of(m, m.occ[i]->Some_0),
            i,
            j,
        )
    &&& forall|i: int|
        0 <= i < m.occ.len() && (#[trigger] m.occ[i]) is Some && coords_of(i, m.size).x == 0
            ==> joined(links_of(m, m.occ[i]->Some_0), i, anchor(m.occ.len() as int, 0))
    &&& forall|i: int|
        0 <= i < m.occ.len() && (#[trigger] m.occ[i]) is Some && coords_of(i, m.size).y == 0
            ==> joined(links_of(m, m.occ[i]->Some_0), i, anchor(m.occ.len() as int, 1))
    &&& forall|i: int|
        0 <= i < m.occ.len() && (#[trigger] m.occ[i]) is Some && coords_of(i, m.size).z == 0
            ==> joined(links_of(m, m.occ[i]->Some_0), i, anchor(m.occ.len() as int, 2))
}

/// Every reachable game keeps its links complete: each placement links the
/// new cell to all the same-player neighbours it has at that moment and to
/// the sides it touches, and what was joined stays joined.
pub proof fn lemma_replay_links_complete(size: u32, moves: Seq<Movement>)
    requires
        replay_model(size, moves) is Some,
    ensures
        links_complete(replay_model(size, moves)->Some_0),
    decreases moves.len(),
{
    let m1 = replay_model(size, moves)->Some_0;
    lemma_replay_dimensions(size, moves);
    if moves.len() == 0 {
        assert forall|i: int| 0 <= i < m1.occ.len() implies !((#[trigger] m1.occ[i]) is Some) by {
        }
    } else {
        lemma_replay_links_complete(size, moves.drop_last());
        lemma_replay_dimensions(size, moves.drop_last());
        let m0 = replay_model(size, moves.drop_last())->Some_0;
        match moves.last() {
            Movement::Action { .. } => {
                assert(m1.occ == m0.occ && m1.size == m0.size && m1.links0 == m0.links0
                    && m1.links1 == m0.links1);
            },
            Movement::Placement { player, coords } => {
                assert(step_model(m0, moves.last()) is Ok);
                assert(coords_valid(coords, size));
                lemma_index_of_bound(coords, size);
                let i0 = index_of(coords, size);
                lemma_coords_of(i0, size);
                lemma_index_of_injective(coords_of(i0, size), coords, size);
                assert(coords_of(i0, size) == coords);
                let pl = place_links(m0.occ, size, player, coords);
                let base = links_of(m0, player);
                assert(links_of(m1, player) == base + pl);
                assert(m1.occ == m0.occ.update(i0, Some(player)));

                assert forall|i: int, j: int|
                    0 <= i < m1.occ.len() && 0 <= j < m1.occ.len() && m1.occ[i] is Some
                        && m1.occ[i] == m1.occ[j] && #[trigger] adjacent(
                        coords_of(i, m1.size),
                        coords_of(j, m1.size),
                    ) implies joined(links_of(m1, m1.occ[i]->Some_0), i, j) by {
                    lemma_pair_case(m0, m1, player, coords, i, j);
                }

                assert forall|i: int|
                    0 <= i < m1.occ.len() && (#[trigger] m1.occ[i]) is Some && coords_of(
                        i,
                        m1.size,
                    ).x == 0 implies joined(
                    links_of(m1, m1.occ[i]->Some_0),
                    i,
                    anchor(m1.occ.len() as int, 0),
                ) by {
                    lemma_anchor_case(m0, m1, player, coords, i, 0);
                }
                assert forall|i: int|
                    0 <= i < m1.occ.len() && (#[trigger] m1.occ[i]) is Some && coords_of(
                        i,
                        m1.size,
                    ).y == 0 implies joined(
                    links_of(m1, m1.occ[i]->Some_0),
                    i,
                    anchor(m1.occ.len() as int, 1),
                ) by {
                    lemma_anchor_case(m0, m1, player, coords, i, 1);
                }
                assert forall|i: int|
                    0 <= i < m1.occ.len() && (#[trigger] m1.occ[i]) is Some && coords_of(
                        i,
                        m1.size,
                    ).z == 0 implies joined(
                    links_of(m1, m1.occ[i]->Some_0),
                    i,
                    anchor(m1.occ.len() as int, 2),
                ) by {
                    lemma_anchor_case(m0, m1, player, coords, i, 2);
                }
            },
        }
    }
}

/// The adjacent-pair clause of [`links_complete`], carried over one
/// placement.
proof fn lemma_pair_case(
    m0: GameModel,
    m1: GameModel,
    player: PlayerId,
    coords: Coordinates,
    i: int,
    j: int,
)
    requires
        links_complete(m0),
        m0.size == m1.size,
        m0.occ.len() == m1.occ.len(),
        m0.occ.len() == tri(m0.size as int),
        coords_valid(coords, m0.size),
        crate::coords::coord_size_ok(m0.size),
        m1.occ == m0.occ.update(index_of(coords, m0.size), Some(player)),
        links_of(m1, player) == links_of(m0, player) + place_links(
            m0.occ,
            m0.size,
            player,
            coords,
        ),
        links_of(m1, player.other_spec()) == links_of(m0, player.other_spec()),
        0 <= i < m1.occ.len(),
        0 <= j < m1.occ.len(),
        m1.occ[i] is Some,
        m1.occ[i] == m1.occ[j],
        adjacent(coords_of(i, m1.size), coords_of(j, m1.size)),
    ensures
        joined(links_of(m1, m1.occ[i]->Some_0), i, j),
{
    let size = m0.size;
    let i0 = index_of(coords, size);
    lemma_index_of_bound(coords, size);
    lemma_coords_of(i0, size);
    lemma_index_of_injective(coords_of(i0, size), coords, size);
    let pl = place_links(m0.occ, size, player, coords);
    let base = links_of(m0, player);
    let q = m1.occ[i]->Some_0;
    lemma_coords_of(i, size);
    lemma_coords_of(j, size);
    if i == i0 && j == i0 {
        lemma_joined_equivalence(links_of(m1, q));
    } else if i == i0 {
        let d = choose|d: int|
            0 <= d < 6 && nbr(coords_of(i, m1.size), d) == Some(coords_of(j, m1.size));
        assert(index_of(nbr(coords, d)->Some_0, size) == j);
        assert(m0.occ[j] == Some(player));
        lemma_place_links_has_dir(m0.occ, size, player, coords, d);
        let k = choose|k: int| 0 <= k < pl.len() && pl[k] == (i0, j);
        assert((base + pl)[base.len() + k] == (i0, j));
        lemma_link_joined(base + pl, base.len() + k);
    } else if j == i0 {
        lemma_adjacent_sym(coords_of(i, m1.size), coords_of(j, m1.size), size);
        let d = choose|d: int|
            0 <= d < 6 && nbr(coords_of(j, m1.size), d) == Some(coords_of(i, m1.size));
        assert(index_of(nbr(coords, d)->Some_0, size) == i);
        assert(m0.occ[i] == Some(player));
        lemma_place_links_has_dir(m0.occ, size, player, coords, d);
        let k = choose|k: int| 0 <= k < pl.len() && pl[k] == (i0, i);
        assert((base + pl)[base.len() + k] == (i0, i));
        lemma_link_joined(base + pl, base.len() + k);
        lemma_joined_equivalence(base + pl);
        assert(joined(base + pl, i, j));
    } else {
        assert(m0.occ[i] == m1.occ[i] && m0.occ[j] == m1.occ[j]);
        assert(adjacent(coords_of(i, m0.size), coords_of(j, m0.size)));
        assert(joined(links_of(m0, q), i, j));
        if links_of(m1, q) != links_of(m0, q) {
            assert(links_of(m0, q) == base);
            lemma_joined_concat(base, pl, i, j);
        }
    }
}

/// One anchor clause of [`links_complete`], carried over one placement.
proof fn lemma_anchor_case(
    m0: GameModel,
    m1: GameModel,
    player: PlayerId,
    coords: Coordinates,
    i: int,
    side: int,
)
    requires
        links_complete(m0),
        0 <= side < 3,
        m0.size == m1.size,
        m0.occ.len() == m1.occ.len(),
        m0.occ.len() == tri(m0.size as int),
        coords_valid(coords, m0.size),
        crate::coords::coord_size_ok(m0.size),
        m1.occ == m0.occ.update(index_of(coords, m0.size), Some(player)),
        links_of(m1, player) == links_of(m0, player) + place_links(
            m0.occ,
            m0.size,
            player,
            coords,
        ),
        links_of(m1, player.other_spec()) == links_of(m0, player.other_spec()),
        0 <= i < m1.occ.len(),
        m1.occ[i] is Some,
        side == 0 ==> coords_of(i, m1.size).x == 0,
        side == 1 ==> coords_of(i, m1.size).y == 0,
        side == 2 ==> coords_of(i, m1.size).z == 0,
    ensures
        joined(links_of(m1, m1.occ[i]->Some_0), i, anchor(m1.occ.len() as int, side)),
{
    let size = m0.size;
    let i0 = index_of(coords, size);
    lemma_index_of_bound(coords, size);
    lemma_coords_of(i0, size);
    lemma_index_of_injective(coords_of(i0, size), coords, size);
    let pl = place_links(m0.occ, size, player, coords);
    let base = links_of(m0, player);
    if i == i0 {
        lemma_place_links_has_anchor(m0.occ, size, player, coords, side);
        let pair = (i0, anchor(m0.occ.len() as int, side));
        let k = choose|k: int| 0 <= k < pl.len() && pl[k] == pair;
        assert((base + pl)[base.len() + k] == pair);
        lemma_link_joined(base + pl, base.len() + k);
    } else {
        let q = m1.occ[i]->Some_0;
        assert(m0.occ[i] == m1.occ[i]);
        assert(joined(links_of(m0, q), i, anchor(m0.occ.len() as int, side)));
        if links_of(m1, q) != links_of(m0, q) {
            // q and the placer use the same tracker, which grew by the
            // placement's links.
            assert(links_of(m0, q) == base);
            lemma_joined_concat(base, pl, i, anchor(m0.occ.len() as int, side));
        }
    }
}

/// One cell of the side at distance `x == 0`, in column order.
pub open spec fn side_cell(y: int, size: u32) -> Coordinates {
    Coordinates { x: 0, y: y as u32, z: (size - 1 - y) as u32 }
}

/// The cells of one side form a joined chain once one player holds them
/// all: consecutive side cells are adjacent.
proof fn lemma_side_chain(m: GameModel, player: PlayerId, size: u32, y: int)
    requires
        links_complete(m),
        m.size == size,
        2 <= size,
        m.occ.len() == tri(size as int),
        tri(size as int) + 3 <= u32::MAX,
        0 <= y < size,
        forall|t: int|
            0 <= t < size ==> m.occ[index_of(#[trigger] side_cell(t, size), size)] == Some(player),
    ensures
        joined(
            links_of(m, player),
            index_of(side_cell(0, size), size),
            index_of(side_cell(y, size), size),
        ),
    decreases y,
{
    lemma_index_of_bound(side_cell(y, size), size);
    if y == 0 {
        lemma_joined_equivalence(links_of(m, player));
    } else {
        lemma_side_chain(m, player, size, y - 1);
        let prev = side_cell(y - 1, size);
        let cur = side_cell(y, size);
        let ip = index_of(prev, size);
        let ic = index_of(cur, size);
        lemma_index_of_bound(prev, size);
        lemma_coords_of(ip, size);
        lemma_coords_of(ic, size);
        lemma_index_of_injective(coords_of(ip, size), prev, size);
        lemma_index_of_injective(coords_of(ic, size), cur, size);
        assert(nbr(prev, 3) == Some(cur));
        assert(adjacent(coords_of(ip, m.size), coords_of(ic, m.size)));
        assert(m.occ[ip] == Some(player) && m.occ[ic] == Some(player));
        assert(joined(links_of(m, player), ip, ic));
        lemma_joined_equivalence(links_of(m, player));
    }
}

/// The side-connectivity law: in any reachable game a player who holds
/// every cell of the side at `x == 0` has connected all three sides, so
/// that player has won.  The side's two corner cells touch the other two
/// sides, and the chain between them carries the connection.
pub proof fn lemma_full_side_wins(size: u32, moves: Seq<Movement>, player: PlayerId)
    requires
        replay_model(size, moves) is Some,
        forall|y: int|
            0 <= y < size ==> (replay_model(size, moves)->Some_0).occ[index_of(
                #[trigger] side_cell(y, size),
                size,
            )] == Some(player),
    ensures
        all_anchors_joined(
            links_of(replay_model(size, moves)->Some_0, player),
            (replay_model(size, moves)->Some_0).occ.len() as int,
        ),
{
    let m = replay_model(size, moves)->Some_0;
    lemma_replay_dimensions(size, moves);
    lemma_replay_links_complete(size, moves);
    let total = m.occ.len() as int;
    let lp = links_of(m, player);
    let first = side_cell(0, size);
    let last = side_cell(size as int - 1, size);
    let i_first = index_of(first, size);
    let i_last = index_of(last, size);
    lemma_side_chain(m, player, size, size as int - 1);
    lemma_index_of_bound(first, size);
    lemma_index_of_bound(last, size);
    lemma_coords_of(i_first, size);
    lemma_coords_of(i_last, size);
    lemma_index_of_injective(coords_of(i_first, size), first, size);
    lemma_index_of_injective(coords_of(i_last, size), last, size);
    // The first corner touches sides x and y, the last touches side z.
    assert(joined(lp, i_first, anchor(total, 0)));
    assert(joined(lp, i_first, anchor(total, 1)));
    assert(joined(lp, i_last, anchor(total, 2)));
    lemma_joined_equivalence(lp);
    assert(joined(lp, anchor(total, 0), anchor(total, 1)));
    assert(joined(lp, i_first, anchor(total, 2)));
    assert(joined(lp, anchor(total, 0), anchor(total, 2)));
}

/// Whether a cell touches the given side of the board.
pub open spec fn touches_side(c: Coordinates, side: int) -> bool {
    if side == 0 {
        c.x == 0
    } else if side == 1 {
        c.y == 0
    } else {
        c.z == 0
    }
}

/// Every player of a reachable game is player 0 or player 1: the turn
/// starts at player 0 and alternates between the two, and only the player
/// to move may place.
pub open spec fn players_bounded(m: GameModel) -> bool {
    &&& (m.status matches GameStatus::Ongoing { next_player } ==> next_player.id < 2)
    &&& (m.status matches GameStatus::Finished { winner } ==> winner.id < 2)
    &&& forall|i: int|
        0 <= i < m.occ.len() && (#[trigger] m.occ[i]) is Some ==> (m.occ[i]->Some_0).id < 2
}

/// Reachable games hold only the two players.
pub proof fn lemma_replay_players(size: u32, moves: Seq<Movement>)
    requires
        replay_model(size, moves) is Some,
    ensures
        players_bounded(replay_model(size, moves)->Some_0),
    decreases moves.len(),
{
    if moves.len() > 0 {
        lemma_replay_players(size, moves.drop_last());
        let m0 = replay_model(size, moves.drop_last())->Some_0;
        let m1 = replay_model(size, moves)->Some_0;
        match moves.last() {
            Movement::Action { .. } => {
                assert(m1.occ == m0.occ);
            },
            Movement::Placement { player, coords } => {
                lemma_replay_dimensions(size, moves);
                lemma_replay_dimensions(size, moves.drop_last());
                assert(step_model(m0, moves.last()) is Ok);
                assert(coords_valid(coords, size));
                lemma_index_of_bound(coords, size);
                assert(m1.occ == m0.occ.update(index_of(coords, size), Some(player)));
                assert(player.id < 2);
                assert forall|i: int|
                    0 <= i < m1.occ.len() && (#[trigger] m1.occ[i]) is Some implies (
                m1.occ[i]->Some_0).id < 2 by {
                    if m1.occ[i] != m0.occ[i] {
                        assert(m1.occ[i] == Some(player));
                    }
                }
            },
        }
    }
}

/// What one link of a player's tracker may be, in a model whose occupancy
/// is `occ`: a link between two cells, or from a cell to the anchor of a
/// side that some cell of that player touches.
pub open spec fn link_sound(
    occ: Seq<Option<PlayerId>>,
    size: u32,
    q: PlayerId,
    l: (int, int),
) -> bool {
    &&& 0 <= l.0 < occ.len()
    &&& (0 <= l.1 < occ.len() || exists|s: int|
        0 <= s < 3 && l.1 == anchor(occ.len() as int, s) && (exists|i: int|
            0 <= i < occ.len() && occ[i] == Some(q) && touches_side(coords_of(i, size), s)))
}

/// Every link of a player's tracker in a model is sound.
pub open spec fn player_links_sound(m: GameModel, q: PlayerId) -> bool {
    forall|k: int|
        0 <= k < links_of(m, q).len() ==> link_sound(
            m.occ,
            m.size,
            q,
            #[trigger] links_of(m, q)[k],
        )
}

/// The cell-to-cell links of a placement run between cells of the board.
proof fn lemma_dir_links_sound(
    occ: Seq<Option<PlayerId>>,
    size: u32,
    player: PlayerId,
    c: Coordinates,
    d: int,
)
    requires
        coords_valid(c, size),
        crate::coords::coord_size_ok(size),
        occ.len() == tri(size as int),
        0 <= d <= 6,
    ensures
        forall|t: int|
            0 <= t < dir_links(occ, size, player, c, d).len() ==> 0 <= (#[trigger] dir_links(
                occ,
                size,
                player,
                c,
                d,
            )[t]).0 < occ.len() && 0 <= dir_links(occ, size, player, c, d)[t].1 < occ.len(),
    decreases d,
{
    lemma_index_of_bound(c, size);
    if d > 0 {
        lemma_dir_links_sound(occ, size, player, c, d - 1);
        let prev = dir_links(occ, size, player, c, d - 1);
        let cur = dir_links(occ, size, player, c, d);
        assert forall|t: int|
            0 <= t < cur.len() implies 0 <= (#[trigger] cur[t]).0 < occ.len() && 0 <= cur[t].1
            < occ.len() by {
            if t < prev.len() {
                assert(cur[t] == prev[t]);
            }
        }
    }
}

/// Every link of one placement is sound against the occupancy right after
/// it: the placed cell itself carries the anchor witnesses.
proof fn lemma_place_links_sound(
    occ: Seq<Option<PlayerId>>,
    size: u32,
    player: PlayerId,
    coords: Coordinates,
)
    requires
        coords_valid(coords, size),
        crate::coords::coord_size_ok(size),
        occ.len() == tri(size as int),
    ensures
        forall|t: int|
            0 <= t < place_links(occ, size, player, coords).len() ==> link_sound(
                occ.update(index_of(coords, size), Some(player)),
                size,
                player,
                #[trigger] place_links(occ, size, player, coords)[t],
            ),
{
    let i0 = index_of(coords, size);
    lemma_index_of_bound(coords, size);
    lemma_coords_of(i0, size);
    lemma_index_of_injective(coords_of(i0, size), coords, size);
    let occ1 = occ.update(i0, Some(player));
    lemma_dir_links_sound(occ, size, player, coords, 6);
    let w0 = dir_links(occ, size, player, coords, 6);
    let total = occ.len() as int;
    let w1 = if coords.x == 0 {
        w0.push((i0, anchor(total, 0)))
    } else {
        w0
    };
    let w2 = if coords.y == 0 {
        w1.push((i0, anchor(total, 1)))
    } else {
        w1
    };
    let w3 = place_links(occ, size, player, coords);
    assert(occ1[i0] == Some(player));
    assert forall|t: int| 0 <= t < w3.len() implies link_sound(
        occ1,
        size,
        player,
        #[trigger] w3[t],
    ) by {
        if t < w0.len() {
            assert(w3[t] == w0[t]);
        } else {
            // An anchor link of the placement: the placed cell touches that
            // side.
            assert(w3[t].0 == i0 && exists|s: int|
                0 <= s < 3 && w3[t].1 == anchor(total, s) && touches_side(coords, s));
        }
    }
}

/// Reachable games keep their links sound: a link to an anchor arises only
/// from a placement that touches the corresponding side, and placed cells
/// stay placed.
pub proof fn lemma_replay_links_sound(size: u32, moves: Seq<Movement>, q: PlayerId)
    requires
        replay_model(size, moves) is Some,
        q.id < 2,
    ensures
        player_links_sound(replay_model(size, moves)->Some_0, q),
    decreases moves.len(),
{
    let m1 = replay_model(size, moves)->Some_0;
    lemma_replay_dimensions(size, moves);
    if moves.len() == 0 {
        assert(links_of(m1, q).len() == 0);
    } else {
        lemma_replay_links_sound(size, moves.drop_last(), q);
        lemma_replay_dimensions(size, moves.drop_last());
        let m0 = replay_model(size, moves.drop_last())->Some_0;
        match moves.last() {
            Movement::Action { .. } => {
                assert(m1.occ == m0.occ && m1.size == m0.size && m1.links0 == m0.links0
                    && m1.links1 == m0.links1);
            },
            Movement::Placement { player, coords } => {
                assert(step_model(m0, moves.last()) is Ok);
                assert(coords_valid(coords, size));
                lemma_index_of_bound(coords, size);
                let i0 = index_of(coords, size);
                assert(m1.occ == m0.occ.update(i0, Some(player)));
                assert(m0.occ[i0] is None);
                lemma_place_links_sound(m0.occ, size, player, coords);
                let pl = place_links(m0.occ, size, player, coords);
                let base = links_of(m0, q);
                assert forall|k: int| 0 <= k < links_of(m1, q).len() implies link_sound(
                    m1.occ,
                    m1.size,
                    q,
                    #[trigger] links_of(m1, q)[k],
                ) by {
                    if links_of(m1, q) == links_of(m0, q) || k < base.len() {
                        assert(links_of(m1, q)[k] == base[k]);
                        lemma_link_sound_monotone(m0.occ, m1.occ, size, q, base[k]);
                    } else {
                        // q shares the placer's tracker, and reachable games
                        // hold only players 0 and 1, so q is the placer;
                        // the new links carry the placed cell as witness.
                        lemma_replay_players(size, moves.drop_last());
                        assert(player.id < 2);
                        assert(q == player);
                        assert(links_of(m1, q) == base + pl);
                        assert(links_of(m1, q)[k] == pl[k - base.len()]);
                        assert(link_sound(m1.occ, size, player, pl[k - base.len()]));
                    }
                }
            },
        }
    }
}

/// Soundness of a link survives placements: occupancy only grows.
proof fn lemma_link_sound_monotone(
    occ0: Seq<Option<PlayerId>>,
    occ1: Seq<Option<PlayerId>>,
    size: u32,
    q: PlayerId,
    l: (int, int),
)
    requires
        link_sound(occ0, size, q, l),
        occ0.len() == occ1.len(),
        forall|i: int| 0 <= i < occ0.len() && (#[trigger] occ0[i]) is Some ==> occ1[i] == occ0[i],
    ensures
        link_sound(occ1, size, q, l),
{
    if !(0 <= l.1 < occ0.len()) {
        let s = choose|s: int|
            0 <= s < 3 && l.1 == anchor(occ0.len() as int, s) && (exists|i: int|
                0 <= i < occ0.len() && occ0[i] == Some(q) && touches_side(coords_of(i, size), s));
        let i = choose|i: int|
            0 <= i < occ0.len() && occ0[i] == Some(q) && touches_side(coords_of(i, size), s);
        assert(occ1[i] == Some(q) && touches_side(coords_of(i, size), s));
    }
}

/// The converse guard of the side-connectivity law: a player with no cell
/// on some side has not connected all three sides, whatever else stands on
/// the board.  That side's anchor appears in none of the player's links,
/// so it is joined to itself alone.
pub proof fn lemma_untouched_side_blocks_win(
    size: u32,
    moves: Seq<Movement>,
    q: PlayerId,
    side: int,
)
    requires
        replay_model(size, moves) is Some,
        q.id < 2,
        0 <= side < 3,
        forall|i: int|
            0 <= i < (replay_model(size, moves)->Some_0).occ.len() && (#[trigger] (replay_model(
                size,
                moves,
            )->Some_0).occ[i]) == Some(q) ==> !touches_side(
                coords_of(i, (replay_model(size, moves)->Some_0).size),
                side,
            ),
    ensures
        !all_anchors_joined(
            links_of(replay_model(size, moves)->Some_0, q),
            (replay_model(size, moves)->Some_0).occ.len() as int,
        ),
{
    let m = replay_model(size, moves)->Some_0;
    lemma_replay_dimensions(size, moves);
    lemma_replay_links_sound(size, moves, q);
    let ll = links_of(m, q);
    let total = m.occ.len() as int;
    let a = anchor(total, side);
    assert forall|k: int| 0 <= k < ll.len() implies (#[trigger] ll[k]).0 != a && ll[k].1 != a by {
        assert(link_sound(m.occ, m.size, q, ll[k]));
        if !(0 <= ll[k].1 < m.occ.len()) {
            let s = choose|s: int|
                0 <= s < 3 && ll[k].1 == anchor(total, s) && (exists|i: int|
                    0 <= i < m.occ.len() && m.occ[i] == Some(q) && touches_side(
                        coords_of(i, m.size),
                        s,
                    ));
            if s == side {
                let i = choose|i: int|
                    0 <= i < m.occ.len() && m.occ[i] == Some(q) && touches_side(
                        coords_of(i, m.size),
                        s,
                    );
                assert(false);
            }
        }
    }
    if all_anchors_joined(ll, total) {
        lemma_joined_equivalence(ll);
        if side == 0 {
            lemma_unmentioned_isolated(ll, a, anchor(total, 1));
        } else if side == 1 {
            assert(joined(ll, anchor(total, 1), anchor(total, 0)));
            lemma_unmentioned_isolated(ll, a, anchor(total, 0));
        } else {
            assert(joined(ll, anchor(total, 2), anchor(total, 0)));
            lemma_unmentioned_isolated(ll, a, anchor(total, 0));
        }
        assert(false);
    }
}

/// A win by placement is honest: when the last move is a placement and the
/// game it yields is finished, the mover is the declared winner and has
/// connected all three sides.
pub proof fn lemma_placement_win_connected(size: u32, moves: Seq<Movement>)
    requires
        replay_model(size, moves) is Some,
        moves.len() > 0,
        (moves.last() matches Movement::Placement { .. }),
        ((replay_model(size, moves)->Some_0).status matches GameStatus::Finished { .. }),
    ensures
        moves.last() matches Movement::Placement { player, .. } ==> {
            let m = replay_model(size, moves)->Some_0;
            &&& m.status == (GameStatus::Finished { winner: player })
            &&& all_anchors_joined(links_of(m, player), m.occ.len() as int)
        },
{
    let m0 = replay_model(size, moves.drop_last())->Some_0;
    let m1 = replay_model(size, moves)->Some_0;
    lemma_replay_dimensions(size, moves);
    lemma_replay_dimensions(size, moves.drop_last());
    assert(step_model(m0, moves.last()) is Ok);
    match moves.last() {
        Movement::Action { .. } => {
        },
        Movement::Placement { player, coords } => {
            assert(coords_valid(coords, size));
            lemma_index_of_bound(coords, size);
            assert(m1 == step_model(m0, moves.last())->Ok_0);
            assert(m1.occ.len() == m0.occ.len());
            assert(m1.status == (GameStatus::Finished { winner: player }));
            assert(all_anchors_joined(links_of(m1, player), m0.occ.len() as int));
        },
    }
}

/// Joined anchors end the game: whenever either player's links join all
/// three side anchors, the game is finished.  The win check runs after
/// every placement, and a finished game accepts no further move.
pub proof fn lemma_joined_anchors_finish(size: u32, moves: Seq<Movement>)
    requires
        replay_model(size, moves) is Some,
        ({
            let m = replay_model(size, moves)->Some_0;
            all_anchors_joined(links_of(m, PlayerId { id: 0 }), m.occ.len() as int)
                || all_anchors_joined(links_of(m, PlayerId { id: 1 }), m.occ.len() as int)
        }),
    ensures
        ((replay_model(size, moves)->Some_0).status matches GameStatus::Finished { .. }),
    decreases moves.len(),
{
    let m1 = replay_model(size, moves)->Some_0;
    let total = m1.occ.len() as int;
    if moves.len() == 0 {
        assert(!joined(Seq::<(int, int)>::empty(), anchor(total, 0), anchor(total, 1)));
        assert(!joined(Seq::<(int, int)>::empty(), anchor(total, 0), anchor(total, 2)));
    } else {
        let m0 = replay_model(size, moves.drop_last())->Some_0;
        lemma_replay_dimensions(size, moves);
        lemma_replay_dimensions(size, moves.drop_last());
        match moves.last() {
            Movement::Action { .. } => {
            },
            Movement::Placement { player, coords } => {
                assert(step_model(m0, moves.last()) is Ok);
                if m1.status matches GameStatus::Ongoing { .. } {
                    // The mover's own anchors are not joined, else the win
                    // check would have finished the game; the other
                    // tracker is unchanged, and had it been joined before,
                    // the game would already have been over.
                    assert(!all_anchors_joined(links_of(m1, player), total));
                    let other = if player.id == 0 {
                        PlayerId { id: 1 }
                    } else {
                        PlayerId { id: 0 }
                    };
                    assert(links_of(m1, other) == links_of(m0, other));
                    if all_anchors_joined(links_of(m1, other), total) {
                        lemma_joined_anchors_finish(size, moves.drop_last());
                        assert(m0.status matches GameStatus::Finished { .. });
                        assert(false);
                    }
                    assert(all_anchors_joined(links_of(m1, PlayerId { id: 0 }), total)
                        ==> false);
                    assert(all_anchors_joined(links_of(m1, PlayerId { id: 1 }), total)
                        ==> false);
                }
            },
        }
    }
}

/// Holding one whole side ends the game: the side joins the three anchors,
/// and joined anchors always mean a finished game.
pub proof fn lemma_full_side_ends_game(size: u32, moves: Seq<Movement>, player: PlayerId)
    requires
        replay_model(size, moves) is Some,
        forall|y: int|
            0 <= y < size ==> (replay_model(size, moves)->Some_0).occ[index_of(
                #[trigger] side_cell(y, size),
                size,
            )] == Some(player),
    ensures
        ((replay_model(size, moves)->Some_0).status matches GameStatus::Finished { .. }),
{
    let m = replay_model(size, moves)->Some_0;
    lemma_full_side_wins(size, moves, player);
    if player.id == 0 {
        assert(links_of(m, player) == links_of(m, PlayerId { id: 0 }));
    } else {
        assert(links_of(m, player) == links_of(m, PlayerId { id: 1 }));
    }
    lemma_joined_anchors_finish(size, moves);
}

} // verus!
