//! The Game of Y state machine.
//!
//! A game holds the board size, the occupancy of every cell, the ordered
//! move history, one connectivity tracker per player and the current
//! status.  Everything observable about a game is a function of the board
//! size and the history: the spec-level [`replay_model`] replays the
//! history move by move, and well-formedness ties the executable state to
//! the replayed model.  A move is applied all-or-nothing: a rejected move
//! reports why and leaves the game untouched.

use crate::connectivity::ConnectivityTracker;
use crate::connectivity::joined;
use crate::coords::Coordinates;
use crate::coords::coord_size_ok;
use crate::coords::coords_valid;
use crate::coords::index_of;
use crate::coords::nbr;
use crate::coords::tri;
use vstd::prelude::*;

verus! {

/// One of the two players, 0 or 1.
#[derive(Clone, Copy, Debug, PartialEq, Eq, Structural)]
pub struct PlayerId {
    pub id: u8,
}

impl PlayerId {
    /// The opponent: player 1 for player 0 and player 0 for anyone else.
    pub open spec fn other_spec(self) -> PlayerId {
        if self.id == 0 {
            PlayerId { id: 1 }
        } else {
            PlayerId { id: 0 }
        }
    }

    /// Wraps a raw player number.
    pub fn new(id: u8) -> (r: PlayerId)
        ensures
            r == (PlayerId { id }),
    {
        PlayerId { id }
    }

    /// Returns the opponent.
    pub fn other(&self) -> (r: PlayerId)
        ensures
            r == self.other_spec(),
    {
        if self.id == 0 {
            PlayerId { id: 1 }
        } else {
            PlayerId { id: 0 }
        }
    }
}

/// A move that is not a placement.
#[derive(Clone, Copy, Debug, PartialEq, Eq, Structural)]
pub enum GameAction {
    Resign,
}

/// A single state-transition request: claim an empty cell, or forfeit.
#[derive(Clone, Copy, Debug, PartialEq, Eq, Structural)]
pub enum Movement {
    Placement { player: PlayerId, coords: Coordinates },
    Action { player: PlayerId, action: GameAction },
}

/// Whether the game goes on, and whose turn it is, or who has won.
#[derive(Clone, Copy, Debug, PartialEq, Eq, Structural)]
pub enum GameStatus {
    Ongoing { next_player: PlayerId },
    Finished { winner: PlayerId },
}

/// Why a move or a construction was rejected.  Rejections never change the
/// game.
#[derive(Debug)]
pub enum GameYError {
    /// A move arrived after the game had finished.
    GameAlreadyFinished,
    /// The acting player is not the expected next player.
    WrongTurn,
    /// The target cell is already claimed.
    CellOccupied,
    /// The cell index or coordinates fall outside the board.
    IndexOutOfRange,
    /// A game was to be built with an unusable board size.
    InvalidBoardSize,
    /// A registry lookup missed.
    BotNotFound,
    /// An error of the surrounding server, carried through.
    ServerError { message: String },
}

/// The text a rejection reports.
pub open spec fn error_text(e: GameYError) -> Seq<char> {
    match e {
        GameYError::GameAlreadyFinished => "game already finished"@,
        GameYError::WrongTurn => "not this player's turn"@,
        GameYError::CellOccupied => "cell already occupied"@,
        GameYError::IndexOutOfRange => "cell outside the board"@,
        GameYError::InvalidBoardSize => "invalid board size"@,
        GameYError::BotNotFound => "bot not found"@,
        GameYError::ServerError { message } => message@,
    }
}

impl GameYError {
    /// A short description of the rejection.
    pub fn message(&self) -> (r: String)
        ensures
            r@ == error_text(*self),
    {
        match self {
            GameYError::GameAlreadyFinished => "game already finished".to_owned(),
            GameYError::WrongTurn => "not this player's turn".to_owned(),
            GameYError::CellOccupied => "cell already occupied".to_owned(),
            GameYError::IndexOutOfRange => "cell outside the board".to_owned(),
            GameYError::InvalidBoardSize => "invalid board size".to_owned(),
            GameYError::BotNotFound => "bot not found".to_owned(),
            GameYError::ServerError { message } => message.clone(),
        }
    }
}

/// Board sizes a game accepts: at least two rows, and the cell count
/// together with the three side anchors fits in `u32`.
pub open spec fn size_ok(size: u32) -> bool {
    2 <= size && tri(size as int) + 3 <= u32::MAX
}

/// The spec-level picture of a game: occupancy, the link sequences the two
/// connectivity trackers have made, and the status.
#[verifier::ext_equal]
pub ghost struct GameModel {
    pub size: u32,
    pub occ: Seq<Option<PlayerId>>,
    pub links0: Seq<(int, int)>,
    pub links1: Seq<(int, int)>,
    pub status: GameStatus,
}

/// The tracker element standing for side `side` of a board with `total`
/// cells: the anchors sit directly after the cells.
pub open spec fn anchor(total: int, side: int) -> int {
    total + side
}

/// A player has connected all three sides exactly when the three side
/// anchors are joined by the links of that player's tracker.
pub open spec fn all_anchors_joined(links: Seq<(int, int)>, total: int) -> bool {
    joined(links, anchor(total, 0), anchor(total, 1)) && joined(
        links,
        anchor(total, 0),
        anchor(total, 2),
    )
}

/// The links a placement makes towards its first `d` lattice directions:
/// one link to each neighbour already held by the same player.
pub open spec fn dir_links(
    occ: Seq<Option<PlayerId>>,
    size: u32,
    player: PlayerId,
    c: Coordinates,
    d: int,
) -> Seq<(int, int)>
    decreases d,
{
    if d <= 0 {
        Seq::empty()
    } else {
        let rest = dir_links(occ, size, player, c, d - 1);
        match nbr(c, d - 1) {
            Some(n) => {
                let j = index_of(n, size);
                if 0 <= j < occ.len() && occ[j] == Some(player) {
                    rest.push((index_of(c, size), j))
                } else {
                    rest
                }
            },
            None => rest,
        }
    }
}

/// All links a placement makes: the neighbour links, then one link to each
/// side anchor whose distance is zero, in the order x, y, z.
pub open spec fn place_links(
    occ: Seq<Option<PlayerId>>,
    size: u32,
    player: PlayerId,
    c: Coordinates,
) -> Seq<(int, int)> {
    let i = index_of(c, size);
    let total = occ.len() as int;
    let w0 = dir_links(occ, size, player, c, 6);
    let w1 = if c.x == 0 {
        w0.push((i, anchor(total, 0)))
    } else {
        w0
    };
    let w2 = if c.y == 0 {
        w1.push((i, anchor(total, 1)))
    } else {
        w1
    };
    if c.z == 0 {
        w2.push((i, anchor(total, 2)))
    } else {
        w2
    }
}

/// One step of the state machine: the result of one movement on a model,
/// or the exact reason it is rejected.  Checks run in this order: the game
/// must not be finished, the acting player must be the expected one, the
/// target must lie on the board, and the target must be empty.
pub open spec fn step_model(m: GameModel, movement: Movement) -> Result<GameModel, GameYError> {
    match movement {
        Movement::Action { player, action } => {
            if m.status matches GameStatus::Finished { .. } {
                Err(GameYError::GameAlreadyFinished)
            } else {
                Ok(
                    GameModel {
                        status: GameStatus::Finished { winner: player.other_spec() },
                        ..m
                    },
                )
            }
        },
        Movement::Placement { player, coords } => match m.status {
            GameStatus::Finished { .. } => Err(GameYError::GameAlreadyFinished),
            GameStatus::Ongoing { next_player } => {
                if player != next_player {
                    Err(GameYError::WrongTurn)
                } else if !coords_valid(coords, m.size) {
                    Err(GameYError::IndexOutOfRange)
                } else {
                    let i = index_of(coords, m.size);
                    if m.occ[i] matches Some(_) {
                        Err(GameYError::CellOccupied)
                    } else {
                        let occ2 = m.occ.update(i, Some(player));
                        let added = place_links(m.occ, m.size, player, coords);
                        let links0 = if player.id == 0 {
                            m.links0 + added
                        } else {
                            m.links0
                        };
                        let links1 = if player.id == 0 {
                            m.links1
                        } else {
                            m.links1 + added
                        };
                        let mine = if player.id == 0 {
                            links0
                        } else {
                            links1
                        };
                        let won = all_anchors_joined(mine, m.occ.len() as int);
                        let status = if won {
                            GameStatus::Finished { winner: player }
                        } else {
                            GameStatus::Ongoing { next_player: player.other_spec() }
                        };
                        Ok(GameModel { size: m.size, occ: occ2, links0, links1, status })
                    }
                }
            },
        },
    }
}

/// The model of a fresh game: every cell empty, no links, player 0 to move.
pub open spec fn init_model(size: u32) -> GameModel {
    GameModel {
        size,
        occ: Seq::new(tri(size as int) as nat, |i: int| None),
        links0: Seq::empty(),
        links1: Seq::empty(),
        status: GameStatus::Ongoing { next_player: PlayerId { id: 0 } },
    }
}

/// Replays a history on a fresh board: the model it reaches, or `None` if
/// the size is unusable or some move of the history is rejected.
pub open spec fn replay_model(size: u32, moves: Seq<Movement>) -> Option<GameModel>
    decreases moves.len(),
{
    if !size_ok(size) {
        None
    } else if moves.len() == 0 {
        Some(init_model(size))
    } else {
        match replay_model(size, moves.drop_last()) {
            None => None,
            Some(m) => match step_model(m, moves.last()) {
                Ok(m2) => Some(m2),
                Err(_) => None,
            },
        }
    }
}

/// The indices of the empty cells among the first `n`, in increasing order.
pub open spec fn avail_upto(occ: Seq<Option<PlayerId>>, n: int) -> Seq<u32>
    decreases n,
{
    if n <= 0 {
        Seq::empty()
    } else {
        let rest = avail_upto(occ, n - 1);
        if occ[n - 1] is None {
            rest.push((n - 1) as u32)
        } else {
            rest
        }
    }
}

/// The indices of all empty cells, in increasing order.
pub open spec fn avail_spec(occ: Seq<Option<PlayerId>>) -> Seq<u32> {
    avail_upto(occ, occ.len() as int)
}

/// How many of the first `n` cells are empty.
pub open spec fn empties(occ: Seq<Option<PlayerId>>, n: int) -> int
    decreases n,
{
    if n <= 0 {
        0
    } else {
        empties(occ, n - 1) + if occ[n - 1] is None {
            1int
        } else {
            0int
        }
    }
}

/// What the list of empty cells holds: exactly the empty indices below `n`,
/// each once, in increasing order.
pub proof fn lemma_avail_upto_props(occ: Seq<Option<PlayerId>>, n: int)
    requires
        0 <= n <= occ.len(),
        occ.len() <= u32::MAX,
    ensures
        avail_upto(occ, n).len() == empties(occ, n),
        avail_upto(occ, n).len() <= n,
        forall|k: int|
            0 <= k < avail_upto(occ, n).len() ==> (#[trigger] avail_upto(occ, n)[k]) < n && 0
                <= avail_upto(occ, n)[k] && occ[avail_upto(occ, n)[k] as int] matches None::<
                PlayerId,
            >,
        forall|k1: int, k2: int|
            0 <= k1 < k2 < avail_upto(occ, n).len() ==> #[trigger] avail_upto(occ, n)[k1]
                < #[trigger] avail_upto(occ, n)[k2],
        forall|i: int|
            0 <= i < n && ((#[trigger] occ[i]) matches None::<PlayerId>) ==> avail_upto(
                occ,
                n,
            ).contains(i as u32),
    decreases n,
{
    if n > 0 {
        lemma_avail_upto_props(occ, n - 1);
        let prev = avail_upto(occ, n - 1);
        let cur = avail_upto(occ, n);
        assert forall|k1: int, k2: int| 0 <= k1 < k2 < cur.len() implies cur[k1] < cur[k2] by {
            if k2 < prev.len() {
                assert(cur[k1] == prev[k1] && cur[k2] == prev[k2]);
            } else {
                assert(cur[k2] == (n - 1) as u32);
                assert(cur[k1] == prev[k1]);
                assert(prev[k1] < n - 1);
            }
        }
        assert forall|i: int|
            0 <= i < n && ((#[trigger] occ[i]) matches None::<PlayerId>) implies cur.contains(
            i as u32,
        ) by {
            if i < n - 1 {
                assert(prev.contains(i as u32));
                let k = choose|k: int| 0 <= k < prev.len() && prev[k] == i as u32;
                assert(cur[k] == i as u32);
            } else {
                assert(occ[n - 1] matches None::<PlayerId>);
                assert(cur.last() == i as u32);
            }
        }
    }
}

/// Placing a stone on an empty cell lowers the number of empty cells by
/// one.
pub proof fn lemma_empties_update(occ: Seq<Option<PlayerId>>, i: int, p: PlayerId, n: int)
    requires
        0 <= i < occ.len(),
        occ[i] matches None,
        0 <= n <= occ.len(),
    ensures
        empties(occ.update(i, Some(p)), n) == if i < n {
            empties(occ, n) - 1
        } else {
            empties(occ, n)
        },
    decreases n,
{
    if n > 0 {
        lemma_empties_update(occ, i, p, n - 1);
    }
}

/// Pushing onto a sequence loses no member.
proof fn lemma_contains_push(s: Seq<(int, int)>, x: (int, int), y: (int, int))
    requires
        s.contains(x),
    ensures
        s.push(y).contains(x),
{
    let k = choose|k: int| 0 <= k < s.len() && s[k] == x;
    assert(s.push(y)[k] == x);
}

/// A placement links the placed cell to each same-player neighbour: the
/// pair for direction `d` is among the first `dd` direction links.
proof fn lemma_dir_links_has(
    occ: Seq<Option<PlayerId>>,
    size: u32,
    player: PlayerId,
    c: Coordinates,
    d: int,
    dd: int,
)
    requires
        0 <= d < dd <= 6,
        nbr(c, d) is Some,
        0 <= index_of(nbr(c, d)->Some_0, size) < occ.len(),
        occ[index_of(nbr(c, d)->Some_0, size)] == Some(player),
    ensures
        dir_links(occ, size, player, c, dd).contains(
            (index_of(c, size), index_of(nbr(c, d)->Some_0, size)),
        ),
    decreases dd,
{
    let pair = (index_of(c, size), index_of(nbr(c, d)->Some_0, size));
    let cur = dir_links(occ, size, player, c, dd);
    let prev = dir_links(occ, size, player, c, dd - 1);
    if d == dd - 1 {
        assert(cur == prev.push(pair));
        assert(cur[cur.len() - 1] == pair);
    } else {
        lemma_dir_links_has(occ, size, player, c, d, dd - 1);
        let k = choose|k: int| 0 <= k < prev.len() && prev[k] == pair;
        assert(cur[k] == pair);
    }
}

/// A placement links the placed cell to each same-player neighbour.
pub proof fn lemma_place_links_has_dir(
    occ: Seq<Option<PlayerId>>,
    size: u32,
    player: PlayerId,
    c: Coordinates,
    d: int,
)
    requires
        0 <= d < 6,
        nbr(c, d) is Some,
        0 <= index_of(nbr(c, d)->Some_0, size) < occ.len(),
        occ[index_of(nbr(c, d)->Some_0, size)] == Some(player),
    ensures
        place_links(occ, size, player, c).contains(
            (index_of(c, size), index_of(nbr(c, d)->Some_0, size)),
        ),
{
    let pair = (index_of(c, size), index_of(nbr(c, d)->Some_0, size));
    lemma_dir_links_has(occ, size, player, c, d, 6);
    let w0 = dir_links(occ, size, player, c, 6);
    let i = index_of(c, size);
    let total = occ.len() as int;
    let w1 = if c.x == 0 {
        w0.push((i, anchor(total, 0)))
    } else {
        w0
    };
    let w2 = if c.y == 0 {
        w1.push((i, anchor(total, 1)))
    } else {
        w1
    };
    if c.x == 0 {
        lemma_contains_push(w0, pair, (i, anchor(total, 0)));
    }
    if c.y == 0 {
        lemma_contains_push(w1, pair, (i, anchor(total, 1)));
    }
    if c.z == 0 {
        lemma_contains_push(w2, pair, (i, anchor(total, 2)));
    }
}

/// A placement links the placed cell to the anchor of each side it touches.
pub proof fn lemma_place_links_has_anchor(
    occ: Seq<Option<PlayerId>>,
    size: u32,
    player: PlayerId,
    c: Coordinates,
    side: int,
)
    requires
        0 <= side < 3,
        side == 0 ==> c.x == 0,
        side == 1 ==> c.y == 0,
        side == 2 ==> c.z == 0,
    ensures
        place_links(occ, size, player, c).contains(
            (index_of(c, size), anchor(occ.len() as int, side)),
        ),
{
    let i = index_of(c, size);
    let total = occ.len() as int;
    let pair = (i, anchor(total, side));
    let w0 = dir_links(occ, size, player, c, 6);
    let w1 = if c.x == 0 {
        w0.push((i, anchor(total, 0)))
    } else {
        w0
    };
    let w2 = if c.y == 0 {
        w1.push((i, anchor(total, 1)))
    } else {
        w1
    };
    if side == 0 {
        assert(w1[w1.len() - 1] == pair);
        if c.y == 0 {
            lemma_contains_push(w1, pair, (i, anchor(total, 1)));
        }
        if c.z == 0 {
            lemma_contains_push(w2, pair, (i, anchor(total, 2)));
        }
    } else if side == 1 {
        assert(w2[w2.len() - 1] == pair);
        if c.z == 0 {
            lemma_contains_push(w2, pair, (i, anchor(total, 2)));
        }
    } else {
        let w3 = place_links(occ, size, player, c);
        assert(w3[w3.len() - 1] == pair);
    }
}

/// A replayed model keeps the board size it was replayed at, with one
/// occupancy slot per cell.
pub proof fn lemma_replay_dimensions(size: u32, moves: Seq<Movement>)
    requires
        replay_model(size, moves) is Some,
    ensures
        size_ok(size),
        (replay_model(size, moves)->Some_0).size == size,
        (replay_model(size, moves)->Some_0).occ.len() == tri(size as int),
    decreases moves.len(),
{
    if moves.len() == 0 {
        crate::coords::lemma_tri_mono(0, size as int);
    } else {
        lemma_replay_dimensions(size, moves.drop_last());
        let m0 = replay_model(size, moves.drop_last())->Some_0;
        let m1 = replay_model(size, moves)->Some_0;
        match moves.last() {
            Movement::Action { .. } => {
                assert(m1.occ == m0.occ);
            },
            Movement::Placement { player, coords } => {
                assert(step_model(m0, moves.last()) is Ok);
                crate::coords::lemma_index_of_bound(coords, size);
                let m2 = step_model(m0, moves.last())->Ok_0;
                assert(m2.occ == m0.occ.update(index_of(coords, m0.size), Some(player)));
                assert(m1 == m2);
                assert(m1.occ.len() == m0.occ.len());
            },
        }
    }
}

/// Resigning is always accepted while the game goes on, and hands the win
/// to the other player at once, whatever the board holds.
pub proof fn lemma_resign_finishes(m: GameModel, player: PlayerId, action: GameAction)
    requires
        m.status matches GameStatus::Ongoing { .. },
    ensures
        step_model(m, Movement::Action { player, action }) matches Ok(m2) && m2.status == (
        GameStatus::Finished { winner: player.other_spec() }) && m2.occ == m.occ && m2.links0
            == m.links0 && m2.links1 == m.links1,
{
}

/// Replaying one history reaches one model: every observable part of a
/// well-formed game is determined by its board size and move history, so
/// two games that agree on those agree on occupancy, status and
/// connectivity.  This is what makes the exchange form lossless.
pub proof fn lemma_replay_deterministic(g1: GameY, g2: GameY)
    requires
        g1.wf(),
        g2.wf(),
        g1.size_spec() == g2.size_spec(),
        g1.hist() == g2.hist(),
    ensures
        g1.model() == g2.model(),
{
}

/// A game of Y in play: the aggregate the whole crate revolves around.
pub struct GameY {
    size: u32,
    cells: Vec<Option<PlayerId>>,
    history: Vec<Movement>,
    tracker0: ConnectivityTracker,
    tracker1: ConnectivityTracker,
    status: GameStatus,
}

impl GameY {
    /// The board size the game was created with.
    pub closed spec fn size_spec(&self) -> u32 {
        self.size
    }

    /// The occupant of each cell, by linear index.
    pub closed spec fn occ(&self) -> Seq<Option<PlayerId>> {
        self.cells@
    }

    /// The moves applied so far, in order.
    pub closed spec fn hist(&self) -> Seq<Movement> {
        self.history@
    }

    /// The current status.
    pub closed spec fn status_spec(&self) -> GameStatus {
        self.status
    }

    /// The game as a model: occupancy, both link sequences, status.
    pub closed spec fn model(&self) -> GameModel {
        GameModel {
            size: self.size,
            occ: self.cells@,
            links0: self.tracker0.links(),
            links1: self.tracker1.links(),
            status: self.status,
        }
    }

    /// Internal consistency of the executable state.
    pub closed spec fn wf_state(&self) -> bool {
        &&& size_ok(self.size)
        &&& self.cells@.len() == tri(self.size as int)
        &&& self.tracker0.wf()
        &&& self.tracker0.size() == tri(self.size as int) + 3
        &&& self.tracker1.wf()
        &&& self.tracker1.size() == tri(self.size as int) + 3
    }

    /// A well-formed game is exactly the replay of its own history: every
    /// observable part of it is a function of the board size and the moves.
    pub open spec fn wf(&self) -> bool {
        &&& self.wf_state()
        &&& size_ok(self.size_spec())
        &&& self.occ().len() == tri(self.size_spec() as int)
        &&& self.model().size == self.size_spec()
        &&& self.model().occ == self.occ()
        &&& self.model().status == self.status_spec()
        &&& replay_model(self.size_spec(), self.hist()) == Some(self.model())
    }

    /// Builds a fresh game of the given board size.
    pub fn new(size: u32) -> (r: GameY)
        requires
            size_ok(size),
        ensures
            r.wf(),
            r.size_spec() == size,
            r.hist() == Seq::<Movement>::empty(),
            r.model() == init_model(size),
    {
        let total = crate::coords::cell_count(size);
        let mut cells: Vec<Option<PlayerId>> = Vec::new();
        let mut i: u32 = 0;
        while i < total
            invariant
                i <= total,
                cells@.len() == i,
                forall|k: int| 0 <= k < i ==> (#[trigger] cells@[k]) matches None::<PlayerId>,
            decreases total - i,
        {
            cells.push(None);
            i = i + 1;
        }
        let r = GameY {
            size,
            cells,
            history: Vec::new(),
            tracker0: ConnectivityTracker::new(total + 3),
            tracker1: ConnectivityTracker::new(total + 3),
            status: GameStatus::Ongoing { next_player: PlayerId { id: 0 } },
        };
        proof {
            assert(r.model().occ =~= init_model(size).occ);
            assert(r.model() =~= init_model(size));
        }
        r
    }

    /// Builds a fresh game, rejecting an unusable board size instead of
    /// demanding one.
    pub fn try_new(size: u32) -> (r: Result<GameY, GameYError>)
        ensures
            r matches Ok(g) ==> size_ok(size) && g.wf() && g.size_spec() == size && g.hist()
                == Seq::<Movement>::empty() && g.model() == init_model(size),
            r matches Err(e) ==> !size_ok(size) && e matches GameYError::InvalidBoardSize,
    {
        proof {
            crate::coords::lemma_tri_closed(size as int);
            assert((size as int) * (size as int + 1) <= 0xFFFF_FFFF_0000_0000) by (nonlinear_arith)
                requires
                    size <= 0xFFFF_FFFFu32,
            ;
        }
        let wide = (size as u64) * (size as u64 + 1) / 2;
        if size < 2 || wide + 3 > u32::MAX as u64 {
            Err(GameYError::InvalidBoardSize)
        } else {
            Ok(GameY::new(size))
        }
    }

    /// The board size.
    pub fn board_size(&self) -> (r: u32)
        ensures
            r == self.size_spec(),
    {
        self.size
    }

    /// The number of cells on the board.
    pub fn total_cells(&self) -> (r: u32)
        requires
            self.wf(),
        ensures
            r == tri(self.size_spec() as int),
    {
        self.cells.len() as u32
    }

    /// The current status.
    pub fn status(&self) -> (r: GameStatus)
        ensures
            r == self.status_spec(),
    {
        self.status
    }

    /// The player to move, if the game goes on.
    pub fn next_player(&self) -> (r: Option<PlayerId>)
        ensures
            match self.status_spec() {
                GameStatus::Ongoing { next_player } => r == Some(next_player),
                GameStatus::Finished { .. } => r matches None,
            },
    {
        match self.status {
            GameStatus::Ongoing { next_player } => Some(next_player),
            GameStatus::Finished { .. } => None,
        }
    }

    /// Whether the game has finished.
    pub fn check_game_over(&self) -> (r: bool)
        ensures
            r == (self.status_spec() matches GameStatus::Finished { .. }),
    {
        match self.status {
            GameStatus::Finished { .. } => true,
            GameStatus::Ongoing { .. } => false,
        }
    }

    /// The indices of all unoccupied cells, in increasing order; empty when
    /// the board is full.
    pub fn available_cells(&self) -> (r: Vec<u32>)
        requires
            self.wf(),
        ensures
            r@ == avail_spec(self.occ()),
    {
        let total = self.cells.len() as u32;
        let mut out: Vec<u32> = Vec::new();
        let mut i: u32 = 0;
        while i < total
            invariant
                i <= total,
                total == self.cells@.len(),
                out@ == avail_upto(self.cells@, i as int),
            decreases total - i,
        {
            match self.cells[i as usize] {
                None => {
                    out.push(i);
                },
                Some(_) => {},
            }
            i = i + 1;
        }
        out
    }

    /// The occupant of one cell.
    pub fn cell_owner(&self, idx: u32) -> (r: Option<PlayerId>)
        requires
            self.wf(),
            idx < tri(self.size_spec() as int),
        ensures
            r == self.occ()[idx as int],
    {
        self.cells[idx as usize]
    }

    /// A copy of the move history, in order.
    pub fn history_vec(&self) -> (r: Vec<Movement>)
        ensures
            r@ == self.hist(),
    {
        let mut history: Vec<Movement> = Vec::new();
        let mut j: usize = 0;
        while j < self.history.len()
            invariant
                j <= self.history@.len(),
                history@ == self.history@.subrange(0, j as int),
            decreases self.history@.len() - j,
        {
            history.push(self.history[j]);
            proof {
                assert(history@ =~= self.history@.subrange(0, j + 1 as int));
            }
            j = j + 1;
        }
        proof {
            assert(history@ =~= self.history@);
        }
        history
    }

    /// A fully independent deep copy: occupancy and both trackers are
    /// duplicated, so mutating the copy never touches the original.
    pub fn duplicate(&self) -> (r: GameY)
        requires
            self.wf(),
        ensures
            r.wf(),
            r.size_spec() == self.size_spec(),
            r.hist() == self.hist(),
            r.model() == self.model(),
    {
        let mut cells: Vec<Option<PlayerId>> = Vec::new();
        let mut i: usize = 0;
        while i < self.cells.len()
            invariant
                i <= self.cells@.len(),
                cells@ == self.cells@.subrange(0, i as int),
            decreases self.cells@.len() - i,
        {
            cells.push(self.cells[i]);
            proof {
                assert(cells@ =~= self.cells@.subrange(0, i + 1 as int));
            }
            i = i + 1;
        }
        let mut history: Vec<Movement> = Vec::new();
        let mut j: usize = 0;
        while j < self.history.len()
            invariant
                j <= self.history@.len(),
                history@ == self.history@.subrange(0, j as int),
            decreases self.history@.len() - j,
        {
            history.push(self.history[j]);
            proof {
                assert(history@ =~= self.history@.subrange(0, j + 1 as int));
            }
            j = j + 1;
        }
        let r = GameY {
            size: self.size,
            cells,
            history,
            tracker0: self.tracker0.duplicate(),
            tracker1: self.tracker1.duplicate(),
            status: self.status,
        };
        proof {
            assert(r.cells@ =~= self.cells@);
            assert(r.history@ =~= self.history@);
            assert(r.model() =~= self.model());
        }
        r
    }

    /// Makes the links of one placement on the given tracker: one link per
    /// same-player neighbour, then one per touched side.
    fn apply_place_links(
        tracker: &mut ConnectivityTracker,
        cells: &Vec<Option<PlayerId>>,
        size: u32,
        player: PlayerId,
        coords: Coordinates,
        idx: u32,
    )
        requires
            old(tracker).wf(),
            old(tracker).size() == cells@.len() + 3,
            cells@.len() == tri(size as int),
            coord_size_ok(size),
            coords_valid(coords, size),
            idx as int == index_of(coords, size),
            idx < cells@.len(),
        ensures
            final(tracker).wf(),
            final(tracker).size() == old(tracker).size(),
            final(tracker).links() == old(tracker).links() + place_links(
                cells@,
                size,
                player,
                coords,
            ),
    {
        let ghost links0 = tracker.links();
        let total = cells.len() as u32;
        let mut d: u8 = 0;
        while d < 6
            invariant
                tracker.wf(),
                tracker.size() == cells@.len() + 3,
                cells@.len() == tri(size as int),
                coord_size_ok(size),
                coords_valid(coords, size),
                idx as int == index_of(coords, size),
                idx < cells@.len(),
                d <= 6,
                tracker.links() == links0 + dir_links(cells@, size, player, coords, d as int),
            decreases 6 - d,
        {
            let ghost pre = tracker.links();
            let mut linked = false;
            match coords.neighbor(d, size) {
                Some(n) => {
                    proof {
                        crate::coords::lemma_nbr_valid(coords, size, d as int);
                    }
                    let j = n.to_index(size);
                    match cells[j as usize] {
                        Some(q) => {
                            if q == player {
                                tracker.union(idx, j);
                                linked = true;
                                proof {
                                    assert(tracker.links() == pre.push(
                                        (idx as int, index_of(n, size)),
                                    ));
                                }
                            }
                        },
                        None => {},
                    }
                },
                None => {},
            }
            proof {
                let dl1 = dir_links(cells@, size, player, coords, d as int + 1);
                let dl0 = dir_links(cells@, size, player, coords, d as int);
                if linked {
                    assert(links0 + dl1 =~= (links0 + dl0).push(dl1.last()));
                } else {
                    assert(dl1 == dl0);
                }
            }
            d = d + 1;
        }
        if coords.x() == 0 {
            tracker.union(idx, total);
        }
        if coords.y() == 0 {
            tracker.union(idx, total + 1);
        }
        if coords.z() == 0 {
            tracker.union(idx, total + 2);
        }
        proof {
            assert(tracker.links() =~= links0 + place_links(cells@, size, player, coords));
        }
    }

    /// Whether the three side anchors of this tracker are all joined.
    fn anchors_connected(tracker: &ConnectivityTracker, total: u32) -> (r: bool)
        requires
            tracker.wf(),
            tracker.size() == total as int + 3,
            total as int + 3 <= u32::MAX,
        ensures
            r == all_anchors_joined(tracker.links(), total as int),
    {
        tracker.connected(total, total + 1) && tracker.connected(total, total + 2)
    }

    /// Applies one movement: the single mutating operation of a game.
    ///
    /// A legal movement advances the game exactly as [`step_model`] says; a
    /// rejected one reports the violated rule and leaves the game
    /// untouched.
    pub fn add_move(&mut self, movement: Movement) -> (r: Result<(), GameYError>)
        requires
            old(self).wf(),
        ensures
            final(self).wf(),
            final(self).size_spec() == old(self).size_spec(),
            r is Ok ==> step_model(old(self).model(), movement) == Ok::<GameModel, GameYError>(
                final(self).model(),
            ) && final(self).hist() == old(self).hist().push(movement),
            r matches Err(e) ==> step_model(old(self).model(), movement) == Err::<
                GameModel,
                GameYError,
            >(e) && *final(self) == *old(self),
    {
        let ghost m0 = self.model();
        let ghost hist0 = self.history@;
        match movement {
            Movement::Action { player, action: _ } => {
                match self.status {
                    GameStatus::Finished { .. } => Err(GameYError::GameAlreadyFinished),
                    GameStatus::Ongoing { .. } => {
                        self.status = GameStatus::Finished { winner: player.other() };
                        self.history.push(movement);
                        proof {
                            assert(self.model() =~= step_model(m0, movement)->Ok_0);
                            assert(self.history@.drop_last() =~= hist0);
                        }
                        Ok(())
                    },
                }
            },
            Movement::Placement { player, coords } => {
                match self.status {
                    GameStatus::Finished { .. } => Err(GameYError::GameAlreadyFinished),
                    GameStatus::Ongoing { next_player } => {
                        if player != next_player {
                            Err(GameYError::WrongTurn)
                        } else if (coords.x() as u64) + (coords.y() as u64) + (coords.z() as u64)
                            != (self.size - 1) as u64 {
                            Err(GameYError::IndexOutOfRange)
                        } else {
                            let idx = coords.to_index(self.size);
                            let occupied = match self.cells[idx as usize] {
                                Some(_) => true,
                                None => false,
                            };
                            if occupied {
                                Err(GameYError::CellOccupied)
                            } else {
                                let total = self.cells.len() as u32;
                                let won: bool;
                                if player.id == 0 {
                                    Self::apply_place_links(
                                        &mut self.tracker0,
                                        &self.cells,
                                        self.size,
                                        player,
                                        coords,
                                        idx,
                                    );
                                    won = Self::anchors_connected(&self.tracker0, total);
                                } else {
                                    Self::apply_place_links(
                                        &mut self.tracker1,
                                        &self.cells,
                                        self.size,
                                        player,
                                        coords,
                                        idx,
                                    );
                                    won = Self::anchors_connected(&self.tracker1, total);
                                }
                                self.cells[idx as usize] = Some(player);
                                self.status = if won {
                                    GameStatus::Finished { winner: player }
                                } else {
                                    GameStatus::Ongoing { next_player: player.other() }
                                };
                                self.history.push(movement);
                                proof {
                                    assert(step_model(m0, movement) is Ok);
                                    assert(self.model() =~= step_model(m0, movement)->Ok_0);
                                    assert(self.history@.drop_last() =~= hist0);
                                }
                                Ok(())
                            }
                        }
                    },
                }
            },
        }
    }
}

} // verus!
