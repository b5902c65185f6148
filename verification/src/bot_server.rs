//! The pure core of the bot-serving HTTP API: request validation and the
//! answers, with the transport left outside.

use crate::bot::AnyBot;
use crate::bot::RandomBot;
use crate::bot::YBot;
use crate::bot::YBotRegistry;
use crate::bot::bot_name;
use crate::bot::found_at;
use crate::coords::Coordinates;
use crate::coords::coord_size_ok;
use crate::coords::coords_of;
use crate::coords::coords_valid;
use crate::coords::index_of;
use crate::coords::tri;
use crate::game::GameStatus;
use crate::game::GameY;
use crate::game::avail_spec;
use crate::game::error_text;
use crate::game::replay_model;
use crate::text::str_eq;
use crate::yen::YEN;
use vstd::prelude::*;
use vstd::string::StringExecFns;

verus! {

/// What the API answers when a request is rejected.
#[derive(Debug)]
pub struct ErrorResponse {
    pub message: String,
    pub api_version: Option<String>,
    pub bot_id: Option<String>,
}

impl ErrorResponse {
    /// Builds a rejection with its context.
    pub fn error(message: &str, api_version: Option<String>, bot_id: Option<String>) -> (r:
        ErrorResponse)
        ensures
            r.message@ == message@,
            r.api_version == api_version,
            r.bot_id == bot_id,
    {
        ErrorResponse { message: message.to_owned(), api_version, bot_id }
    }
}

/// Accepts exactly the one API version this crate speaks.
pub fn check_api_version(v: &str) -> (r: Result<(), ErrorResponse>)
    ensures
        r is Ok <==> v@ == "v1"@,
        r matches Err(e) ==> e.message@ == "Unsupported API version"@,
{
    if str_eq(v, "v1") {
        Ok(())
    } else {
        Err(ErrorResponse::error("Unsupported API version", None, None))
    }
}

/// The bots and other state the handlers share.
pub struct AppState {
    bots: YBotRegistry,
}

impl AppState {
    /// The registered bots.
    pub closed spec fn bots_spec(&self) -> Seq<AnyBot> {
        self.bots.bots_spec()
    }

    /// Wraps a registry as shared state.
    pub fn new(bots: YBotRegistry) -> (r: AppState)
        ensures
            r.bots_spec() == bots.bots_spec(),
    {
        AppState { bots }
    }

    /// The registry itself.
    pub fn bots(&self) -> (r: &YBotRegistry)
        ensures
            r.bots_spec() == self.bots_spec(),
    {
        &self.bots
    }
}

/// The stock state of the bot server: the random bot alone.
pub fn create_default_state() -> (r: AppState)
    ensures
        r.bots_spec().len() == 1,
        r.bots_spec()[0] == AnyBot::Random(RandomBot),
{
    let bots = YBotRegistry::new().with_bot(AnyBot::Random(RandomBot));
    AppState::new(bots)
}

/// A request for the cells of a board.
#[derive(Debug)]
pub struct BoardQuery {
    pub size: u32,
}

/// The cells of a board, as coordinate triples in index order.
#[derive(Debug)]
pub struct BoardResponse {
    pub api_version: String,
    pub size: u32,
    pub cells: Vec<Coordinates>,
}

/// Answers a board query: every cell of the board of the asked size, in
/// index order.  Rejected are an unknown API version, a size below one,
/// and a size whose board does not fit the cell index type.
pub fn get_board(api_version: String, q: BoardQuery) -> (r: Result<
    BoardResponse,
    ErrorResponse,
>)
    ensures
        r is Ok <==> (api_version@ == "v1"@ && coord_size_ok(q.size)),
        r matches Ok(b) ==> b.api_version@ == api_version@ && b.size == q.size && b.cells@.len()
            == tri(q.size as int) && forall|k: int|
            0 <= k < b.cells@.len() ==> #[trigger] b.cells@[k] == coords_of(k, q.size),
        r matches Err(e) ==> e.message@ == (if api_version@ != "v1"@ {
            "Unsupported API version"@
        } else if q.size < 1 {
            "size must be >= 1"@
        } else {
            "size too large"@
        }),
{
    if let Err(e) = check_api_version(api_version.as_str()) {
        return Err(e);
    }
    if q.size < 1 {
        return Err(
            ErrorResponse::error("size must be >= 1", Some(api_version), None),
        );
    }
    proof {
        crate::coords::lemma_tri_closed(q.size as int);
        assert((q.size as int) * (q.size as int + 1) <= 0xFFFF_FFFF_0000_0000) by (nonlinear_arith)
            requires
                q.size <= 0xFFFF_FFFFu32,
        ;
    }
    let wide = (q.size as u64) * (q.size as u64 + 1) / 2;
    if wide + 3 > u32::MAX as u64 {
        return Err(
            ErrorResponse::error("size too large", Some(api_version), None),
        );
    }
    let total = crate::coords::cell_count(q.size);
    let mut cells: Vec<Coordinates> = Vec::new();
    let mut idx: u32 = 0;
    while idx < total
        invariant
            coord_size_ok(q.size),
            total == tri(q.size as int),
            idx <= total,
            cells@.len() == idx,
            forall|k: int| 0 <= k < idx ==> #[trigger] cells@[k] == coords_of(k, q.size),
        decreases total - idx,
    {
        cells.push(Coordinates::from_index(idx, q.size));
        idx = idx + 1;
    }
    Ok(BoardResponse { api_version, size: q.size, cells })
}

/// The answer to a move request: which cell the bot claims.
#[derive(Debug)]
pub struct MoveResponse {
    pub api_version: String,
    pub bot_id: String,
    pub cell_id: u32,
    pub coords: Coordinates,
}

/// Answers a move request: rebuilds the game from its exchange form and
/// asks the named bot.  The returned cell is always an empty cell of the
/// rebuilt game.
pub fn choose_core(state: &AppState, api_version: String, bot_id: String, yen: &YEN) -> (r: Result<
    MoveResponse,
    ErrorResponse,
>)
    ensures
        r matches Ok(resp) ==> replay_model(yen.size, yen.moves@) matches Some(gm)
            && coords_valid(resp.coords, yen.size) && gm.occ[index_of(resp.coords, yen.size)]
            is None && resp.cell_id == index_of(resp.coords, yen.size),
        api_version@ != "v1"@ ==> r is Err,
        (forall|k: int|
            0 <= k < state.bots_spec().len() ==> bot_name(#[trigger] state.bots_spec()[k])
                != bot_id@) ==> r is Err,
        replay_model(yen.size, yen.moves@) is None ==> r is Err,
        ({
            &&& api_version@ == "v1"@
            &&& exists|k: int| #[trigger] found_at(state.bots_spec(), bot_id@, k)
            &&& replay_model(yen.size, yen.moves@) matches Some(gm)
            &&& avail_spec((replay_model(yen.size, yen.moves@)->Some_0).occ).len() > 0
            &&& (replay_model(yen.size, yen.moves@)->Some_0).status matches GameStatus::Ongoing {
                ..
            }
        }) ==> r is Ok,
        api_version@ != "v1"@ ==> (r matches Err(e) && e.message@
            == "Unsupported API version"@),
        (api_version@ == "v1"@ && (forall|k: int|
            0 <= k < state.bots_spec().len() ==> bot_name(#[trigger] state.bots_spec()[k])
                != bot_id@)) ==> (r matches Err(e) && e.message@ == "Unknown bot_id: "@
            + bot_id@),
        (api_version@ == "v1"@ && (exists|k: int|
            #[trigger] found_at(state.bots_spec(), bot_id@, k)) && replay_model(
            yen.size,
            yen.moves@,
        ) is None) ==> (r matches Err(e) && (exists|d: Seq<char>|
            e.message@ == "Invalid YEN: "@ + d)),
{
    if let Err(e) = check_api_version(api_version.as_str()) {
        return Err(e);
    }
    let bot = match state.bots().find(bot_id.as_str()) {
        Some(b) => b,
        None => {
            let mut msg = "Unknown bot_id: ".to_owned();
            msg.append(bot_id.as_str());
            return Err(ErrorResponse::error(msg.as_str(), Some(api_version), Some(bot_id)));
        },
    };
    let game = match GameY::try_from_yen(yen) {
        Ok(g) => g,
        Err(e) => {
            let mut msg = "Invalid YEN: ".to_owned();
            let detail = e.message();
            msg.append(detail.as_str());
            return Err(ErrorResponse::error(msg.as_str(), Some(api_version), Some(bot_id)));
        },
    };
    let coords = match bot.choose_move(&game) {
        Some(c) => c,
        None => {
            return Err(
                ErrorResponse::error(
                    "Bot could not choose a move",
                    Some(api_version),
                    Some(bot_id),
                ),
            );
        },
    };
    let cell_id = coords.to_index(game.board_size());
    Ok(MoveResponse { api_version, bot_id, cell_id, coords })
}

} // verus!
