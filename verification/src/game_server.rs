//! The pure core of the human-versus-bot HTTP API: game creation and the
//! combined human-then-bot move, with the transport left outside.

use crate::bot::AnyBot;
use crate::bot::RandomBot;
use crate::bot::YBot;
use crate::bot::YBotRegistry;
use crate::bot::bot_name;
use crate::bot::found_at;
use crate::bot_server::AppState;
use crate::bot_server::ErrorResponse;
use crate::coords::Coordinates;
use crate::coords::coords_of;
use crate::coords::index_of;
use crate::coords::tri;
use crate::game::GameModel;
use crate::game::GameStatus;
use crate::game::GameY;
use crate::game::GameYError;
use crate::game::Movement;
use crate::game::PlayerId;
use crate::game::avail_spec;
use crate::game::replay_model;
use crate::game::size_ok;
use crate::game::error_text;
use crate::game::step_model;
use crate::text::dec_str;
use crate::text::u32_to_string;
use crate::yen::YEN;
use vstd::prelude::*;
use vstd::string::StringExecFns;

verus! {

/// A request for a fresh game.
#[derive(Debug)]
pub struct NewGameRequest {
    pub size: u32,
}

/// A fresh game, in exchange form.
#[derive(Debug)]
pub struct NewGameResponse {
    pub yen: YEN,
}

/// One human placement on a game in exchange form.
#[derive(Debug)]
pub struct HumanMoveRequest {
    pub yen: YEN,
    pub cell_id: u32,
}

/// A placement that was applied, by index and by coordinates.
#[derive(Debug)]
pub struct AppliedMove {
    pub cell_id: u32,
    pub coords: Coordinates,
}

/// The outward form of a game's status.
#[derive(Debug)]
pub enum GameState {
    Ongoing { next: String },
    Finished { winner: String },
}

/// The answer to a human move: the game after the human's placement and,
/// when the game went on, the bot's reply.
#[derive(Debug)]
pub struct HumanVsBotMoveResponse {
    pub yen: YEN,
    pub human_move: AppliedMove,
    pub bot_move: Option<AppliedMove>,
    pub status: GameState,
}

/// Starts a fresh game of the asked size, rejecting an unusable one.
pub fn new_game(req: NewGameRequest) -> (r: Result<NewGameResponse, ErrorResponse>)
    ensures
        r is Ok <==> size_ok(req.size),
        r matches Ok(resp) ==> resp.yen.size == req.size && resp.yen.moves@
            == Seq::<Movement>::empty(),
        !size_ok(req.size) ==> (r matches Err(e) && e.message@ == "Board size must be >= 2"@),
{
    match GameY::try_new(req.size) {
        Ok(game) => {
            let yen = YEN::from_game(&game);
            Ok(NewGameResponse { yen })
        },
        Err(_) => Err(
            ErrorResponse::error("Board size must be >= 2", Some("v1".to_owned()), None),
        ),
    }
}

/// The stock state of the game server: the random bot and two search bots
/// of different strength, which share one name and differ only in their
/// budgets of 5000 and 20000 playouts.
pub fn create_default_state() -> (r: AppState)
    ensures
        r.bots_spec().len() == 3,
        r.bots_spec()[0] == AnyBot::Random(RandomBot),
        (r.bots_spec()[1] matches AnyBot::Mcts(b) && b.iterations_spec() == 5000),
        (r.bots_spec()[2] matches AnyBot::Mcts(b) && b.iterations_spec() == 20000),
        bot_name(r.bots_spec()[1]) == "mcts_bot"@,
        bot_name(r.bots_spec()[2]) == "mcts_bot"@,
{
    let medium = crate::bot::mcts::MctsBot::new(5000);
    let strong = crate::bot::mcts::MctsBot::new(20000);
    let bots = YBotRegistry::new().with_bot(AnyBot::Random(RandomBot)).with_bot(
        AnyBot::Mcts(medium),
    ).with_bot(AnyBot::Mcts(strong));
    AppState::new(bots)
}

/// The human's placement of one move request: player 0 at the named cell.
pub open spec fn human_move_of(req: &HumanMoveRequest) -> Movement {
    Movement::Placement {
        player: PlayerId { id: 0 },
        coords: coords_of(req.cell_id as int, req.yen.size),
    }
}

/// The game a move request carries, replayed from its exchange form.
pub open spec fn replayed_of(req: &HumanMoveRequest) -> Option<GameModel> {
    replay_model(req.yen.size, req.yen.moves@)
}

/// The carried game after the human's placement.
pub open spec fn after_human_of(req: &HumanMoveRequest) -> Result<GameModel, GameYError> {
    step_model(replayed_of(req)->Some_0, human_move_of(req))
}

/// Applies one human placement to a game in exchange form and, when the
/// game goes on, the named bot's reply.  The human plays as player 0, the
/// bot as player 1; any rejection reports its reason and returns no game.
pub fn human_vs_bot_move(state: &AppState, bot_id: String, req: &HumanMoveRequest) -> (r: Result<
    HumanVsBotMoveResponse,
    ErrorResponse,
>)
    ensures
        r matches Ok(resp) ==> {
            let size = req.yen.size;
            &&& replayed_of(req) is Some
            &&& after_human_of(req) matches Ok(g1)
            &&& resp.human_move.cell_id == req.cell_id
            &&& resp.human_move.coords == coords_of(req.cell_id as int, size)
            &&& resp.yen.size == size
            &&& (resp.bot_move matches None ==> {
                let g1 = after_human_of(req)->Ok_0;
                &&& g1.status matches GameStatus::Finished { .. }
                &&& resp.yen.moves@ == req.yen.moves@.push(human_move_of(req))
                &&& resp.status matches GameState::Finished { winner } && winner@ == "human"@
            })
            &&& (resp.bot_move matches Some(bm) ==> {
                let g1 = after_human_of(req)->Ok_0;
                let bot_mv = Movement::Placement { player: PlayerId { id: 1 }, coords: bm.coords };
                &&& step_model(g1, bot_mv) matches Ok(g2)
                &&& bm.cell_id == index_of(bm.coords, size)
                &&& resp.yen.moves@ == req.yen.moves@.push(human_move_of(req)).push(bot_mv)
                &&& ((step_model(g1, bot_mv)->Ok_0.status matches GameStatus::Finished { .. })
                    ==> (resp.status matches GameState::Finished { winner } && winner@
                    == "bot"@))
                &&& ((step_model(g1, bot_mv)->Ok_0.status matches GameStatus::Ongoing { .. })
                    ==> (resp.status matches GameState::Ongoing { next } && next@ == "human"@))
            })
        },
        !size_ok(req.yen.size) ==> (r matches Err(e) && e.message@
            == "Invalid board size in YEN"@),
        (size_ok(req.yen.size) && req.cell_id >= tri(req.yen.size as int)) ==> (r matches Err(e)
            && e.message@ == "cell_id out of range: "@ + dec_str(req.cell_id as int) + " (max "@
            + dec_str(tri(req.yen.size as int) - 1) + ")"@),
        (size_ok(req.yen.size) && req.cell_id < tri(req.yen.size as int) && replayed_of(req)
            is None) ==> (r matches Err(e) && exists|d: Seq<char>|
            e.message@ == "Invalid YEN: "@ + d),
        (size_ok(req.yen.size) && req.cell_id < tri(req.yen.size as int) && replayed_of(req)
            is Some && after_human_of(req) is Err) ==> (r matches Err(e) && e.message@
            == "Human move rejected: "@ + error_text(after_human_of(req)->Err_0)),
        (size_ok(req.yen.size) && req.cell_id < tri(req.yen.size as int) && replayed_of(req)
            is Some && after_human_of(req) is Ok && !(after_human_of(req)->Ok_0.status matches
        GameStatus::Finished { .. }) && (forall|k: int|
            0 <= k < state.bots_spec().len() ==> bot_name(#[trigger] state.bots_spec()[k])
                != bot_id@)) ==> (r matches Err(e) && e.message@ == "Unknown bot_id: "@
            + bot_id@),
        (size_ok(req.yen.size) && req.cell_id < tri(req.yen.size as int) && replayed_of(req)
            is Some && after_human_of(req) is Ok && !(after_human_of(req)->Ok_0.status matches
        GameStatus::Finished { .. }) && (exists|k: int|
            #[trigger] found_at(state.bots_spec(), bot_id@, k)) && avail_spec(
            after_human_of(req)->Ok_0.occ,
        ).len() == 0) ==> (r matches Err(e) && e.message@ == "Bot could not choose a move"@),
        ({
            &&& req.cell_id < tri(req.yen.size as int)
            &&& replayed_of(req) is Some
            &&& after_human_of(req) is Ok
            &&& ((after_human_of(req)->Ok_0.status matches GameStatus::Finished { .. }) || ((
            exists|k: int| #[trigger] found_at(state.bots_spec(), bot_id@, k)) && avail_spec(
                after_human_of(req)->Ok_0.occ,
            ).len() > 0))
        }) ==> r is Ok,
{
    let size = req.yen.size();
    proof {
        crate::coords::lemma_tri_closed(size as int);
        assert((size as int) * (size as int + 1) <= 0xFFFF_FFFF_0000_0000) by (nonlinear_arith)
            requires
                size <= 0xFFFF_FFFFu32,
        ;
    }
    let wide = (size as u64) * (size as u64 + 1) / 2;
    if size < 2 || wide + 3 > u32::MAX as u64 {
        proof {
            assert(!size_ok(size));
            assert(replay_model(size, req.yen.moves@) is None);
        }
        return Err(
            ErrorResponse::error("Invalid board size in YEN", Some("v1".to_owned()), Some(bot_id)),
        );
    }
    let total = crate::coords::cell_count(size);
    proof {
        reveal_with_fuel(tri, 4);
        crate::coords::lemma_tri_mono(2, size as int);
    }
    if req.cell_id >= total {
        let mut msg = "cell_id out of range: ".to_owned();
        let shown = u32_to_string(req.cell_id);
        msg.append(shown.as_str());
        msg.append(" (max ");
        let max_shown = u32_to_string(total - 1);
        msg.append(max_shown.as_str());
        msg.append(")");
        return Err(ErrorResponse::error(msg.as_str(), Some("v1".to_owned()), Some(bot_id)));
    }
    let mut game = match GameY::try_from_yen(&req.yen) {
        Ok(g) => g,
        Err(e) => {
            let mut msg = "Invalid YEN: ".to_owned();
            let detail = e.message();
            msg.append(detail.as_str());
            return Err(ErrorResponse::error(msg.as_str(), Some("v1".to_owned()), Some(bot_id)));
        },
    };
    let human_coords = Coordinates::from_index(req.cell_id, size);
    let human_player = PlayerId::new(0);
    match game.add_move(Movement::Placement { player: human_player, coords: human_coords }) {
        Ok(()) => {},
        Err(e) => {
            let mut msg = "Human move rejected: ".to_owned();
            let detail = e.message();
            msg.append(detail.as_str());
            return Err(ErrorResponse::error(msg.as_str(), Some("v1".to_owned()), Some(bot_id)));
        },
    }
    let human_applied = AppliedMove { cell_id: req.cell_id, coords: human_coords };
    if game.check_game_over() {
        let yen_out = YEN::from_game(&game);
        return Ok(
            HumanVsBotMoveResponse {
                yen: yen_out,
                human_move: human_applied,
                bot_move: None,
                status: GameState::Finished { winner: "human".to_owned() },
            },
        );
    }
    let bot = match state.bots().find(bot_id.as_str()) {
        Some(b) => b,
        None => {
            let mut msg = "Unknown bot_id: ".to_owned();
            msg.append(bot_id.as_str());
            return Err(ErrorResponse::error(msg.as_str(), Some("v1".to_owned()), Some(bot_id)));
        },
    };
    let bot_coords = match bot.choose_move(&game) {
        Some(c) => c,
        None => {
            proof {
                assert(avail_spec(game.occ()).len() == 0);
            }
            return Err(
                ErrorResponse::error(
                    "Bot could not choose a move",
                    Some("v1".to_owned()),
                    Some(bot_id),
                ),
            );
        },
    };
    let bot_cell_id = bot_coords.to_index(size);
    let ghost g1 = game.model();
    match game.add_move(Movement::Placement { player: PlayerId::new(1), coords: bot_coords }) {
        Ok(()) => {},
        Err(e) => {
            proof {
                // The bot's cell is a free cell of the board and it is the
                // bot's turn, so this placement cannot be rejected.
                assert(step_model(g1, Movement::Placement {
                    player: PlayerId { id: 1 },
                    coords: bot_coords,
                }) is Ok);
                assert(false);
            }
            let mut msg = "Bot move rejected: ".to_owned();
            let detail = e.message();
            msg.append(detail.as_str());
            return Err(ErrorResponse::error(msg.as_str(), Some("v1".to_owned()), Some(bot_id)));
        },
    }
    let bot_applied = AppliedMove { cell_id: bot_cell_id, coords: bot_coords };
    let yen_out = YEN::from_game(&game);
    let status = if game.check_game_over() {
        GameState::Finished { winner: "bot".to_owned() }
    } else {
        GameState::Ongoing { next: "human".to_owned() }
    };
    Ok(
        HumanVsBotMoveResponse {
            yen: yen_out,
            human_move: human_applied,
            bot_move: Some(bot_applied),
            status,
        },
    )
}

} // verus!
