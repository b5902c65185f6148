//! The pure core of the command-line front end: argument and command
//! parsing, and the move-application helpers the interactive loop drives.
//! Reading input and printing stay outside; everything here is a function
//! from values to values.

use crate::bot::YBot;
use crate::coords::Coordinates;
use crate::coords::coords_of;
use crate::coords::tri;
use crate::game::GameModel;
use crate::game::GameStatus;
use crate::game::GameY;
use crate::game::GameYError;
use crate::game::Movement;
use crate::game::PlayerId;
use crate::game::step_model;
use crate::text::dec_str;
use crate::text::parse_u32_spec;
use crate::text::parse_u32;
use crate::text::str_eq;
use crate::text::tokens_of;
use crate::text::u32_to_string;
use crate::text::views_of;
use crate::text::tokenize;
use vstd::prelude::*;
use vstd::string::StringExecFns;

verus! {

/// How the game is played: two humans, against a bot, or as an HTTP
/// server.
#[derive(Debug, Clone, Copy, PartialEq, Eq, Structural)]
pub enum Mode {
    Computer,
    Human,
    Server,
}

/// The textual name of a mode.
pub open spec fn mode_label(m: Mode) -> Seq<char> {
    match m {
        Mode::Computer => "computer"@,
        Mode::Human => "human"@,
        Mode::Server => "server"@,
    }
}

impl Mode {
    /// The mode's textual name.
    pub fn label(&self) -> (r: String)
        ensures
            r@ == mode_label(*self),
    {
        match self {
            Mode::Computer => "computer".to_owned(),
            Mode::Human => "human".to_owned(),
            Mode::Server => "server".to_owned(),
        }
    }
}

/// The settings of one invocation: board size, mode, bot name, who moves
/// first, and the server port.
#[derive(Debug, PartialEq)]
pub struct CliArgs {
    /// Size of the triangular board (length of one side).
    pub size: u32,
    /// Game mode.
    pub mode: Mode,
    /// The bot to play against (only used against a bot).
    pub bot: String,
    /// Whether the bot makes the first move.
    pub bot_first: bool,
    /// The port a server listens on.
    pub port: u16,
}

impl Default for CliArgs {
    /// The stock settings: a board of size 7, two humans, the random bot,
    /// the human first, port 3000.
    fn default() -> (r: CliArgs)
        ensures
            r.size == 7,
            r.mode == Mode::Human,
            r.bot@ == "random_bot"@,
            r.bot_first == false,
            r.port == 3000,
    {
        CliArgs {
            size: 7,
            mode: Mode::Human,
            bot: "random_bot".to_owned(),
            bot_first: false,
            port: 3000,
        }
    }
}

/// One line of interactive input, parsed.
#[derive(Debug, PartialEq)]
pub enum Command {
    Place { idx: u32 },
    Resign,
    Empty,
    Error { message: String },
    Save { filename: String },
    Load { filename: String },
    Show3DCoords,
    ShowColors,
    ShowIdx,
    Exit,
    Help,
}

/// A command with its texts abstracted to character sequences.
pub ghost enum CommandView {
    Place { idx: u32 },
    Resign,
    Empty,
    Error { message: Seq<char> },
    Save { filename: Seq<char> },
    Load { filename: Seq<char> },
    Show3DCoords,
    ShowColors,
    ShowIdx,
    Exit,
    Help,
}

impl View for Command {
    type V = CommandView;

    open spec fn view(&self) -> CommandView {
        match self {
            Command::Place { idx } => CommandView::Place { idx: *idx },
            Command::Resign => CommandView::Resign,
            Command::Empty => CommandView::Empty,
            Command::Error { message } => CommandView::Error { message: message@ },
            Command::Save { filename } => CommandView::Save { filename: filename@ },
            Command::Load { filename } => CommandView::Load { filename: filename@ },
            Command::Show3DCoords => CommandView::Show3DCoords,
            Command::ShowColors => CommandView::ShowColors,
            Command::ShowIdx => CommandView::ShowIdx,
            Command::Exit => CommandView::Exit,
            Command::Help => CommandView::Help,
        }
    }
}

/// What `parse_idx` answers: the parsed number if it names a cell below
/// `bound`, else why not.
pub open spec fn parse_idx_spec(s: Seq<char>, bound: u32) -> Result<u32, Seq<char>> {
    match parse_u32_spec(s) {
        Option::None => Err("not a number"@),
        Option::Some(n) => if n >= bound {
            Err("out of bounds: "@ + dec_str(n as int))
        } else {
            Ok(n)
        },
    }
}

/// Parses a cell index below `bound`.
pub fn parse_idx(part: &str, bound: u32) -> (r: Result<u32, String>)
    ensures
        r matches Ok(n) ==> parse_idx_spec(part@, bound) == Ok::<u32, Seq<char>>(n),
        r matches Err(m) ==> (parse_idx_spec(part@, bound) matches Err(me) && m@ == me),
{
    match parse_u32(part) {
        Option::None => Err("not a number".to_owned()),
        Option::Some(n) => {
            if n >= bound {
                let mut msg = "out of bounds: ".to_owned();
                let num = u32_to_string(n);
                msg.append(num.as_str());
                Err(msg)
            } else {
                Ok(n)
            }
        },
    }
}

/// What `parse_command` answers on a given input line: the first token
/// selects the command; a placement is any number below `bound`.
pub open spec fn parse_command_spec(s: Seq<char>, bound: u32) -> CommandView {
    let toks = tokens_of(s);
    if toks.len() == 0 {
        CommandView::Empty
    } else {
        let t0 = toks[0];
        if t0 == "save"@ {
            if toks.len() < 2 {
                CommandView::Error { message: "Filename required"@ }
            } else {
                CommandView::Save { filename: toks[1] }
            }
        } else if t0 == "load"@ {
            if toks.len() < 2 {
                CommandView::Error { message: "Filename required"@ }
            } else {
                CommandView::Load { filename: toks[1] }
            }
        } else if t0 == "resign"@ {
            CommandView::Resign
        } else if t0 == "help"@ {
            CommandView::Help
        } else if t0 == "exit"@ {
            CommandView::Exit
        } else if t0 == "show_colors"@ {
            CommandView::ShowColors
        } else if t0 == "show_coords"@ {
            CommandView::Show3DCoords
        } else if t0 == "show_idx"@ {
            CommandView::ShowIdx
        } else {
            match parse_idx_spec(t0, bound) {
                Ok(idx) => CommandView::Place { idx },
                Err(e) => CommandView::Error { message: "Error parsing: "@ + e },
            }
        }
    }
}

/// Parses one line of interactive input.
pub fn parse_command(input: &str, bound: u32) -> (r: Command)
    ensures
        r@ == parse_command_spec(input@, bound),
{
    let parts = tokenize(input);
    if parts.len() == 0 {
        return Command::Empty;
    }
    proof {
        assert(views_of(parts@)[0] == parts@[0]@);
        if parts@.len() >= 2 {
            assert(views_of(parts@)[1] == parts@[1]@);
        }
    }
    let first = parts[0].as_str();
    if str_eq(first, "save") {
        if parts.len() < 2 {
            Command::Error { message: "Filename required".to_owned() }
        } else {
            Command::Save { filename: parts[1].clone() }
        }
    } else if str_eq(first, "load") {
        if parts.len() < 2 {
            Command::Error { message: "Filename required".to_owned() }
        } else {
            Command::Load { filename: parts[1].clone() }
        }
    } else if str_eq(first, "resign") {
        Command::Resign
    } else if str_eq(first, "help") {
        Command::Help
    } else if str_eq(first, "exit") {
        Command::Exit
    } else if str_eq(first, "show_colors") {
        Command::ShowColors
    } else if str_eq(first, "show_coords") {
        Command::Show3DCoords
    } else if str_eq(first, "show_idx") {
        Command::ShowIdx
    } else {
        match parse_idx(first, bound) {
            Ok(idx) => Command::Place { idx },
            Err(e) => {
                let mut msg = "Error parsing: ".to_owned();
                msg.append(e.as_str());
                Command::Error { message: msg }
            },
        }
    }
}

/// Applies one movement and reports whether it was accepted; a rejected
/// movement leaves the game untouched.
pub fn apply_move(game: &mut GameY, movement: Movement) -> (r: bool)
    requires
        old(game).wf(),
    ensures
        final(game).wf(),
        r == (step_model(old(game).model(), movement) is Ok),
        r ==> step_model(old(game).model(), movement) == Ok::<GameModel, GameYError>(
            final(game).model(),
        ) && final(game).hist() == old(game).hist().push(movement),
        !r ==> *final(game) == *old(game),
{
    match game.add_move(movement) {
        Ok(()) => true,
        Err(_) => false,
    }
}

/// Asks the bot for a move and applies it as the next player, if the bot
/// finds one and the game goes on.
pub fn trigger_bot_move<B: YBot>(game: &mut GameY, bot: &B)
    requires
        old(game).wf(),
    ensures
        final(game).wf(),
        final(game).size_spec() == old(game).size_spec(),
        *final(game) == *old(game) || exists|bm: Movement|
            bm matches Movement::Placement { .. } && #[trigger] step_model(
                old(game).model(),
                bm,
            ) == Ok::<GameModel, GameYError>(final(game).model()) && final(game).hist() == old(
                game,
            ).hist().push(bm),
{
    match bot.choose_move(game) {
        Option::None => {},
        Option::Some(bot_coords) => {
            match game.next_player() {
                Option::None => {},
                Option::Some(bot_player) => {
                    let bot_movement = Movement::Placement {
                        player: bot_player,
                        coords: bot_coords,
                    };
                    let res = game.add_move(bot_movement);
                    proof {
                        assert(res is Ok);
                    }
                },
            }
        },
    }
}

/// Handles a placement entered by the player: applies it, and against a
/// bot answers with the bot's move when the game goes on.  Reports the
/// rule a rejected placement violated.
pub fn handle_place_command<B: YBot>(
    game: &mut GameY,
    idx: u32,
    player: PlayerId,
    mode: Mode,
    bot: &B,
) -> (r: Result<(), GameYError>)
    requires
        old(game).wf(),
        idx < tri(old(game).size_spec() as int),
    ensures
        final(game).wf(),
        final(game).size_spec() == old(game).size_spec(),
        r matches Err(e) ==> *final(game) == *old(game) && step_model(
            old(game).model(),
            Movement::Placement { player, coords: coords_of(idx as int, old(game).size_spec()) },
        ) == Err::<GameModel, GameYError>(e),
        r is Ok ==> (step_model(
            old(game).model(),
            Movement::Placement { player, coords: coords_of(idx as int, old(game).size_spec()) },
        ) matches Ok(m1) && (final(game).model() == m1 || exists|bm: Movement|
            (bm matches Movement::Placement { .. }) && #[trigger] step_model(m1, bm) == Ok::<
                GameModel,
                GameYError,
            >(final(game).model()))),
        (r is Ok && mode != Mode::Computer) ==> (final(game).model() == step_model(
            old(game).model(),
            Movement::Placement { player, coords: coords_of(idx as int, old(game).size_spec()) },
        )->Ok_0 && final(game).hist() == old(game).hist().push(
            Movement::Placement { player, coords: coords_of(idx as int, old(game).size_spec()) },
        )),
        (r is Ok && (step_model(
            old(game).model(),
            Movement::Placement { player, coords: coords_of(idx as int, old(game).size_spec()) },
        )->Ok_0.status matches GameStatus::Finished { .. })) ==> final(game).model() == step_model(
            old(game).model(),
            Movement::Placement { player, coords: coords_of(idx as int, old(game).size_spec()) },
        )->Ok_0,
{
    let coords = Coordinates::from_index(idx, game.board_size());
    let movement = Movement::Placement { player, coords };
    match game.add_move(movement) {
        Err(e) => Err(e),
        Ok(()) => {
            if mode == Mode::Computer && !game.check_game_over() {
                trigger_bot_move(game, bot);
            }
            Ok(())
        },
    }
}

} // verus!
