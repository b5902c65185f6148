use gamey::cli::CliArgs;
use gamey::cli::Command;
use gamey::cli::Mode;
use gamey::cli::apply_move;
use gamey::cli::parse_command;
use gamey::cli::parse_idx;
use gamey::cli::trigger_bot_move;
use gamey::bot::RandomBot;
use gamey::coords::Coordinates;
use gamey::game::GameAction;
use gamey::game::GameY;
use gamey::game::Movement;
use gamey::game::PlayerId;

// =============================================================================
// parse_command tests
// =============================================================================

#[test]
fn test_parse_command_place_valid_index() {
    let command = parse_command("5", 10);
    assert_eq!(command, Command::Place { idx: 5 });
}

#[test]
fn test_parse_command_place_zero_index() {
    let command = parse_command("0", 10);
    assert_eq!(command, Command::Place { idx: 0 });
}

#[test]
fn test_parse_command_place_max_valid_index() {
    let command = parse_command("9", 10);
    assert_eq!(command, Command::Place { idx: 9 });
}

#[test]
fn test_parse_command_place_index_out_of_bounds() {
    let command = parse_command("10", 10);
    assert!(matches!(command, Command::Error { .. }));
}

#[test]
fn test_parse_command_place_large_index_out_of_bounds() {
    let command = parse_command("100", 10);
    assert!(matches!(command, Command::Error { .. }));
}

#[test]
fn test_parse_command_resign() {
    let command = parse_command("resign", 10);
    assert_eq!(command, Command::Resign);
}

#[test]
fn test_parse_command_help() {
    let command = parse_command("help", 10);
    assert_eq!(command, Command::Help);
}

#[test]
fn test_parse_command_exit() {
    let command = parse_command("exit", 10);
    assert_eq!(command, Command::Exit);
}

#[test]
fn test_parse_command_show_colors() {
    let command = parse_command("show_colors", 10);
    assert_eq!(command, Command::ShowColors);
}

#[test]
fn test_parse_command_show_coords() {
    let command = parse_command("show_coords", 10);
    assert_eq!(command, Command::Show3DCoords);
}

#[test]
fn test_parse_command_show_idx() {
    let command = parse_command("show_idx", 10);
    assert_eq!(command, Command::ShowIdx);
}

#[test]
fn test_parse_command_save_with_filename() {
    let command = parse_command("save game.json", 10);
    assert_eq!(
        command,
        Command::Save {
            filename: "game.json".to_string()
        }
    );
}

#[test]
fn test_parse_command_save_without_filename() {
    let command = parse_command("save", 10);
    assert!(matches!(command, Command::Error { .. }));
    if let Command::Error { message } = command {
        assert!(message.contains("Filename required"));
    }
}

#[test]
fn test_parse_command_load_with_filename() {
    let command = parse_command("load saved_game.json", 10);
    assert_eq!(
        command,
        Command::Load {
            filename: "saved_game.json".to_string()
        }
    );
}

#[test]
fn test_parse_command_load_without_filename() {
    let command = parse_command("load", 10);
    assert!(matches!(command, Command::Error { .. }));
    if let Command::Error { message } = command {
        assert!(message.contains("Filename required"));
    }
}

#[test]
fn test_parse_command_empty_input() {
    let command = parse_command("", 10);
    assert_eq!(command, Command::Empty);
}

#[test]
fn test_parse_command_whitespace_only() {
    let command = parse_command("   ", 10);
    assert_eq!(command, Command::Empty);
}

#[test]
fn test_parse_command_invalid_command() {
    let command = parse_command("invalid_command", 10);
    assert!(matches!(command, Command::Error { .. }));
}

#[test]
fn test_parse_command_negative_number() {
    let command = parse_command("-5", 10);
    assert!(matches!(command, Command::Error { .. }));
}

#[test]
fn test_parse_command_with_leading_whitespace() {
    let command = parse_command("  5", 10);
    assert_eq!(command, Command::Place { idx: 5 });
}

#[test]
fn test_parse_command_with_trailing_whitespace() {
    let command = parse_command("5  ", 10);
    assert_eq!(command, Command::Place { idx: 5 });
}

#[test]
fn test_parse_command_save_with_path() {
    let command = parse_command("save /tmp/game.json", 10);
    assert_eq!(
        command,
        Command::Save {
            filename: "/tmp/game.json".to_string()
        }
    );
}

// =============================================================================
// parse_idx tests
// =============================================================================

#[test]
fn test_parse_idx_valid_zero() {
    let result = parse_idx("0", 10);
    assert_eq!(result, Ok(0));
}

#[test]
fn test_parse_idx_valid_middle() {
    let result = parse_idx("5", 10);
    assert_eq!(result, Ok(5));
}

#[test]
fn test_parse_idx_valid_max() {
    let result = parse_idx("9", 10);
    assert_eq!(result, Ok(9));
}

#[test]
fn test_parse_idx_out_of_bounds_equal() {
    let result = parse_idx("10", 10);
    assert!(result.is_err());
    assert!(result.unwrap_err().contains("out of bounds"));
}

#[test]
fn test_parse_idx_out_of_bounds_larger() {
    let result = parse_idx("100", 10);
    assert!(result.is_err());
    assert!(result.unwrap_err().contains("out of bounds"));
}

#[test]
fn test_parse_idx_not_a_number() {
    let result = parse_idx("abc", 10);
    assert!(result.is_err());
    assert!(result.unwrap_err().contains("not a number"));
}

#[test]
fn test_parse_idx_negative_number() {
    let result = parse_idx("-1", 10);
    assert!(result.is_err());
    assert!(result.unwrap_err().contains("not a number"));
}

#[test]
fn test_parse_idx_float_number() {
    let result = parse_idx("5.5", 10);
    assert!(result.is_err());
}

#[test]
fn test_parse_idx_empty_string() {
    let result = parse_idx("", 10);
    assert!(result.is_err());
}

#[test]
fn test_parse_idx_bound_of_one() {
    let result = parse_idx("0", 1);
    assert_eq!(result, Ok(0));

    let result = parse_idx("1", 1);
    assert!(result.is_err());
}

#[test]
fn test_parse_idx_large_valid_number() {
    let result = parse_idx("999", 1000);
    assert_eq!(result, Ok(999));
}

// =============================================================================
// Mode tests
// =============================================================================

#[test]
fn test_mode_display_computer() {
    let mode = Mode::Computer;
    assert_eq!(mode.label(), "computer");
}

#[test]
fn test_mode_display_human() {
    let mode = Mode::Human;
    assert_eq!(mode.label(), "human");
}

#[test]
fn test_mode_display_server() {
    let mode = Mode::Server;
    assert_eq!(mode.label(), "server");
}

#[test]
fn test_mode_equality() {
    assert_eq!(Mode::Computer, Mode::Computer);
    assert_eq!(Mode::Human, Mode::Human);
    assert_eq!(Mode::Server, Mode::Server);
    assert_ne!(Mode::Computer, Mode::Human);
    assert_ne!(Mode::Human, Mode::Server);
}

#[test]
fn test_mode_logic() {
    assert_eq!(Mode::Computer.label(), "computer");
    assert_eq!(Mode::Human.label(), "human");
    assert_eq!(Mode::Server.label(), "server");
    assert_eq!(Mode::Computer, Mode::Computer);
}

#[test]
fn test_parse_idx_logic() {
    assert_eq!(parse_idx("5", 10), Ok(5));
    assert!(parse_idx("10", 10).is_err());
    assert!(parse_idx("abc", 10).is_err());
    assert!(parse_idx("-1", 10).is_err());
    assert!(parse_idx("", 10).is_err());
}

#[test]
fn test_parse_command_all_branches() {
    let b = 100;
    assert_eq!(parse_command("resign", b), Command::Resign);
    assert_eq!(parse_command("help", b), Command::Help);
    assert_eq!(parse_command("exit", b), Command::Exit);
    assert_eq!(parse_command("   ", b), Command::Empty);

    assert_eq!(parse_command("show_colors", b), Command::ShowColors);
    assert_eq!(parse_command("show_coords", b), Command::Show3DCoords);
    assert_eq!(parse_command("show_idx", b), Command::ShowIdx);

    assert_eq!(parse_command("save f.json", b), Command::Save { filename: "f.json".into() });
    assert!(matches!(parse_command("save", b), Command::Error { .. }));
    assert!(matches!(parse_command("load", b), Command::Error { .. }));

    assert!(matches!(parse_command("999", 10), Command::Error { .. }));
    assert!(matches!(parse_command("inv", b), Command::Error { .. }));
}

#[test]
fn test_apply_move_failure_branch() {
    let mut game = GameY::new(7);
    let player = PlayerId::new(0);

    let _ = game.add_move(Movement::Placement { player, coords: Coordinates::from_index(0, 7) });
    let result = apply_move(
        &mut game,
        Movement::Placement { player, coords: Coordinates::from_index(0, 7) },
    );
    assert!(!result);
}

#[test]
fn test_trigger_bot_move_safety() {
    let mut game = GameY::new(7);
    trigger_bot_move(&mut game, &RandomBot);

    let _ = game.add_move(Movement::Action { player: PlayerId::new(0), action: GameAction::Resign });
    trigger_bot_move(&mut game, &RandomBot);
}

#[test]
fn test_bot_registry_coverage() {
    let registry = gamey::bot::YBotRegistry::new().with_bot(gamey::bot::AnyBot::Random(RandomBot));
    assert!(registry.find("random_bot").is_some());
    assert!(registry.find("nonexistent").is_none());
    assert!(registry.names().contains(&"random_bot".to_string()));
}

#[test]
fn test_cli_args_default_values() {
    let args = CliArgs::default();
    assert_eq!(args.size, 7);
    assert_eq!(args.mode, Mode::Human);
    assert_eq!(args.bot, "random_bot");
    assert_eq!(args.port, 3000);
}
