use gamey::bot_server::AppState;
use gamey::bot_server::BoardQuery;
use gamey::bot_server::check_api_version;
use gamey::bot_server::choose_core;
use gamey::bot_server::create_default_state;
use gamey::bot_server::get_board;
use gamey::bot::AnyBot;
use gamey::bot::RandomBot;
use gamey::bot::YBotRegistry;
use gamey::coords::Coordinates;
use gamey::game_server::HumanMoveRequest;
use gamey::game_server::GameState;
use gamey::game_server::NewGameRequest;
use gamey::game_server::human_vs_bot_move;
use gamey::game_server::new_game;
use gamey::game::GameAction;
use gamey::game::GameStatus;
use gamey::game::GameY;
use gamey::game::GameYError;
use gamey::game::Movement;
use gamey::game::PlayerId;
use gamey::text::parse_u32;
use gamey::text::str_eq;
use gamey::text::tokenize;
use gamey::text::u32_to_string;
use gamey::yen::YEN;

fn place(player: u8, x: u32, y: u32, z: u32) -> Movement {
    Movement::Placement { player: PlayerId::new(player), coords: Coordinates::new(x, y, z) }
}

// Index round trip, both directions, for every cell of several board sizes.
#[test]
fn test_index_round_trip_all_sizes() {
    for size in 2..9u32 {
        let total = size * (size + 1) / 2;
        for i in 0..total {
            let c = Coordinates::from_index(i, size);
            assert_eq!(c.x() + c.y() + c.z(), size - 1);
            assert_eq!(c.to_index(size), i);
            let again = Coordinates::from_index(c.to_index(size), size);
            assert_eq!((again.x(), again.y(), again.z()), (c.x(), c.y(), c.z()));
        }
    }
}

// No cell of a board of size at least 2 touches all three sides, and a cell
// touching two sides is a corner.
#[test]
fn test_zero_coordinate_counts() {
    for size in 2..9u32 {
        let total = size * (size + 1) / 2;
        for i in 0..total {
            let c = Coordinates::from_index(i, size);
            let zeros = [c.x(), c.y(), c.z()].iter().filter(|&&v| v == 0).count();
            assert!(zeros <= 2);
            if zeros == 2 {
                assert!(c.x() == size - 1 || c.y() == size - 1 || c.z() == size - 1);
            }
        }
    }
}

// The canonical corner: cell 0 of a size-7 board, stable across calls.
#[test]
fn test_cell_zero_is_canonical_corner() {
    let first = Coordinates::from_index(0, 7);
    assert_eq!((first.x(), first.y(), first.z()), (6, 0, 0));
    let second = Coordinates::from_index(0, 7);
    assert_eq!((second.x(), second.y(), second.z()), (6, 0, 0));
}

// A size-2 board finishes by the third placement at the latest.
#[test]
fn test_size_two_board_finishes_by_third_move() {
    let mut game = GameY::new(2);
    assert!(game.add_move(place(0, 1, 0, 0)).is_ok());
    assert!(game.add_move(place(1, 0, 1, 0)).is_ok());
    assert!(game.add_move(place(0, 0, 0, 1)).is_ok());
    match game.status() {
        GameStatus::Finished { winner } => assert_eq!(winner, PlayerId::new(0)),
        GameStatus::Ongoing { .. } => panic!("the game must be decided by the third move"),
    }
}

// Filling one full side (which includes two corners) connects all three
// sides and wins; the opponent's cells do not win.
#[test]
fn test_full_side_wins() {
    let mut game = GameY::new(3);
    assert!(game.add_move(place(0, 0, 2, 0)).is_ok());
    assert!(game.add_move(place(1, 2, 0, 0)).is_ok());
    assert!(game.add_move(place(0, 0, 1, 1)).is_ok());
    assert!(game.add_move(place(1, 1, 1, 0)).is_ok());
    assert!(game.add_move(place(0, 0, 0, 2)).is_ok());
    match game.status() {
        GameStatus::Finished { winner } => assert_eq!(winner, PlayerId::new(0)),
        GameStatus::Ongoing { .. } => panic!("a full side must win"),
    }
    // No further move is accepted once the game is over.
    assert!(matches!(
        game.add_move(place(1, 1, 0, 1)),
        Err(GameYError::GameAlreadyFinished)
    ));
}

// A rejected move leaves occupancy, turn, status and history untouched.
#[test]
fn test_rejected_move_changes_nothing() {
    let mut game = GameY::new(4);
    assert!(game.add_move(place(0, 3, 0, 0)).is_ok());
    let yen_before = YEN::from_game(&game);
    let avail_before = game.available_cells();
    let status_before = game.status();
    let next_before = game.next_player();

    // Occupied cell, wrong turn, and off-board coordinates, all rejected.
    assert!(matches!(game.add_move(place(1, 3, 0, 0)), Err(GameYError::CellOccupied)));
    assert!(matches!(game.add_move(place(0, 2, 1, 0)), Err(GameYError::WrongTurn)));
    assert!(matches!(game.add_move(place(1, 3, 3, 3)), Err(GameYError::IndexOutOfRange)));

    let yen_after = YEN::from_game(&game);
    assert_eq!(yen_before.size, yen_after.size);
    assert_eq!(yen_before.moves, yen_after.moves);
    assert_eq!(avail_before, game.available_cells());
    assert_eq!(status_before, game.status());
    assert_eq!(next_before, game.next_player());
}

// Resigning finishes the game at once, whoever resigns and however full the
// board is.
#[test]
fn test_resign_finishes_immediately() {
    let mut game = GameY::new(5);
    assert!(game.add_move(place(0, 4, 0, 0)).is_ok());
    let resign = Movement::Action { player: PlayerId::new(1), action: GameAction::Resign };
    assert!(game.add_move(resign).is_ok());
    match game.status() {
        GameStatus::Finished { winner } => assert_eq!(winner, PlayerId::new(0)),
        GameStatus::Ongoing { .. } => panic!("resigning must finish the game"),
    }
    // Resigning twice is the one way resigning fails.
    assert!(matches!(game.add_move(resign), Err(GameYError::GameAlreadyFinished)));
}

// The exchange form reproduces status, occupancy and next player exactly.
#[test]
fn test_exchange_round_trip() {
    let mut game = GameY::new(4);
    assert!(game.add_move(place(0, 3, 0, 0)).is_ok());
    assert!(game.add_move(place(1, 0, 3, 0)).is_ok());
    assert!(game.add_move(place(0, 2, 1, 0)).is_ok());
    assert!(game.add_move(place(1, 0, 2, 1)).is_ok());

    let yen = YEN::from_game(&game);
    let rebuilt = GameY::try_from_yen(&yen).unwrap();
    assert_eq!(rebuilt.board_size(), game.board_size());
    assert_eq!(rebuilt.status(), game.status());
    assert_eq!(rebuilt.next_player(), game.next_player());
    assert_eq!(rebuilt.available_cells(), game.available_cells());
    assert_eq!(YEN::from_game(&rebuilt).moves, yen.moves);
}

// A history with an illegal move in it is rejected as a whole.
#[test]
fn test_exchange_rejects_illegal_history() {
    let yen = YEN {
        size: 3,
        moves: vec![place(0, 2, 0, 0), place(1, 2, 0, 0)],
    };
    assert!(matches!(GameY::try_from_yen(&yen), Err(GameYError::CellOccupied)));

    let bad_size = YEN { size: 1, moves: vec![] };
    assert!(matches!(GameY::try_from_yen(&bad_size), Err(GameYError::InvalidBoardSize)));
}

#[test]
fn test_try_new_rejects_small_boards() {
    assert!(matches!(GameY::try_new(0), Err(GameYError::InvalidBoardSize)));
    assert!(matches!(GameY::try_new(1), Err(GameYError::InvalidBoardSize)));
    assert!(GameY::try_new(2).is_ok());
}

#[test]
fn test_error_messages() {
    assert_eq!(GameYError::GameAlreadyFinished.message(), "game already finished");
    assert_eq!(GameYError::WrongTurn.message(), "not this player's turn");
    assert_eq!(GameYError::CellOccupied.message(), "cell already occupied");
    assert_eq!(GameYError::IndexOutOfRange.message(), "cell outside the board");
    assert_eq!(GameYError::InvalidBoardSize.message(), "invalid board size");
    assert_eq!(GameYError::BotNotFound.message(), "bot not found");
    let server = GameYError::ServerError { message: "port in use".to_string() };
    assert_eq!(server.message(), "port in use");
}

#[test]
fn test_available_cells_shrink_in_order() {
    let mut game = GameY::new(3);
    assert_eq!(game.available_cells(), vec![0, 1, 2, 3, 4, 5]);
    assert_eq!(game.total_cells(), 6);
    assert!(game.add_move(place(0, 2, 0, 0)).is_ok());
    assert_eq!(game.available_cells(), vec![1, 2, 3, 4, 5]);
}

// =============================================================================
// Server cores
// =============================================================================

#[test]
fn test_check_api_version() {
    assert!(check_api_version("v1").is_ok());
    assert!(check_api_version("v2").is_err());
    assert!(check_api_version("").is_err());
}

#[test]
fn test_get_board_lists_all_cells() {
    let resp = get_board("v1".to_string(), BoardQuery { size: 2 }).unwrap();
    assert_eq!(resp.size, 2);
    assert_eq!(resp.cells.len(), 3);
    let c0 = resp.cells[0];
    assert_eq!((c0.x(), c0.y(), c0.z()), (1, 0, 0));

    assert!(get_board("v2".to_string(), BoardQuery { size: 2 }).is_err());
    assert!(get_board("v1".to_string(), BoardQuery { size: 0 }).is_err());
}

#[test]
fn test_default_state_has_random_bot() {
    let state = create_default_state();
    assert!(state.bots().names().contains(&"random_bot".to_string()));
}

#[test]
fn test_choose_core_picks_free_cell() {
    let state = create_default_state();
    let yen = YEN { size: 3, moves: vec![place(0, 2, 0, 0)] };
    let resp = choose_core(&state, "v1".to_string(), "random_bot".to_string(), &yen).unwrap();
    assert!(resp.cell_id >= 1);
    assert!(resp.cell_id < 6);

    let ghost = choose_core(&state, "v1".to_string(), "ghost_bot".to_string(), &yen);
    assert!(ghost.is_err());
    let wrong_version = choose_core(&state, "v2".to_string(), "random_bot".to_string(), &yen);
    assert!(wrong_version.is_err());
}

#[test]
fn test_new_game_endpoint() {
    let resp = new_game(NewGameRequest { size: 7 }).unwrap();
    assert_eq!(resp.yen.size, 7);
    assert!(resp.yen.moves.is_empty());

    let err = new_game(NewGameRequest { size: 1 }).unwrap_err();
    assert_eq!(err.message, "Board size must be >= 2");
}

#[test]
fn test_human_vs_bot_move_round() {
    let state = AppState::new(YBotRegistry::new().with_bot(AnyBot::Random(RandomBot)));
    let start = new_game(NewGameRequest { size: 4 }).unwrap();
    let req = HumanMoveRequest { yen: start.yen, cell_id: 0 };
    let resp = human_vs_bot_move(&state, "random_bot".to_string(), &req).unwrap();
    assert_eq!(resp.human_move.cell_id, 0);
    let bot_move = resp.bot_move.expect("the game goes on, so the bot must answer");
    assert_ne!(bot_move.cell_id, 0);
    assert!(bot_move.cell_id < 10);
    assert_eq!(resp.yen.moves.len(), 2);
    assert!(matches!(resp.status, GameState::Ongoing { .. }));
}

#[test]
fn test_human_vs_bot_move_rejections() {
    let state = create_default_state();
    let start = new_game(NewGameRequest { size: 4 }).unwrap();

    let out_of_range = HumanMoveRequest { yen: YEN { size: 4, moves: vec![] }, cell_id: 10 };
    let err = human_vs_bot_move(&state, "random_bot".to_string(), &out_of_range).unwrap_err();
    assert!(err.message.contains("cell_id out of range: 10 (max 9)"));

    let bad_size = HumanMoveRequest { yen: YEN { size: 1, moves: vec![] }, cell_id: 0 };
    let err = human_vs_bot_move(&state, "random_bot".to_string(), &bad_size).unwrap_err();
    assert_eq!(err.message, "Invalid board size in YEN");

    let unknown = HumanMoveRequest { yen: start.yen, cell_id: 0 };
    let err = human_vs_bot_move(&state, "ghost_bot".to_string(), &unknown).unwrap_err();
    assert_eq!(err.message, "Unknown bot_id: ghost_bot");

    // After player 0 has moved it is player 1's turn, so the human (always
    // player 0) is rejected with the engine's reason.
    let wrong_turn = HumanMoveRequest {
        yen: YEN { size: 4, moves: vec![place(0, 3, 0, 0)] },
        cell_id: 1,
    };
    let err = human_vs_bot_move(&state, "random_bot".to_string(), &wrong_turn).unwrap_err();
    assert_eq!(err.message, "Human move rejected: not this player's turn");
}

// =============================================================================
// Text helpers
// =============================================================================

#[test]
fn test_u32_rendering() {
    assert_eq!(u32_to_string(0), "0");
    assert_eq!(u32_to_string(7), "7");
    assert_eq!(u32_to_string(1234), "1234");
    assert_eq!(u32_to_string(u32::MAX), "4294967295");
}

#[test]
fn test_parse_u32_cases() {
    assert_eq!(parse_u32("0"), Some(0));
    assert_eq!(parse_u32("+42"), Some(42));
    assert_eq!(parse_u32("4294967295"), Some(u32::MAX));
    assert_eq!(parse_u32("4294967296"), None);
    assert_eq!(parse_u32(""), None);
    assert_eq!(parse_u32("+"), None);
    assert_eq!(parse_u32("12a"), None);
    assert_eq!(parse_u32("-1"), None);
}

#[test]
fn test_tokenize_and_str_eq() {
    assert_eq!(tokenize("  one  two\tthree "), vec!["one", "two", "three"]);
    assert_eq!(tokenize(""), Vec::<String>::new());
    assert!(str_eq("abc", "abc"));
    assert!(!str_eq("abc", "abd"));
    assert!(!str_eq("abc", "ab"));
}

#[test]
fn test_large_board_coordinates() {
    // Near the largest supported board, the index mapping still round-trips.
    let size: u32 = 90000;
    let total: u32 = (90000u64 * 90001 / 2) as u32;
    for i in [0, 1, 89999, total - 1] {
        let c = Coordinates::from_index(i, size);
        assert_eq!(c.x() + c.y() + c.z(), size - 1);
        assert_eq!(c.to_index(size), i);
    }
    assert!(matches!(GameY::try_new(u32::MAX), Err(GameYError::InvalidBoardSize)));
}
