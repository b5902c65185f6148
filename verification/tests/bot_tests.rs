use gamey::bot::RandomBot;
use gamey::bot::YBot;
use gamey::bot::greedy::GreedyBot;
use gamey::bot::mcts::MctsBot;
use gamey::coords::Coordinates;
use gamey::game::GameY;
use gamey::game::Movement;
use gamey::game::PlayerId;

#[test]
fn test_greedy_bot_name() {
    let bot = GreedyBot;
    assert_eq!(bot.name(), "greedy_bot");
}

#[test]
fn test_greedy_bot_chooses_strategic_move() {
    let bot = GreedyBot;
    let game = GameY::new(7);
    let chosen = bot.choose_move(&game);

    assert!(chosen.is_some());
    let coords = chosen.unwrap();

    let zeros = [coords.x(), coords.y(), coords.z()].iter().filter(|&&v| v == 0).count();
    assert!(zeros < 2, "El bot debería evitar las esquinas muertas en el primer movimiento");
}

#[test]
fn test_mcts_bot_name() {
    let bot = MctsBot::new(1000);
    assert_eq!(bot.name(), "mcts_bot");
}

#[test]
fn test_mcts_bot_returns_move_on_empty_board() {
    let bot = MctsBot::new(1000);
    let game = GameY::new(5);
    let chosen_move = bot.choose_move(&game);
    assert!(chosen_move.is_some());
}

#[test]
fn test_mcts_bot_returns_valid_coordinates() {
    let bot = MctsBot::new(1000);
    let game = GameY::new(5);
    let coords = bot.choose_move(&game).unwrap();
    let index = coords.to_index(game.board_size());
    assert!(index < 15);
}

#[test]
fn test_mcts_bot_returns_none_on_full_board() {
    let bot = MctsBot::new(1000);
    let mut game = GameY::new(2);
    let moves = vec![
        Movement::Placement { player: PlayerId::new(0), coords: Coordinates::new(1, 0, 0) },
        Movement::Placement { player: PlayerId::new(1), coords: Coordinates::new(0, 1, 0) },
        Movement::Placement { player: PlayerId::new(0), coords: Coordinates::new(0, 0, 1) },
    ];
    for mv in moves {
        let _ = game.add_move(mv);
    }
    let chosen_move = bot.choose_move(&game);
    assert!(chosen_move.is_none());
}

#[test]
fn test_random_bot_takes_last_free_cell() {
    let bot = RandomBot;
    let mut game = GameY::new(2);
    let _ = game.add_move(Movement::Placement {
        player: PlayerId::new(0),
        coords: Coordinates::new(1, 0, 0),
    });
    let _ = game.add_move(Movement::Placement {
        player: PlayerId::new(1),
        coords: Coordinates::new(0, 1, 0),
    });
    // Only (0, 0, 1) is free: the random draw has just one cell to pick.
    let coords = bot.choose_move(&game).unwrap();
    assert_eq!((coords.x(), coords.y(), coords.z()), (0, 0, 1));
}

#[test]
fn test_random_bot_name() {
    assert_eq!(RandomBot.name(), "random_bot");
}

#[test]
fn test_random_bot_picks_available_cell() {
    let bot = RandomBot;
    let game = GameY::new(4);
    let coords = bot.choose_move(&game).unwrap();
    let index = coords.to_index(game.board_size());
    assert!(index < 10);
}

#[test]
fn test_greedy_exact_choice_on_empty_board() {
    // On an empty board of size 7 the least score is 15, reached first at
    // index 6, the cell (3, 0, 3): one side touched, spread 3.
    let bot = GreedyBot;
    let game = GameY::new(7);
    let coords = bot.choose_move(&game).unwrap();
    assert_eq!((coords.x(), coords.y(), coords.z()), (3, 0, 3));
}
