use chess::game::{coordinate_from_string, Game, GameState, Piece, Rank, Team};
use chess::moves::Action;

fn action_to(moveset: &[Action], to: (isize, isize)) -> Action {
    *moveset
        .iter()
        .find(|a| a.to.coordinate == to)
        .expect("no action onto that square")
}

fn play(game: &mut Game, from: &str, to: &str) {
    let moveset = game.move_from_string(from).unwrap();
    let dest = coordinate_from_string(to).unwrap();
    let action = action_to(&moveset, dest);
    game.perform_action(action);
}

#[test]
fn lib_test_stalemate() {
    let mut game = Game::new_empty();
    game.black_king_square = game.matrix[0][7];
    game.matrix[4][7].piece = None;
    game.matrix[0][7].piece = Some(Piece {
        rank: Rank::King,
        team: Team::Black,
    });
    game.player = Team::Black;
    game.matrix[2][6].piece = Some(Piece {
        rank: Rank::Queen,
        team: Team::White,
    });
    println!("{:?}", game.get_game_state());
}

#[test]
fn tests_test_stalemate() {
    let init_state: &str = "KB XX XX XX XX XX XX XX
         XX XX QW XX XX XX XX XX
         XX XX XX XX XX XX XX XX
         XX XX XX XX XX XX XX XX
         XX XX XX XX XX XX XX XX
         XX XX XX XX XX XX XX XX
         XX XX XX XX XX XX XX XX
         XX XX XX XX KW XX XX XX";
    let mut game = Game::game_from_blockstate(init_state).unwrap();
    game.player = Team::Black;
    game.calculate_game_state();
    assert_eq!(GameState::Stalemate, game.get_game_state());
}

#[test]
fn test_checkmate() {
    let init_state: &str = "KB XX XX XX XX XX XX XX
         XX XX QW XX XX XX XX XX
         XX XX XX XX XX XX XX XX
         XX XX XX XX XX XX XX XX
         XX XX XX XX XX XX XX XX
         XX XX XX XX XX XX XX XX
         XX XX XX XX XX XX XX XX
         RW XX XX XX KW XX XX XX";
    let mut game = Game::game_from_blockstate(init_state).unwrap();
    game.player = Team::Black;
    game.calculate_game_state();
    assert_eq!(GameState::Checkmate, game.get_game_state());
}

#[test]
fn test_check() {
    let init_state: &str = "KB XX XX XX XX XX XX XX
         XX XX XX XX XX XX XX XX
         XX XX XX XX XX XX XX XX
         XX XX XX XX XX XX XX XX
         XX XX XX XX XX XX XX XX
         XX XX XX XX XX XX XX XX
         XX XX XX XX XX XX XX XX
         RW XX XX XX KW XX XX XX";
    let mut game = Game::game_from_blockstate(init_state).unwrap();
    game.player = Team::Black;

    assert_eq!(GameState::Check, game.calculate_game_state());
}

#[test]
fn test_fifty_counter_resets() {
    let mut game = Game::new();
    assert_eq!(game.fifty_turn, 0);
    play(&mut game, "g1", "f3");
    assert_eq!(game.fifty_turn, 1);
    play(&mut game, "d7", "d5");
    // A pawn move resets the counter.
    assert_eq!(game.fifty_turn, 0);
    play(&mut game, "f3", "e5");
    assert_eq!(game.fifty_turn, 1);
    play(&mut game, "b8", "c6");
    assert_eq!(game.fifty_turn, 2);
    play(&mut game, "e5", "c6");
    // A capture resets the counter.
    assert_eq!(game.fifty_turn, 0);
}

#[test]
fn test_fifty_move_draw() {
    // Two rooks shuffle for fifty full moves: no capture, no pawn move, so
    // the hundredth half-move ends the game in the fifty-move draw.
    let init_state: &str = "XX XX XX XX KB XX XX XX
         XX XX XX XX XX XX XX XX
         XX XX XX XX XX XX XX RB
         XX XX XX XX XX XX XX XX
         XX XX XX XX XX XX XX XX
         RW XX XX XX XX XX XX XX
         XX XX XX XX XX XX XX XX
         XX XX XX XX KW XX XX XX";
    let mut game = Game::game_from_blockstate(init_state).unwrap();
    for _ in 0..24 {
        play(&mut game, "a3", "b3");
        play(&mut game, "h6", "g6");
        play(&mut game, "b3", "a3");
        play(&mut game, "g6", "h6");
    }
    assert_eq!(game.fifty_turn, 96);
    play(&mut game, "a3", "b3");
    play(&mut game, "h6", "g6");
    play(&mut game, "b3", "a3");
    assert_eq!(game.get_game_state(), GameState::Active);
    assert_eq!(game.fifty_turn, 99);
    play(&mut game, "g6", "h6");
    assert_eq!(game.fifty_turn, 100);
    assert_eq!(game.get_game_state(), GameState::FiftyRule);
}

#[test]
fn test_unmoved_by_history() {
    let mut game = Game::new();
    assert!(game.unmoved(game.matrix[0][0]));
    assert!(game.unmoved(game.matrix[1][1]));
    play(&mut game, "g1", "f3");
    play(&mut game, "g8", "f6");
    play(&mut game, "f3", "g1");
    // The knight is back home but its square appears in the history.
    assert!(!game.unmoved(game.matrix[6][0]));
    // A pawn is judged by its rank, not the history.
    assert!(game.unmoved(game.matrix[1][1]));
}
