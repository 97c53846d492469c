use chess::game::{coordinate_from_string, Game, Piece, Rank, Team};
use chess::moves::{self, Action, ActionType};

fn action_to(moveset: &[Action], to: (isize, isize)) -> Action {
    *moveset
        .iter()
        .find(|a| a.to.coordinate == to)
        .expect("no action onto that square")
}

fn play(game: &mut Game, from: &str, to: &str) {
    let moveset = game.move_from_string(from).unwrap();
    let dest = coordinate_from_string(to).unwrap();
    let action = action_to(&moveset, dest);
    game.perform_action(action);
}

#[test]
fn lib_test_pawn_basic_move() {
    let game = Game::new();
    assert_eq!(2, game.move_from_string("a2").unwrap().len());
}

#[test]
fn tests_test_pawn_basic_move() {
    let game = Game::new();
    // singlestep move and doublestep move
    assert_eq!(2, game.move_from_string("a2").unwrap().len());
}

#[test]
fn lib_test_king_move() {
    let mut game = Game::new();
    let coordinate = Game::coordinate_from_string("e4").unwrap();
    game.white_king_square = game.matrix[coordinate.0 as usize][coordinate.1 as usize];
    game.matrix[coordinate.0 as usize][coordinate.1 as usize].piece = Some(Piece {
        rank: Rank::King,
        team: Team::White,
    });
    assert_eq!(8, game.move_from_string("e4").unwrap().len());
}

#[test]
fn tests_test_king_move() {
    let mut game = Game::new();
    let coordinate = coordinate_from_string("e4").unwrap();
    game.white_king_square = game.matrix[coordinate.0 as usize][coordinate.1 as usize];
    game.matrix[coordinate.0 as usize][coordinate.1 as usize].piece = Some(Piece {
        rank: Rank::King,
        team: Team::White,
    });
    assert_eq!(8, game.move_from_string("e4").unwrap().len());
}

#[test]
fn test_king_empty_board_moves() {
    // A king alone in the middle of an empty board has all eight steps.
    let mut game = Game::new_empty();
    game.matrix[4][0].piece = None;
    game.matrix[4][3].piece = Some(Piece {
        rank: Rank::King,
        team: Team::White,
    });
    game.white_king_square = game.matrix[4][3];
    assert_eq!(8, game.move_from_string("e4").unwrap().len());
}

#[test]
fn test_queen_move() {
    let init_state = "RB NB BB QB KB BB NB RB
            PB PB PB PB PB PB PB PB
            XX XX XX XX XX XX XX XX
            XX XX XX XX XX XX XX XX
            XX XX XX PW XX XX XX XX
            XX XX XX XX XX XX XX XX
            PW PW XX XX XX PW PW PW
            RW NW BW QW KW BW NW RW";
    let game = Game::game_from_blockstate(init_state).unwrap();
    assert_eq!(3 + 2 + 4, game.move_from_string("d1").unwrap().len())
}

#[test]
fn lib_test_castling() {
    let mut game = Game::new();
    game.matrix[5][0].piece = None;
    game.matrix[6][0].piece = None;
    let moveset = moves::castling(&game, game.matrix[4][0]);
    println!("{:?}", moveset);
    assert_eq!(moveset.len(), 1);
    game.matrix[1][0].piece = None;
    game.matrix[2][0].piece = None;
    game.matrix[3][0].piece = None;
    println!();
    println!("{:?}", moveset);
    let moveset = moves::castling(&game, game.matrix[4][0]);
    assert_eq!(moveset.len(), 2);
}

#[test]
fn tests_test_castling() {
    let mut game = Game::new();
    game.matrix[5][0].piece = None;
    game.matrix[6][0].piece = None;
    let moveset = moves::castling(&game, game.matrix[4][0]);
    println!("{:?}", moveset);
    assert_eq!(moveset.len(), 1);
    game.matrix[1][0].piece = None;
    game.matrix[2][0].piece = None;
    game.matrix[3][0].piece = None;
    println!();
    println!("{:?}", moveset);
    let moveset = moves::castling(&game, game.matrix[4][0]);
    assert_eq!(moveset.len(), 2);
}

#[test]
fn lib_test_castling_check() {
    let mut game = Game::new();
    game.matrix[5][0].piece = None;
    game.matrix[6][0].piece = None;
    game.matrix[6][1].piece = None;
    game.matrix[6][4].piece = Some(Piece {
        rank: Rank::Rook,
        team: Team::Black,
    });
    let moveset = moves::castling(&game, game.matrix[4][0]);
    println!("{:?}", moveset);
    assert_eq!(0, moveset.len());
}

#[test]
fn tests_test_castling_check() {
    let mut game = Game::new();
    game.matrix[5][0].piece = None;
    game.matrix[6][0].piece = None;
    game.matrix[6][1].piece = None;
    game.matrix[6][4].piece = Some(Piece {
        rank: Rank::Rook,
        team: Team::Black,
    });
    let moveset = moves::castling(&game, game.matrix[4][0]);
    println!("{:?}", moveset);
    assert_eq!(0, moveset.len());
}

#[test]
fn test_castling_empty_board_both_sides() {
    // A king with both rooks unmoved and every square between them empty and
    // safe gets exactly the two castling actions.
    let mut game = Game::new_empty();
    game.matrix[0][0].piece = Some(Piece {
        rank: Rank::Rook,
        team: Team::White,
    });
    game.matrix[7][0].piece = Some(Piece {
        rank: Rank::Rook,
        team: Team::White,
    });
    let moveset = moves::castling(&game, game.matrix[4][0]);
    assert_eq!(moveset.len(), 2);
    assert!(moveset.iter().all(|a| a.action_type == ActionType::Castling));
    assert!(moveset.iter().any(|a| a.to.coordinate == (6, 0)));
    assert!(moveset.iter().any(|a| a.to.coordinate == (2, 0)));

    // An attacked transit square removes that side's castling action.
    game.matrix[5][4].piece = Some(Piece {
        rank: Rank::Rook,
        team: Team::Black,
    });
    let moveset = moves::castling(&game, game.matrix[4][0]);
    assert_eq!(moveset.len(), 1);
    assert_eq!(moveset[0].to.coordinate, (2, 0));
}

#[test]
fn test_castling_performed_moves_rook() {
    let mut game = Game::new();
    game.matrix[5][0].piece = None;
    game.matrix[6][0].piece = None;
    let moveset = game.move_from_string("e1").unwrap();
    let action = action_to(&moveset, (6, 0));
    assert_eq!(action.action_type, ActionType::Castling);
    game.perform_action(action);
    assert_eq!(game.matrix[6][0].piece.unwrap().rank, Rank::King);
    assert_eq!(game.matrix[5][0].piece.unwrap().rank, Rank::Rook);
    assert!(game.matrix[4][0].piece.is_none());
    assert!(game.matrix[7][0].piece.is_none());
    assert_eq!(game.white_king_square.coordinate, (6, 0));
}

#[test]
fn test_en_passant() {
    // A white pawn on e5 may capture the black d-pawn in passing, but only
    // right after its double step.
    let init_state = "XX XX XX XX KB XX XX XX
            XX XX XX PB XX XX XX XX
            XX XX XX XX XX XX XX XX
            XX XX XX XX PW XX XX XX
            XX XX XX XX XX XX XX XX
            XX XX XX XX XX XX XX XX
            XX XX XX XX XX XX XX XX
            XX XX XX XX KW XX XX XX";
    let mut game = Game::game_from_blockstate(init_state).unwrap();
    play(&mut game, "e1", "d1");
    play(&mut game, "d7", "d5");
    let moveset = game.move_from_string("e5").unwrap();
    let capture = action_to(&moveset, (3, 5));
    assert_eq!(capture.action_type, ActionType::Enpassant);
    game.perform_action(capture);
    assert!(game.matrix[3][4].piece.is_none());
    assert_eq!(game.matrix[3][5].piece.unwrap().rank, Rank::Pawn);
    assert_eq!(game.matrix[3][5].piece.unwrap().team, Team::White);
    assert!(game.matrix[4][4].piece.is_none());
}

#[test]
fn test_castling_needs_own_rook_in_corner() {
    // An enemy piece standing on the unmoved corner square must not enable
    // castling: the corner has to hold the mover's own rook.
    let mut game = Game::new();
    game.matrix[5][0].piece = None;
    game.matrix[6][0].piece = None;
    game.matrix[7][0].piece = Some(Piece {
        rank: Rank::Knight,
        team: Team::Black,
    });
    let moveset = moves::castling(&game, game.matrix[4][0]);
    assert_eq!(moveset.len(), 0);
}

#[test]
fn test_generate_moves_errors() {
    let game = Game::new();
    assert_eq!(
        game.move_from_string("e4"),
        Err(String::from("Tried to move empty square"))
    );
    assert_eq!(
        game.move_from_string("e7"),
        Err(String::from("Cant move enemy piece"))
    );
}

#[test]
fn test_pinned_piece_cannot_move() {
    // A bishop shielding its own king from a rook may not step aside.
    let init_state = "XX XX XX XX KB XX XX XX
            XX XX XX XX RB XX XX XX
            XX XX XX XX XX XX XX XX
            XX XX XX XX XX XX XX XX
            XX XX XX XX XX XX XX XX
            XX XX XX XX BW XX XX XX
            XX XX XX XX XX XX XX XX
            XX XX XX XX KW XX XX XX";
    let game = Game::game_from_blockstate(init_state).unwrap();
    let moveset = game.move_from_string("e3").unwrap();
    assert_eq!(moveset.len(), 0);
}
