use chess::game::{
    coordinate_from_string, coordinate_to_string, not_out_of_bounds, Game, Rank, Team,
};

#[test]
fn lib_it_works() {
    assert_eq!(2 + 2, 4);
}

#[test]
fn tests_it_works() {
    assert_eq!(2 + 2, 4);
}

#[test]
fn lib_test_init() {
    let game: Game = Game::new();
    assert!("♔" == game.matrix[4][7].piece.unwrap().unicode());
    assert!("♖" == game.matrix[0][7].piece.unwrap().unicode());
}

#[test]
fn tests_test_init() {
    let game: Game = Game::new();
    assert!("♔" == game.matrix[4][7].piece.unwrap().unicode());
    assert!("♖" == game.matrix[0][7].piece.unwrap().unicode());
}

#[test]
fn lib_test_out_of_bounds() {
    assert!(not_out_of_bounds(-1, 1) == false);
    assert!(not_out_of_bounds(0, 8) == false);
    assert!(not_out_of_bounds(-1, -1) == false);
    assert!(not_out_of_bounds(8, 0) == false);
    assert!(not_out_of_bounds(1, 1) == true);
    assert!(not_out_of_bounds(9, 0) == false);
}

#[test]
fn tests_test_out_of_bounds() {
    assert!(not_out_of_bounds(-1, 1) == false);
    assert!(not_out_of_bounds(0, 8) == false);
    assert!(not_out_of_bounds(-1, -1) == false);
    assert!(not_out_of_bounds(8, 0) == false);
    assert!(not_out_of_bounds(1, 1) == true);
    assert!(not_out_of_bounds(9, 0) == false);
}

#[test]
fn lib_test_coordinate_from_string() {
    println!("{:?}", Game::coordinate_from_string("a1").unwrap());
    assert!(Game::coordinate_from_string("a1").unwrap() == (0, 0));
    assert_eq!(
        Game::coordinate_from_string("z1"),
        Err(String::from("first letter doesnt correspond to a column"))
    );
}

#[test]
fn tests_test_coordinate_from_string() {
    println!("{:?}", coordinate_from_string("a1").unwrap());
    assert!(coordinate_from_string("a1").unwrap() == (0, 0));
    assert_eq!(
        coordinate_from_string("z1"),
        Err(String::from("first letter doesnt correspond to a column"))
    );
}

#[test]
fn it_works() {
    assert_eq!(2 + 2, 4);
}

#[test]
fn test_init() {
    let game: Game = Game::new();
    assert!("♔" == game.matrix[4][7].piece.unwrap().unicode());
    assert!("♖" == game.matrix[0][7].piece.unwrap().unicode());
}

#[test]
fn test_out_of_bounds() {
    assert!(not_out_of_bounds(-1, 1) == false);
    assert!(not_out_of_bounds(0, 8) == false);
    assert!(not_out_of_bounds(-1, -1) == false);
    assert!(not_out_of_bounds(8, 0) == false);
    assert!(not_out_of_bounds(1, 1) == true);
    assert!(not_out_of_bounds(9, 0) == false);
}

#[test]
fn test_coordinate_from_string() {
    println!("{:?}", Game::coordinate_from_string("a1").unwrap());
    assert!(Game::coordinate_from_string("a1").unwrap() == (0, 0));
    assert_eq!(
        Game::coordinate_from_string("z1"),
        Err(String::from("first letter doesnt correspond to a column"))
    );
}

#[test]
fn test_coordinate_errors() {
    assert_eq!(
        coordinate_from_string("a12"),
        Err(String::from("Coordinate wasnt in correct format"))
    );
    assert_eq!(
        coordinate_from_string(""),
        Err(String::from("Coordinate wasnt in correct format"))
    );
    assert_eq!(
        coordinate_from_string("ab"),
        Err(String::from("row digit wasnt in correct format"))
    );
    assert_eq!(
        coordinate_from_string("a0"),
        Err(String::from("Row index out of bounds"))
    );
    assert_eq!(
        coordinate_from_string("h9"),
        Err(String::from("Row index out of bounds"))
    );
}

#[test]
fn test_coordinate_round_trip() {
    // Every valid coordinate survives the trip through its text form.
    for x in 0..8isize {
        for y in 0..8isize {
            let text = coordinate_to_string((x, y));
            assert_eq!(coordinate_from_string(&text).unwrap(), (x, y));
        }
    }
    assert_eq!(coordinate_to_string((4, 3)), "e4");
    assert_eq!(coordinate_from_string("E4").unwrap(), (4, 3));
}

#[test]
fn test_initial_layout_full() {
    let game = Game::new();
    let back = [
        Rank::Rook,
        Rank::Knight,
        Rank::Bishop,
        Rank::Queen,
        Rank::King,
        Rank::Bishop,
        Rank::Knight,
        Rank::Rook,
    ];
    for x in 0..8usize {
        for y in 0..8usize {
            let sq = game.matrix[x][y];
            assert_eq!(sq.coordinate, (x as isize, y as isize));
            match y {
                0 => {
                    let p = sq.piece.unwrap();
                    assert_eq!(p.team, Team::White);
                    assert_eq!(p.rank, back[x]);
                }
                1 => {
                    let p = sq.piece.unwrap();
                    assert_eq!(p.team, Team::White);
                    assert_eq!(p.rank, Rank::Pawn);
                }
                6 => {
                    let p = sq.piece.unwrap();
                    assert_eq!(p.team, Team::Black);
                    assert_eq!(p.rank, Rank::Pawn);
                }
                7 => {
                    let p = sq.piece.unwrap();
                    assert_eq!(p.team, Team::Black);
                    assert_eq!(p.rank, back[x]);
                }
                _ => assert!(sq.piece.is_none()),
            }
        }
    }
}

#[test]
fn test_blockstate_errors() {
    // Not 64 blocks.
    assert!(Game::game_from_blockstate("KW KB XX").is_err());
    // A malformed block among 64.
    let mut bad = String::new();
    for i in 0..64 {
        if i == 10 {
            bad.push_str("ZZ ");
        } else {
            bad.push_str("XX ");
        }
    }
    assert!(Game::game_from_blockstate(&bad).is_err());
    // No kings at all.
    let mut empty = String::new();
    for _ in 0..64 {
        empty.push_str("XX ");
    }
    assert!(Game::game_from_blockstate(&empty).is_err());
}
