use chess::game::{Game, GameState, Rank, Team};
use chess::moves::ActionType;
use chess::pgn::{
    decode_half_turn, notation_state, read_transcript, resolve_query, transcript_half_turns,
    MoveQuery,
};

fn compare_transcript_and_game(transcript: &str) {
    let mut game = Game::new();
    let (actions, gamestates) = read_transcript(transcript).unwrap();
    assert_eq!(actions.len(), gamestates.len());
    for (i, action) in actions.iter().enumerate() {
        match action.action_type {
            ActionType::Promotion => game.perform_promotion(*action, Rank::Queen),
            _ => game.perform_action(*action),
        }
        assert_eq!(game.get_game_state(), gamestates[i]);
    }
}

#[test]
fn test_with_pgn() {
    let transcripts = vec![
        "1. e4 e5 2. Bc4 Nc6 3. Qh5 Nf6 4. Qxf7# 1-0",
        "1. e4 e5 2. Qh5 Nc6 3. Qxe5+ Nxe5",
        "1. d4 d5 2. Nf3 Nf6 3. Bf4 Bf5",
    ];
    for transcript in transcripts {
        compare_transcript_and_game(transcript)
    }
}

#[test]
fn test_half_turn_tokens() {
    let tokens = transcript_half_turns("1. e4 e5 2. Nf3 {a fine move} Nc6 3. Bb5 a6 0-1");
    let words: Vec<String> = tokens.iter().map(|t| t.iter().collect()).collect();
    assert_eq!(words, vec!["e4", "e5", "Nf3", "Nc6", "Bb5", "a6"]);

    // Commentary may hide whole moves; a missing result token is fine too.
    let tokens = transcript_half_turns("1. e4 {king pawn} e5");
    let words: Vec<String> = tokens.iter().map(|t| t.iter().collect()).collect();
    assert_eq!(words, vec!["e4", "e5"]);
}

#[test]
fn test_notation_state_markers() {
    let check: Vec<char> = "Qe5+".chars().collect();
    let mate: Vec<char> = "Qf7#".chars().collect();
    let plain: Vec<char> = "Nf3".chars().collect();
    assert_eq!(notation_state(&check), GameState::Check);
    assert_eq!(notation_state(&mate), GameState::Checkmate);
    assert_eq!(notation_state(&plain), GameState::Active);
}

#[test]
fn test_decode_castling_token() {
    let mut game = Game::new();
    game.matrix[5][0].piece = None;
    game.matrix[6][0].piece = None;
    let token: Vec<char> = "O-O".chars().collect();
    let (action, promotion) = decode_half_turn(&game, &token).unwrap();
    assert_eq!(action.action_type, ActionType::Castling);
    assert_eq!(action.to.coordinate, (6, 0));
    assert!(promotion.is_none());
}

#[test]
fn test_decode_ambiguous_token() {
    // Two white rooks can both reach d1: the bare token fails, the
    // disambiguated one picks the a-file rook.
    let init_state = "XX XX XX XX KB XX XX XX
            XX XX XX XX XX XX XX XX
            XX XX XX XX XX XX XX XX
            XX XX XX XX XX XX XX XX
            XX XX XX XX XX XX XX XX
            XX XX XX XX XX XX XX XX
            XX XX XX XX KW XX XX XX
            RW XX XX XX XX XX XX RW";
    let game = Game::game_from_blockstate(init_state).unwrap();
    let bare = MoveQuery::Move {
        dest: (3, 0),
        rank: Rank::Rook,
        from_file: None,
        from_row: None,
        promotion: None,
    };
    assert!(resolve_query(&game, &bare).is_err());
    let token: Vec<char> = "Rad1".chars().collect();
    let (action, _) = decode_half_turn(&game, &token).unwrap();
    assert_eq!(action.from.coordinate, (0, 0));
    assert_eq!(action.to.coordinate, (3, 0));
}

#[test]
fn test_decode_no_candidate() {
    let game = Game::new();
    let token: Vec<char> = "Qe5".chars().collect();
    assert!(decode_half_turn(&game, &token).is_err());
    let nonsense: Vec<char> = "??".chars().collect();
    assert!(decode_half_turn(&game, &nonsense).is_err());
}

#[test]
fn test_decode_promotion() {
    let init_state = "XX XX XX XX KB XX XX XX
            PW XX XX XX XX XX XX XX
            XX XX XX XX XX XX XX XX
            XX XX XX XX XX XX XX XX
            XX XX XX XX XX XX XX XX
            XX XX XX XX XX XX XX XX
            XX XX XX XX XX XX XX XX
            XX XX XX XX KW XX XX XX";
    let mut game = Game::game_from_blockstate(init_state).unwrap();
    let token: Vec<char> = "a8=N".chars().collect();
    let (action, promotion) = decode_half_turn(&game, &token).unwrap();
    assert_eq!(action.action_type, ActionType::Promotion);
    assert_eq!(promotion, Some(Rank::Knight));
    game.perform_promotion(action, promotion.unwrap());
    let promoted = game.matrix[0][7].piece.unwrap();
    assert_eq!(promoted.rank, Rank::Knight);
    assert_eq!(promoted.team, Team::White);
    assert!(game.matrix[0][6].piece.is_none());

    // An unknown promotion letter is rejected, not defaulted.
    let other = Game::game_from_blockstate(init_state).unwrap();
    let bad: Vec<char> = "a8=X".chars().collect();
    assert!(decode_half_turn(&other, &bad).is_err());

    // A promotion token naming no rank is rejected too, never defaulted.
    let third = Game::game_from_blockstate(init_state).unwrap();
    let bare: Vec<char> = "a8".chars().collect();
    let err = decode_half_turn(&third, &bare).unwrap_err();
    assert!(err.contains("a8"));
}

#[test]
fn test_decode_errors_name_the_token() {
    let game = Game::new();
    let no_candidate: Vec<char> = "Qe5".chars().collect();
    assert!(decode_half_turn(&game, &no_candidate).unwrap_err().contains("Qe5"));
    let nonsense: Vec<char> = "Zz9x".chars().collect();
    assert!(decode_half_turn(&game, &nonsense).unwrap_err().contains("Zz9x"));
}

#[test]
fn test_disambiguator_ignored_when_unique() {
    // Only the g1 knight reaches f3, so a stray source-file letter does not
    // reject the token: disambiguation applies only among several
    // candidates.
    let game = Game::new();
    let token: Vec<char> = "Nbf3".chars().collect();
    let (action, _) = decode_half_turn(&game, &token).unwrap();
    assert_eq!(action.from.coordinate, (6, 0));
    assert_eq!(action.to.coordinate, (5, 2));
}
