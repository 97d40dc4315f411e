use chess::board::{Move, PieceType};
use chess::game::{Game, TurnError};

fn play(game: &mut Game, from: &str, to: &str) -> Result<(), TurnError> {
    game.input_move(String::from(from), String::from(to));
    game.do_turn()
}

#[test]
fn opening_pawn_push_succeeds() {
    let mut game = Game::new();
    assert_eq!(play(&mut game, "E2", "E3"), Ok(()));
    let board = game.get_board();
    // The pawn left E2 and stands on E3.
    assert!(!board[1][4].occupied);
    assert_eq!(board[1][4].piece.piece_type, PieceType::Unoccupied);
    assert!(board[2][4].occupied);
    assert_eq!(board[2][4].piece.piece_type, PieceType::Pawn);
    assert!(board[2][4].piece.white);
    assert!(!game.white_turn);
    assert!(!game.mate);
}

#[test]
fn empty_square_is_rejected() {
    let mut game = Game::new();
    assert_eq!(play(&mut game, "E4", "E5"), Err(TurnError::EmptySquareError));
    assert!(game.white_turn);
    assert!(!game.mate);
}

#[test]
fn wrong_color_is_rejected() {
    let mut game = Game::new();
    assert_eq!(play(&mut game, "E7", "E6"), Err(TurnError::WrongColorError));
    assert!(game.white_turn);
}

#[test]
fn illegal_destination_is_rejected() {
    let mut game = Game::new();
    assert_eq!(play(&mut game, "E2", "E5"), Err(TurnError::IllegalMoveError));
    assert!(game.white_turn);
}

#[test]
fn rejection_leaves_the_position_unchanged() {
    let mut game = Game::new();
    let before = game.get_board();
    let _ = play(&mut game, "E4", "E5");
    let _ = play(&mut game, "E7", "E6");
    let _ = play(&mut game, "E2", "E5");
    let after = game.get_board();
    for i in 0..8 {
        for j in 0..8 {
            assert_eq!(before[i][j].occupied, after[i][j].occupied);
            assert_eq!(before[i][j].piece.piece_type, after[i][j].piece.piece_type);
            assert_eq!(before[i][j].piece.white, after[i][j].piece.white);
        }
    }
}

#[test]
fn pawn_double_step_from_start_rank() {
    let mut game = Game::new();
    assert_eq!(play(&mut game, "E2", "E4"), Ok(()));
    let board = game.get_board();
    assert!(board[3][4].occupied);
    assert_eq!(board[3][4].piece.piece_type, PieceType::Pawn);
}

#[test]
fn pawn_double_step_only_from_start_rank() {
    let mut game = Game::new();
    assert_eq!(play(&mut game, "E2", "E3"), Ok(()));
    assert_eq!(play(&mut game, "A7", "A6"), Ok(()));
    // From E3 the pawn no longer has a two-square option.
    assert_eq!(play(&mut game, "E3", "E5"), Err(TurnError::IllegalMoveError));
}

#[test]
fn pawn_double_step_blocked_midway() {
    let mut game = Game::new();
    // A white pawn marches to E6 and blocks the black E-pawn's path.
    assert_eq!(play(&mut game, "E2", "E4"), Ok(()));
    assert_eq!(play(&mut game, "A7", "A6"), Ok(()));
    assert_eq!(play(&mut game, "E4", "E5"), Ok(()));
    assert_eq!(play(&mut game, "A6", "A5"), Ok(()));
    assert_eq!(play(&mut game, "E5", "E6"), Ok(()));
    // Both the double push (blocked midway) and the single push (blocked
    // at the target) are illegal; a forward push never captures.
    assert_eq!(play(&mut game, "E7", "E5"), Err(TurnError::IllegalMoveError));
    assert_eq!(play(&mut game, "E7", "E6"), Err(TurnError::IllegalMoveError));
    // The D-pawn can capture the blocker diagonally instead.
    assert_eq!(play(&mut game, "D7", "E6"), Ok(()));
}

#[test]
fn pawn_double_step_blocked_at_target() {
    let mut game = Game::new();
    // A white knight occupies D5; the black D-pawn cannot double-push.
    assert_eq!(play(&mut game, "B1", "C3"), Ok(()));
    assert_eq!(play(&mut game, "E7", "E6"), Ok(()));
    assert_eq!(play(&mut game, "C3", "D5"), Ok(()));
    assert_eq!(play(&mut game, "D7", "D5"), Err(TurnError::IllegalMoveError));
}

#[test]
fn sliding_pieces_stop_at_the_first_blocker() {
    let mut game = Game::new();
    // From the initial position every ray is blocked by the own pawn rank.
    assert_eq!(play(&mut game, "A1", "A3"), Err(TurnError::IllegalMoveError));
    assert_eq!(play(&mut game, "D1", "D3"), Err(TurnError::IllegalMoveError));
    assert_eq!(play(&mut game, "C1", "E3"), Err(TurnError::IllegalMoveError));
}

#[test]
fn king_cannot_step_onto_attacked_empty_square() {
    let mut game = Game::new();
    // The black bishop comes to A6 and sweeps the A6-E2 diagonal: E2 is
    // then empty but attacked, and the white king may not step there.
    assert_eq!(play(&mut game, "E2", "E4"), Ok(()));
    assert_eq!(play(&mut game, "B7", "B6"), Ok(()));
    assert_eq!(play(&mut game, "A2", "A3"), Ok(()));
    assert_eq!(play(&mut game, "C8", "A6"), Ok(()));
    let board = game.get_board();
    assert!(!board[1][4].occupied);
    assert_eq!(play(&mut game, "E1", "E2"), Err(TurnError::IllegalMoveError));
}

#[test]
fn pending_input_is_cleared_after_each_turn() {
    let mut game = Game::new();
    assert_eq!(play(&mut game, "E2", "E3"), Ok(()));
    assert_eq!(game.move_from, String::new());
    assert_eq!(game.move_to, String::new());
    let _ = play(&mut game, "E7", "E9");
    assert_eq!(game.move_from, String::new());
    assert_eq!(game.move_to, String::new());
}

#[test]
fn pawn_captures_diagonally() {
    let mut game = Game::new();
    assert_eq!(play(&mut game, "E2", "E4"), Ok(()));
    assert_eq!(play(&mut game, "D7", "D5"), Ok(()));
    assert_eq!(play(&mut game, "E4", "D5"), Ok(()));
    let board = game.get_board();
    assert!(board[4][3].occupied);
    assert_eq!(board[4][3].piece.piece_type, PieceType::Pawn);
    assert!(board[4][3].piece.white);
    assert!(!board[3][4].occupied);
}

#[test]
fn pawn_cannot_capture_straight_ahead() {
    let mut game = Game::new();
    assert_eq!(play(&mut game, "E2", "E4"), Ok(()));
    assert_eq!(play(&mut game, "E7", "E5"), Ok(()));
    assert_eq!(play(&mut game, "E4", "E5"), Err(TurnError::IllegalMoveError));
}

#[test]
fn knight_jumps_over_pieces() {
    let mut game = Game::new();
    // The knight leaps the pawn rank before any pawn has moved.
    assert_eq!(play(&mut game, "G1", "F3"), Ok(()));
    let board = game.get_board();
    assert!(board[2][5].occupied);
    assert_eq!(board[2][5].piece.piece_type, PieceType::Knight);
}

#[test]
fn cached_moves_of_an_initial_pawn() {
    let game = Game::new();
    let board = game.get_board();
    let moves = &board[1][4].piece.moves;
    assert_eq!(moves.len(), 2);
    assert!(moves.contains(&Move { x: 2, y: 4 }));
    assert!(moves.contains(&Move { x: 3, y: 4 }));
}
