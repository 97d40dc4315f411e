use chess::board::{Move, PieceType};
use chess::game::{Game, TurnError};

fn play(game: &mut Game, from: &str, to: &str) -> Result<(), TurnError> {
    game.input_move(String::from(from), String::from(to));
    game.do_turn()
}

#[test]
fn scholars_style_mate_ends_the_game() {
    let mut game = Game::new();
    assert_eq!(play(&mut game, "E2", "E3"), Ok(()));
    assert_eq!(play(&mut game, "A7", "A6"), Ok(()));
    assert_eq!(play(&mut game, "D1", "H5"), Ok(()));
    assert_eq!(play(&mut game, "A6", "A5"), Ok(()));
    assert_eq!(play(&mut game, "F1", "C4"), Ok(()));
    assert_eq!(play(&mut game, "B7", "B6"), Ok(()));
    assert!(!game.mate);
    // The queen lands on F7: the black king is attacked, cannot take her
    // (the bishop on C4 guards F7), cannot step anywhere, and no black
    // piece can help.
    assert_eq!(play(&mut game, "H5", "F7"), Ok(()));
    assert!(game.mate);
    // The turn did not flip: the game is over and White stays recorded as
    // the side whose move delivered mate.
    assert!(game.white_turn);
}

#[test]
fn check_must_be_answered() {
    let mut game = Game::new();
    assert_eq!(play(&mut game, "E2", "E4"), Ok(()));
    assert_eq!(play(&mut game, "F7", "F6"), Ok(()));
    // The queen checks along the H5-E8 diagonal.
    assert_eq!(play(&mut game, "D1", "H5"), Ok(()));
    assert!(!game.mate);
    // A move that ignores the check is filtered out.
    assert_eq!(play(&mut game, "A7", "A6"), Err(TurnError::IllegalMoveError));
    assert_eq!(play(&mut game, "D7", "D6"), Err(TurnError::IllegalMoveError));
    // Blocking the diagonal is the one pawn answer.
    assert_eq!(play(&mut game, "G7", "G6"), Ok(()));
    assert!(!game.mate);
}

#[test]
fn no_move_list_contains_a_king_square() {
    let mut game = Game::new();
    // Develop the white queen right next to the black king: even adjacent,
    // E8 never appears among her destinations.
    assert_eq!(play(&mut game, "E2", "E3"), Ok(()));
    assert_eq!(play(&mut game, "D7", "D6"), Ok(()));
    assert_eq!(play(&mut game, "D1", "F3"), Ok(()));
    assert_eq!(play(&mut game, "D6", "D5"), Ok(()));
    assert_eq!(play(&mut game, "F3", "F7"), Ok(()));
    let board = game.get_board();
    assert!(board[6][5].occupied);
    assert_eq!(board[6][5].piece.piece_type, PieceType::Queen);
    assert!(board[6][5].piece.white);
    // The queen on F7 stands beside the king on E8 and does not list it.
    assert!(!board[6][5].piece.moves.contains(&Move { x: 7, y: 4 }));
    // No list of any piece, either color, contains either king's square.
    for i in 0..8 {
        for j in 0..8 {
            for m in &board[i][j].piece.moves {
                assert!(!(m.x == 7 && m.y == 4));
                assert!(!(m.x == 0 && m.y == 4));
            }
        }
    }
}
