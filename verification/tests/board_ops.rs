use chess::board::{move_piece, reset_check_board, square_to_square, square_to_unoccupied, Move, PieceType};
use chess::game::Game;
use chess::movegen::find_all_moves;

#[test]
fn initial_layout() {
    let game = Game::new();
    let board = game.get_board();
    let back = [
        PieceType::Rook,
        PieceType::Knight,
        PieceType::Bishop,
        PieceType::Queen,
        PieceType::King,
        PieceType::Bishop,
        PieceType::Knight,
        PieceType::Rook,
    ];
    for j in 0..8 {
        assert_eq!(board[0][j].piece.piece_type, back[j]);
        assert!(board[0][j].piece.white);
        assert_eq!(board[1][j].piece.piece_type, PieceType::Pawn);
        assert!(board[1][j].piece.white);
        for i in 2..6 {
            assert!(!board[i][j].occupied);
        }
        assert_eq!(board[6][j].piece.piece_type, PieceType::Pawn);
        assert!(!board[6][j].piece.white);
        assert_eq!(board[7][j].piece.piece_type, back[j]);
        assert!(!board[7][j].piece.white);
        assert_eq!(board[3][j].x, 3);
        assert_eq!(board[3][j].y, j as u8);
    }
}

#[test]
fn initial_move_counts() {
    let game = Game::new();
    let board = game.get_board();
    // Every white pawn may push one or two squares; every knight has two
    // leaps; the pinned-down back rank has none.
    for j in 0..8 {
        assert_eq!(board[1][j].piece.moves.len(), 2);
        assert_eq!(board[6][j].piece.moves.len(), 2);
    }
    assert_eq!(board[0][1].piece.moves.len(), 2);
    assert_eq!(board[0][6].piece.moves.len(), 2);
    for j in [0, 2, 3, 4, 5, 7] {
        assert_eq!(board[0][j].piece.moves.len(), 0);
        assert_eq!(board[7][j].piece.moves.len(), 0);
    }
}

#[test]
fn relocation_primitives() {
    let game = Game::new();
    let mut board = game.get_board();
    let from = Move { x: 1, y: 4 };
    let to = Move { x: 3, y: 4 };
    square_to_square(&from, to, &mut board);
    assert!(board[3][4].occupied);
    assert_eq!(board[3][4].piece.piece_type, PieceType::Pawn);
    assert!(board[3][4].piece.white);
    assert!(board[1][4].occupied);
    square_to_unoccupied(&from, &mut board);
    assert!(!board[1][4].occupied);
    assert_eq!(board[1][4].piece.piece_type, PieceType::Unoccupied);
    assert!(board[1][4].piece.moves.is_empty());
}

#[test]
fn move_piece_applies_only_listed_moves() {
    let game = Game::new();
    let board = game.get_board();
    // A listed move relocates the pawn.
    let board2 = move_piece(&String::from("E2"), &String::from("E4"), board);
    assert!(!board2[1][4].occupied);
    assert!(board2[3][4].occupied);
    // An unlisted move leaves the board as it stands.
    let board3 = move_piece(&String::from("E4"), &String::from("E8"), board2);
    assert!(board3[3][4].occupied);
    assert_eq!(board3[3][4].piece.piece_type, PieceType::Pawn);
    assert_eq!(board3[7][4].piece.piece_type, PieceType::King);
}

#[test]
fn reset_check_board_clears_every_flag() {
    let mut map: Vec<Vec<bool>> = Vec::new();
    for i in 0..8 {
        let mut row = Vec::new();
        for j in 0..8 {
            row.push((i + j) % 2 == 0);
        }
        map.push(row);
    }
    let map = reset_check_board(map);
    for row in &map {
        for cell in row {
            assert!(!cell);
        }
    }
}

#[test]
fn rebuild_pass_marks_attacks() {
    let game = Game::new();
    let board = game.get_board();
    let mut white_map: Vec<Vec<bool>> = Vec::new();
    let mut black_map: Vec<Vec<bool>> = Vec::new();
    for _ in 0..8 {
        white_map.push(vec![false; 8]);
        black_map.push(vec![false; 8]);
    }
    let boards = find_all_moves(board, white_map, black_map);
    // Pawns threaten their diagonals: every square of rank 3 (index 2) is
    // marked by White, rank 6 (index 5) by Black, and neither side reaches
    // the middle of the board from the start.
    for j in 0..8 {
        assert!(boards.white_check_board[2][j]);
        assert!(boards.black_check_board[5][j]);
        assert!(!boards.white_check_board[4][j]);
        assert!(!boards.black_check_board[3][j]);
    }
    // A push is not a threat: E4 is no one's mark even though a pawn may
    // move there.
    assert!(!boards.white_check_board[3][4]);
}
