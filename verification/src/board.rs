//! The board model: squares, pieces, the standard initial layout, and the
//! raw relocation operations. Relocation is an unconditional data move;
//! legality is the caller's concern and is established by the move
//! generator and the legality filter before anything is relocated.

use vstd::prelude::*;

use crate::rules::{
    empty_cell, in_range, initial_cell, initial_placement, pl_set, place, Cell,
};

verus! {

/// The kind of piece standing on a square. `Unoccupied` is the canonical
/// placeholder held by empty squares; the `occupied` flag on `Square` is the
/// single source of truth for presence.
#[derive(Clone, Copy, PartialEq, Eq, Structural, Debug)]
pub enum PieceType {
    Pawn,
    Rook,
    Knight,
    Bishop,
    Queen,
    King,
    Unoccupied,
}

/// A board coordinate: `x` is the rank (0 is White's back rank), `y` the
/// file (0 is the queenside rook file). Both lie in `0..8` on the board.
#[derive(Clone, Copy, PartialEq, Eq, Structural, Debug)]
pub struct Move {
    pub x: u8,
    pub y: u8,
}

/// A piece: its kind, its color (`white == true` for White), and a cached
/// list of legal destinations. The cache is recomputed on every full
/// rebuild pass and is not authoritative between recomputations.
#[derive(Clone, Debug)]
pub struct Piece {
    pub piece_type: PieceType,
    pub white: bool,
    pub moves: Vec<Move>,
}

/// One square of the grid: its own coordinate, the piece on it, and whether
/// a piece is present at all.
#[derive(Clone, Debug)]
pub struct Square {
    pub x: u8,
    pub y: u8,
    pub piece: Piece,
    pub occupied: bool,
}

/// The full mutable position: the 8x8 grid and one attacked-square map per
/// color (`white_check_board[r][f]` is true iff White threatens `(r, f)`).
#[derive(Clone, Debug)]
pub struct Boards {
    pub board: Vec<Vec<Square>>,
    pub white_check_board: Vec<Vec<bool>>,
    pub black_check_board: Vec<Vec<bool>>,
}

/// One square is internally consistent and knows its own position: its
/// stored coordinate matches where it stands, and an unoccupied square holds
/// the canonical empty piece (kind `Unoccupied`, color white, no moves).
pub open spec fn sq_wf(s: Square, i: int, j: int) -> bool {
    s.x == i && s.y == j && (s.occupied <==> s.piece.piece_type != PieceType::Unoccupied) && (
    !s.occupied ==> s.piece.white == true && s.piece.moves@.len() == 0)
}

/// A well-formed grid: 8 rows of 8 consistent squares.
pub open spec fn board_wf(b: Seq<Vec<Square>>) -> bool {
    b.len() == 8 && (forall|i: int| 0 <= i < 8 ==> (#[trigger] b[i])@.len() == 8) && (forall|
        i: int,
        j: int,
    | 0 <= i < 8 && 0 <= j < 8 ==> sq_wf(#[trigger] b[i]@[j], i, j))
}

/// A well-formed attack map: 8 rows of 8 flags.
pub open spec fn map_wf(m: Seq<Vec<bool>>) -> bool {
    m.len() == 8 && forall|i: int| 0 <= i < 8 ==> (#[trigger] m[i])@.len() == 8
}

#[verifier::inline]
pub open spec fn map_at(m: Seq<Vec<bool>>, r: int, f: int) -> bool {
    m[r]@[f]
}

/// An all-false 8x8 attack map.
pub(crate) fn build_check_board() -> (m: Vec<Vec<bool>>)
    ensures
        map_wf(m@),
        forall|r: int, f: int| 0 <= r < 8 && 0 <= f < 8 ==> !map_at(m@, r, f),
{
    let mut m: Vec<Vec<bool>> = Vec::new();
    for i in 0..8
        invariant
            m@.len() == i,
            forall|r: int| 0 <= r < i ==> (#[trigger] m@[r])@.len() == 8,
            forall|r: int, f: int| 0 <= r < i && 0 <= f < 8 ==> !map_at(m@, r, f),
    {
        let mut row: Vec<bool> = Vec::new();
        for j in 0..8
            invariant
                row@.len() == j,
                forall|f: int| 0 <= f < j ==> !(#[trigger] row@[f]),
        {
            row.push(false);
        }
        m.push(row);
    }
    m
}

/// Clears an attack map to all-false, keeping its shape. Every rebuild pass
/// starts from a cleared map; maps are never updated incrementally.
pub fn reset_check_board(check_board: Vec<Vec<bool>>) -> (m: Vec<Vec<bool>>)
    requires
        map_wf(check_board@),
    ensures
        map_wf(m@),
        forall|r: int, f: int| 0 <= r < 8 && 0 <= f < 8 ==> !map_at(m@, r, f),
{
    let mut m = check_board;
    for i in 0..8
        invariant
            map_wf(m@),
            forall|r: int, f: int| 0 <= r < i && 0 <= f < 8 ==> !map_at(m@, r, f),
    {
        for j in 0..8
            invariant
                map_wf(m@),
                forall|r: int, f: int| 0 <= r < i && 0 <= f < 8 ==> !map_at(m@, r, f),
                forall|f: int| 0 <= f < j ==> !map_at(m@, i as int, f),
    {
            m[i][j] = false;
        }
    }
    m
}

/// The kind the standard initial position puts on `(line, j)`.
fn initial_kind_at(line: u8, j: u8) -> (k: PieceType)
    requires
        line < 8,
        j < 8,
    ensures
        k == crate::rules::initial_kind(line as int, j as int),
{
    if line == 0 || line == 7 {
        if j == 0 || j == 7 {
            PieceType::Rook
        } else if j == 1 || j == 6 {
            PieceType::Knight
        } else if j == 2 || j == 5 {
            PieceType::Bishop
        } else if j == 3 {
            PieceType::Queen
        } else {
            PieceType::King
        }
    } else if line == 1 || line == 6 {
        PieceType::Pawn
    } else {
        PieceType::Unoccupied
    }
}

/// One rank of the standard initial layout.
fn build_line(line: u8) -> (row: Vec<Square>)
    requires
        line < 8,
    ensures
        row@.len() == 8,
        forall|j: int| 0 <= j < 8 ==> sq_wf(#[trigger] row@[j], line as int, j),
        forall|j: int| 0 <= j < 8 ==> (#[trigger] row@[j]).piece.moves@.len() == 0,
        forall|j: int|
            0 <= j < 8 ==> (Cell {
                kind: (#[trigger] row@[j]).piece.piece_type,
                white: row@[j].piece.white,
                occ: row@[j].occupied,
            }) == initial_cell(line as int, j),
{
    let mut row: Vec<Square> = Vec::new();
    let white = line <= 1;
    let occupied = line <= 1 || line >= 6;
    for j in 0..8u8
        invariant
            line < 8,
            white == (line <= 1),
            occupied == (line <= 1 || line >= 6),
            row@.len() == j,
            forall|t: int| 0 <= t < j ==> sq_wf(#[trigger] row@[t], line as int, t),
            forall|t: int| 0 <= t < j ==> (#[trigger] row@[t]).piece.moves@.len() == 0,
            forall|t: int|
                0 <= t < j ==> (Cell {
                    kind: (#[trigger] row@[t]).piece.piece_type,
                    white: row@[t].piece.white,
                    occ: row@[t].occupied,
                }) == initial_cell(line as int, t),
    {
        let kind = initial_kind_at(line, j);
        row.push(
            Square {
                x: line,
                y: j,
                piece: Piece {
                    piece_type: kind,
                    white: if occupied {
                        white
                    } else {
                        true
                    },
                    moves: Vec::new(),
                },
                occupied,
            },
        );
    }
    row
}

/// The standard starting layout: White's back rank on rank 0, its pawns on
/// rank 1, Black's mirrored on ranks 7 and 6, all squares between empty.
pub(crate) fn build_board() -> (b: Vec<Vec<Square>>)
    ensures
        board_wf(b@),
        place(b@) == initial_placement(),
        forall|i: int, j: int|
            0 <= i < 8 && 0 <= j < 8 ==> (#[trigger] b@[i]@[j]).piece.moves@.len() == 0,
{
    let mut b: Vec<Vec<Square>> = Vec::new();
    for i in 0..8u8
        invariant
            b@.len() == i,
            forall|r: int| 0 <= r < i ==> (#[trigger] b@[r])@.len() == 8,
            forall|r: int, j: int| 0 <= r < i && 0 <= j < 8 ==> sq_wf(#[trigger] b@[r]@[j], r, j),
            forall|r: int, j: int|
                0 <= r < i && 0 <= j < 8 ==> (#[trigger] b@[r]@[j]).piece.moves@.len() == 0,
            forall|r: int, j: int|
                0 <= r < i && 0 <= j < 8 ==> (Cell {
                    kind: (#[trigger] b@[r]@[j]).piece.piece_type,
                    white: b@[r]@[j].piece.white,
                    occ: b@[r]@[j].occupied,
                }) == initial_cell(r, j),
    {
        let row = build_line(i);
        b.push(row);
    }
    proof {
        assert(place(b@) =~~= initial_placement());
    }
    b
}

/// Copies the piece identity from `move_from` onto `move_to` and marks the
/// destination occupied. The source square is left as it was; callers clear
/// it with `square_to_unoccupied`. Unconditional: legality must already have
/// been established.
pub fn square_to_square(move_from: &Move, move_to: Move, board: &mut Vec<Vec<Square>>)
    requires
        board_wf(old(board)@),
        move_from.x < 8,
        move_from.y < 8,
        move_to.x < 8,
        move_to.y < 8,
        !(move_from.x == move_to.x && move_from.y == move_to.y),
        old(board)@[move_from.x as int]@[move_from.y as int].occupied,
    ensures
        board_wf(final(board)@),
        place(final(board)@) == pl_set(
            place(old(board)@),
            move_to.x as int,
            move_to.y as int,
            Cell {
                kind: old(board)@[move_from.x as int]@[move_from.y as int].piece.piece_type,
                white: old(board)@[move_from.x as int]@[move_from.y as int].piece.white,
                occ: true,
            },
        ),
        forall|i: int, j: int|
            0 <= i < 8 && 0 <= j < 8 && !(i == move_to.x as int && j == move_to.y as int)
                ==> final(board)@[i]@[j] == old(board)@[i]@[j],
        final(board)@[move_to.x as int]@[move_to.y as int].piece.moves == old(
            board,
        )@[move_to.x as int]@[move_to.y as int].piece.moves,
{
    let fx = move_from.x as usize;
    let fy = move_from.y as usize;
    let tx = move_to.x as usize;
    let ty = move_to.y as usize;
    let kind = board[fx][fy].piece.piece_type;
    let white = board[fx][fy].piece.white;
    board[tx][ty].piece.piece_type = kind;
    board[tx][ty].piece.white = white;
    board[tx][ty].occupied = true;
    proof {
        assert(place(board@) =~~= pl_set(
            place(old(board)@),
            move_to.x as int,
            move_to.y as int,
            (Cell { kind: kind, white: white, occ: true }),
        ));
    }
}

/// Clears a square back to the canonical empty state.
pub fn square_to_unoccupied(pos: &Move, board: &mut Vec<Vec<Square>>)
    requires
        board_wf(old(board)@),
        pos.x < 8,
        pos.y < 8,
    ensures
        board_wf(final(board)@),
        place(final(board)@) == pl_set(place(old(board)@), pos.x as int, pos.y as int, empty_cell()),
        forall|i: int, j: int|
            0 <= i < 8 && 0 <= j < 8 && !(i == pos.x as int && j == pos.y as int)
                ==> final(board)@[i]@[j] == old(board)@[i]@[j],
{
    let x = pos.x as usize;
    let y = pos.y as usize;
    board[x][y].piece.piece_type = PieceType::Unoccupied;
    board[x][y].piece.white = true;
    board[x][y].piece.moves = Vec::new();
    board[x][y].occupied = false;
    proof {
        assert(place(board@) =~~= pl_set(
            place(old(board)@),
            pos.x as int,
            pos.y as int,
            empty_cell(),
        ));
    }
}

/// Whether a move list holds a destination.
pub(crate) fn moves_contains(v: &Vec<Move>, m: Move) -> (r: bool)
    ensures
        r == v@.contains(m),
{
    for i in 0..v.len()
        invariant
            forall|t: int| 0 <= t < i ==> v@[t] != m,
    {
        if v[i].x == m.x && v[i].y == m.y {
            assert(v@[i as int] == m);
            return true;
        }
    }
    assert(!v@.contains(m));
    false
}

/// A fresh grid with the same placement and empty move caches: the isolated
/// snapshot the legality filter simulates candidate moves on. Mutating the
/// snapshot cannot perturb the live position.
pub(crate) fn snapshot_board(board: &Vec<Vec<Square>>) -> (b: Vec<Vec<Square>>)
    requires
        board_wf(board@),
    ensures
        board_wf(b@),
        place(b@) == place(board@),
{
    let mut b: Vec<Vec<Square>> = Vec::new();
    for i in 0..8usize
        invariant
            board_wf(board@),
            b@.len() == i,
            forall|r: int| 0 <= r < i ==> (#[trigger] b@[r])@.len() == 8,
            forall|r: int, j: int| 0 <= r < i && 0 <= j < 8 ==> sq_wf(#[trigger] b@[r]@[j], r, j),
            forall|r: int, j: int|
                0 <= r < i && 0 <= j < 8 ==> (#[trigger] b@[r]@[j]).piece.piece_type
                    == board@[r]@[j].piece.piece_type && b@[r]@[j].piece.white
                    == board@[r]@[j].piece.white && b@[r]@[j].occupied == board@[r]@[j].occupied,
    {
        let mut row: Vec<Square> = Vec::new();
        for j in 0..8usize
            invariant
                board_wf(board@),
                i < 8,
                row@.len() == j,
                forall|t: int| 0 <= t < j ==> sq_wf(#[trigger] row@[t], i as int, t),
                forall|t: int|
                    0 <= t < j ==> (#[trigger] row@[t]).piece.piece_type
                        == board@[i as int]@[t].piece.piece_type && row@[t].piece.white
                        == board@[i as int]@[t].piece.white && row@[t].occupied
                        == board@[i as int]@[t].occupied,
        {
            let src = &board[i][j];
            row.push(
                Square {
                    x: src.x,
                    y: src.y,
                    piece: Piece {
                        piece_type: src.piece.piece_type,
                        white: src.piece.white,
                        moves: Vec::new(),
                    },
                    occupied: src.occupied,
                },
            );
        }
        b.push(row);
    }
    proof {
        assert(place(b@) =~~= place(board@));
    }
    b
}


/// An element-for-element copy of a move list.
pub(crate) fn copy_moves(v: &Vec<Move>) -> (r: Vec<Move>)
    ensures
        r@ == v@,
{
    let mut r: Vec<Move> = Vec::new();
    for i in 0..v.len()
        invariant
            r@ == v@.subrange(0, i as int),
    {
        r.push(v[i]);
        proof {
            assert(r@ =~= v@.subrange(0, i + 1));
        }
    }
    proof {
        assert(r@ =~= v@);
    }
    r
}

/// Relocates a piece named by two coordinate strings, but only if the
/// destination stands in the source piece's move list; otherwise the board
/// is returned unchanged.
pub fn move_piece(from: &String, to: &String, board: Vec<Vec<Square>>) -> (r: Vec<Vec<Square>>)
    requires
        board_wf(board@),
        crate::coord::valid_coord_str(from@),
        crate::coord::valid_coord_str(to@),
        board@[crate::coord::parsed_coord(from@).x as int]@[crate::coord::parsed_coord(
            from@,
        ).y as int].occupied,
    ensures
        board_wf(r@),
        ({
            let mf = crate::coord::parsed_coord(from@);
            let mt = crate::coord::parsed_coord(to@);
            if board@[mf.x as int]@[mf.y as int].piece.moves@.contains(mt) && !(mf.x == mt.x && mf.y
                == mt.y) {
                place(r@) == crate::rules::pl_apply(
                    place(board@),
                    mf.x as int,
                    mf.y as int,
                    mt.x as int,
                    mt.y as int,
                )
            } else {
                r@ == board@
            }
        }),
{
    let move_from = crate::coord::string_to_move(from);
    let move_to = crate::coord::string_to_move(to);
    let mut board = board;
    let ghost b0 = board@;
    let in_list = moves_contains(
        &board[move_from.x as usize][move_from.y as usize].piece.moves,
        move_to,
    );
    if in_list && !(move_from.x == move_to.x && move_from.y == move_to.y) {
        square_to_square(&move_from, move_to, &mut board);
        square_to_unoccupied(&move_from, &mut board);
        proof {
            assert(place(board@) =~~= crate::rules::pl_apply(
                place(b0),
                move_from.x as int,
                move_from.y as int,
                move_to.x as int,
                move_to.y as int,
            ));
        }
    }
    board
}

} // verus!
