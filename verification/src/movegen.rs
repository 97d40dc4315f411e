//! The attack-map builder and move generator. They execute as one pass:
//! examining a candidate offset both records the threat on the mover's
//! attack map and decides whether the offset is a candidate destination.

use vstd::prelude::*;

use crate::board::{
    board_wf, map_at, map_wf, reset_check_board, Boards, Move, Piece, PieceType, Square,
};
use crate::rules::{
    attacked, bishop_dir, bishop_reach, cand, in_range, is_king_at, king_offset, king_sq,
    knight_offset, landable, marks_from, nonking_attacks, nonking_upto, occ_at, one_king,
    pawn_cand, place, ray_free, ray_step, reaches_upto, rook_dir, rook_reach, slide_reaches, Cell,
};

verus! {

broadcast use vstd::seq_lib::lemma_seq_contains_after_push;

/// What `check_move` returns: the offset target is on the board, and the
/// piece may end there — a pawn probing straight ahead needs the square
/// empty, a pawn probing a diagonal needs an enemy other than the king, a
/// king needs the square unmarked by the opponent and landable, and every
/// other piece just needs it landable.
pub open spec fn cm_result(
    p: Seq<Seq<Cell>>,
    sq: Square,
    dx: int,
    dy: int,
    opp: Seq<Vec<bool>>,
) -> bool {
    let tr = sq.x + dx;
    let tf = sq.y + dy;
    let c = sq.piece.white;
    in_range(tr) && in_range(tf) && (match sq.piece.piece_type {
        PieceType::Pawn => if dy == 0 {
            !occ_at(p, tr, tf)
        } else {
            occ_at(p, tr, tf) && p[tr][tf].white != c && p[tr][tf].kind != PieceType::King
        },
        PieceType::King => !map_at(opp, tr, tf) && landable(p, c, tr, tf),
        _ => landable(p, c, tr, tf),
    })
}

/// Whether `check_move` marks the offset target on the mover's own map: an
/// on-board target is always marked, except that a pawn does not mark its
/// forward probes (a push is no threat) and a king does not mark a square
/// the opponent already marked.
pub open spec fn cm_marks(
    p: Seq<Seq<Cell>>,
    sq: Square,
    dx: int,
    dy: int,
    opp: Seq<Vec<bool>>,
) -> bool {
    let tr = sq.x + dx;
    let tf = sq.y + dy;
    in_range(tr) && in_range(tf) && (match sq.piece.piece_type {
        PieceType::Pawn => dy != 0,
        PieceType::King => !map_at(opp, tr, tf),
        _ => true,
    })
}

/// Examines one offset from a piece's square: marks the threat on the
/// mover's color's attack map and reports whether the target is a valid
/// destination. Capturing the enemy king is never valid: checkmate, not
/// capture, ends the game.
fn check_move(
    square: &Square,
    x: i8,
    y: i8,
    board: &Vec<Vec<Square>>,
    white_check_board: &mut Vec<Vec<bool>>,
    black_check_board: &mut Vec<Vec<bool>>,
) -> (r: bool)
    requires
        board_wf(board@),
        map_wf(old(white_check_board)@),
        map_wf(old(black_check_board)@),
        square.x < 8,
        square.y < 8,
        -7 <= x <= 7,
        -7 <= y <= 7,
    ensures
        map_wf(final(white_check_board)@),
        map_wf(final(black_check_board)@),
        square.piece.white ==> r == cm_result(
            place(board@),
            *square,
            x as int,
            y as int,
            old(black_check_board)@,
        ),
        !square.piece.white ==> r == cm_result(
            place(board@),
            *square,
            x as int,
            y as int,
            old(white_check_board)@,
        ),
        square.piece.white ==> final(black_check_board)@ == old(black_check_board)@,
        !square.piece.white ==> final(white_check_board)@ == old(white_check_board)@,
        square.piece.white ==> forall|rr: int, ff: int|
            0 <= rr < 8 && 0 <= ff < 8 ==> map_at(final(white_check_board)@, rr, ff) == (map_at(
                old(white_check_board)@,
                rr,
                ff,
            ) || (cm_marks(place(board@), *square, x as int, y as int, old(black_check_board)@)
                && rr == square.x + x && ff == square.y + y)),
        !square.piece.white ==> forall|rr: int, ff: int|
            0 <= rr < 8 && 0 <= ff < 8 ==> map_at(final(black_check_board)@, rr, ff) == (map_at(
                old(black_check_board)@,
                rr,
                ff,
            ) || (cm_marks(place(board@), *square, x as int, y as int, old(white_check_board)@)
                && rr == square.x + x && ff == square.y + y)),
{
    let x_: i8 = (square.x as i8) + x;
    let y_: i8 = (square.y as i8) + y;
    if x_ <= 7 && x_ >= 0 && y_ >= 0 && y_ <= 7 {
        let xu = x_ as usize;
        let yu = y_ as usize;
        match square.piece.piece_type {
            PieceType::Pawn => {
                if y != 0 {
                    if square.piece.white {
                        white_check_board[xu][yu] = true;
                    } else {
                        black_check_board[xu][yu] = true;
                    }
                    let target = &board[xu][yu];
                    target.occupied && target.piece.white != square.piece.white
                        && target.piece.piece_type != PieceType::King
                } else {
                    !board[xu][yu].occupied
                }
            },
            PieceType::King => {
                let blocked = if square.piece.white {
                    black_check_board[xu][yu]
                } else {
                    white_check_board[xu][yu]
                };
                if blocked {
                    false
                } else {
                    if square.piece.white {
                        white_check_board[xu][yu] = true;
                    } else {
                        black_check_board[xu][yu] = true;
                    }
                    let target = &board[xu][yu];
                    !target.occupied || target.piece.white != square.piece.white
                        && target.piece.piece_type != PieceType::King
                }
            },
            _ => {
                if square.piece.white {
                    white_check_board[xu][yu] = true;
                } else {
                    black_check_board[xu][yu] = true;
                }
                let target = &board[xu][yu];
                !target.occupied || target.piece.white != square.piece.white
                    && target.piece.piece_type != PieceType::King
            },
        }
    } else {
        false
    }
}

/// Candidate moves of the pawn on `square`, marking its diagonal threats.
/// Forward: one step onto an empty square, or two from the starting rank
/// when both squares are empty. Diagonals: only capturing an enemy other
/// than the king, and always threatened whether or not a capture stands
/// there.
fn moves_pawn(
    square: &Square,
    board: &Vec<Vec<Square>>,
    white_check_board: &mut Vec<Vec<bool>>,
    black_check_board: &mut Vec<Vec<bool>>,
) -> (moves: Vec<Move>)
    requires
        board_wf(board@),
        map_wf(old(white_check_board)@),
        map_wf(old(black_check_board)@),
        square.x < 8,
        square.y < 8,
        square.piece.piece_type == PieceType::Pawn,
        place(board@)[square.x as int][square.y as int] == (Cell {
            kind: PieceType::Pawn,
            white: square.piece.white,
            occ: true,
        }),
    ensures
        map_wf(final(white_check_board)@),
        map_wf(final(black_check_board)@),
        forall|m: Move| #[trigger]
            moves@.contains(m) <==> pawn_cand(
                place(board@),
                square.x as int,
                square.y as int,
                m.x as int,
                m.y as int,
            ),
        square.piece.white ==> final(black_check_board)@ == old(black_check_board)@,
        !square.piece.white ==> final(white_check_board)@ == old(white_check_board)@,
        square.piece.white ==> forall|rr: int, ff: int| #![trigger final(white_check_board)@[rr]@[ff]]
            0 <= rr < 8 && 0 <= ff < 8 ==> map_at(final(white_check_board)@, rr, ff) == (map_at(
                old(white_check_board)@,
                rr,
                ff,
            ) || marks_from(place(board@), square.x as int, square.y as int, rr, ff)),
        !square.piece.white ==> forall|rr: int, ff: int| #![trigger final(black_check_board)@[rr]@[ff]]
            0 <= rr < 8 && 0 <= ff < 8 ==> map_at(final(black_check_board)@, rr, ff) == (map_at(
                old(black_check_board)@,
                rr,
                ff,
            ) || marks_from(place(board@), square.x as int, square.y as int, rr, ff)),
{
    let mut moves: Vec<Move> = Vec::new();
    let x = square.x;
    let y = square.y;
    if square.piece.white {
        if x == 1 {
            let two_clear = check_move(square, 2, 0, board, white_check_board, black_check_board);
            let one_clear = check_move(square, 1, 0, board, white_check_board, black_check_board);
            if two_clear && one_clear {
                moves.push(Move { x: x + 2, y });
            }
        }
        if check_move(square, 1, -1, board, white_check_board, black_check_board) {
            moves.push(Move { x: x + 1, y: y - 1 });
        }
        if check_move(square, 1, 0, board, white_check_board, black_check_board) {
            moves.push(Move { x: x + 1, y });
        }
        if check_move(square, 1, 1, board, white_check_board, black_check_board) {
            moves.push(Move { x: x + 1, y: y + 1 });
        }
    } else {
        if x == 6 {
            let two_clear = check_move(square, -2, 0, board, white_check_board, black_check_board);
            let one_clear = check_move(square, -1, 0, board, white_check_board, black_check_board);
            if two_clear && one_clear {
                moves.push(Move { x: x - 2, y });
            }
        }
        if check_move(square, -1, -1, board, white_check_board, black_check_board) {
            moves.push(Move { x: x - 1, y: y - 1 });
        }
        if check_move(square, -1, 0, board, white_check_board, black_check_board) {
            moves.push(Move { x: x - 1, y });
        }
        if check_move(square, -1, 1, board, white_check_board, black_check_board) {
            moves.push(Move { x: x - 1, y: y + 1 });
        }
    }
    moves
}

/// The new map holds the old marks plus every square the ray from
/// `(pr, pf)` reaches within fewer than `n` steps.
pub open spec fn map_gains_ray(
    mold: Seq<Vec<bool>>,
    mnew: Seq<Vec<bool>>,
    p: Seq<Seq<Cell>>,
    pr: int,
    pf: int,
    dr: int,
    df: int,
    n: int,
) -> bool {
    forall|rr: int, ff: int| #![trigger mnew[rr]@[ff]]
        0 <= rr < 8 && 0 <= ff < 8 ==> map_at(mnew, rr, ff) == (map_at(mold, rr, ff)
            || reaches_upto(p, pr, pf, dr, df, n, rr, ff))
}

/// The new move list holds the old entries plus every landable square the
/// ray reaches within fewer than `n` steps.
pub open spec fn moves_gain_ray(
    sold: Seq<Move>,
    snew: Seq<Move>,
    p: Seq<Seq<Cell>>,
    c: bool,
    pr: int,
    pf: int,
    dr: int,
    df: int,
    n: int,
) -> bool {
    forall|m: Move| #[trigger]
        snew.contains(m) <==> sold.contains(m) || (reaches_upto(
            p,
            pr,
            pf,
            dr,
            df,
            n,
            m.x as int,
            m.y as int,
        ) && landable(p, c, m.x as int, m.y as int))
}

/// Walks one ray of a sliding piece: marks every square up to and including
/// the first occupied one, records the landable ones as destinations, and
/// never looks past a blocker.
#[verifier::rlimit(100)]
fn walk_ray(
    square: &Square,
    dx: i8,
    dy: i8,
    board: &Vec<Vec<Square>>,
    white_check_board: &mut Vec<Vec<bool>>,
    black_check_board: &mut Vec<Vec<bool>>,
    moves: &mut Vec<Move>,
)
    requires
        board_wf(board@),
        map_wf(old(white_check_board)@),
        map_wf(old(black_check_board)@),
        square.x < 8,
        square.y < 8,
        -1 <= dx <= 1,
        -1 <= dy <= 1,
        !(dx == 0 && dy == 0),
        square.piece.piece_type == PieceType::Rook || square.piece.piece_type == PieceType::Bishop
            || square.piece.piece_type == PieceType::Queen,
    ensures
        map_wf(final(white_check_board)@),
        map_wf(final(black_check_board)@),
        moves_gain_ray(
            old(moves)@,
            final(moves)@,
            place(board@),
            square.piece.white,
            square.x as int,
            square.y as int,
            dx as int,
            dy as int,
            8,
        ),
        square.piece.white ==> final(black_check_board)@ == old(black_check_board)@
            && map_gains_ray(
            old(white_check_board)@,
            final(white_check_board)@,
            place(board@),
            square.x as int,
            square.y as int,
            dx as int,
            dy as int,
            8,
        ),
        !square.piece.white ==> final(white_check_board)@ == old(white_check_board)@
            && map_gains_ray(
            old(black_check_board)@,
            final(black_check_board)@,
            place(board@),
            square.x as int,
            square.y as int,
            dx as int,
            dy as int,
            8,
        ),
{
    let ghost p = place(board@);
    let ghost pr = square.x as int;
    let ghost pf = square.y as int;
    let ghost dri = dx as int;
    let ghost dfi = dy as int;
    let ghost c = square.piece.white;
    let ghost w0 = white_check_board@;
    let ghost b0 = black_check_board@;
    let ghost mv0 = moves@;
    let mut t: i8 = 1;
    let mut alive = true;
    while alive
        invariant
            1 <= t <= 8,
            map_wf(white_check_board@),
            map_wf(black_check_board@),
            alive ==> t <= 7 && ray_free(p, pr, pf, dri, dfi, t as int),
            alive ==> moves_gain_ray(mv0, moves@, p, c, pr, pf, dri, dfi, t as int),
            !alive ==> moves_gain_ray(mv0, moves@, p, c, pr, pf, dri, dfi, 8),
            c ==> black_check_board@ == b0,
            !c ==> white_check_board@ == w0,
            c && alive ==> map_gains_ray(
                w0,
                white_check_board@,
                p,
                pr,
                pf,
                dri,
                dfi,
                t as int,
            ),
            c && !alive ==> map_gains_ray(
                w0,
                white_check_board@,
                p,
                pr,
                pf,
                dri,
                dfi,
                8,
            ),
            !c && alive ==> map_gains_ray(
                b0,
                black_check_board@,
                p,
                pr,
                pf,
                dri,
                dfi,
                t as int,
            ),
            !c && !alive ==> map_gains_ray(
                b0,
                black_check_board@,
                p,
                pr,
                pf,
                dri,
                dfi,
                8,
            ),
        decreases 8 - t + (if alive {
            1int
        } else {
            0int
        }),
    {
        proof {
            assert(-7 <= dri * (t as int) <= 7) by (nonlinear_arith)
                requires
                    -1 <= dri <= 1,
                    1 <= t as int <= 7,
            ;
            assert(-7 <= dfi * (t as int) <= 7) by (nonlinear_arith)
                requires
                    -1 <= dfi <= 1,
                    1 <= t as int <= 7,
            ;
        }
        let ox: i8 = dx * t;
        let oy: i8 = dy * t;
        let ghost tr = pr + (t as int) * dri;
        let ghost tf = pf + (t as int) * dfi;
        proof {
            assert(ox as int == (t as int) * dri && oy as int == (t as int) * dfi)
                by (nonlinear_arith)
                requires
                    ox as int == dri * (t as int),
                    oy as int == dfi * (t as int),
            ;
        }
        let ghost mvs_before = moves@;
        let ghost w_before = white_check_board@;
        let ghost b_before = black_check_board@;
        let r = check_move(square, ox, oy, board, white_check_board, black_check_board);
        proof {
            // The step examined this iteration extends every "within t steps"
            // account to "within t + 1 steps".
            assert forall|rr: int, ff: int|
                reaches_upto(p, pr, pf, dri, dfi, t + 1, rr, ff) <==> (reaches_upto(
                    p,
                    pr,
                    pf,
                    dri,
                    dfi,
                    t as int,
                    rr,
                    ff,
                ) || (rr == tr && ff == tf && in_range(tr) && in_range(tf))) by {
                if reaches_upto(p, pr, pf, dri, dfi, t + 1, rr, ff) {
                    let s = choose|s: int|
                        1 <= s < t + 1 && #[trigger] ray_step(pr, pf, dri, dfi, s) == (rr, ff)
                            && in_range(rr) && in_range(ff) && ray_free(p, pr, pf, dri, dfi, s);
                    if s < t {
                        assert(reaches_upto(p, pr, pf, dri, dfi, t as int, rr, ff));
                    } else {
                        assert(ray_step(pr, pf, dri, dfi, t as int) == (tr, tf));
                    }
                }
                if reaches_upto(p, pr, pf, dri, dfi, t as int, rr, ff) {
                    let s = choose|s: int|
                        1 <= s < t && #[trigger] ray_step(pr, pf, dri, dfi, s) == (rr, ff)
                            && in_range(rr) && in_range(ff) && ray_free(p, pr, pf, dri, dfi, s);
                    assert(1 <= s < t + 1 && ray_step(pr, pf, dri, dfi, s) == (rr, ff));
                }
                if rr == tr && ff == tf && in_range(tr) && in_range(tf) {
                    assert(ray_step(pr, pf, dri, dfi, t as int) == (rr, ff));
                    assert(reaches_upto(p, pr, pf, dri, dfi, t + 1, rr, ff));
                }
            }
            if c {
                assert forall|rr: int, ff: int| 0 <= rr < 8 && 0 <= ff < 8 implies map_at(
                    white_check_board@,
                    rr,
                    ff,
                ) == (map_at(w0, rr, ff) || reaches_upto(
                    p,
                    pr,
                    pf,
                    dri,
                    dfi,
                    t + 1,
                    rr,
                    ff,
                )) by {
                    assert(map_gains_ray(w0, w_before, p, pr, pf, dri, dfi, t as int));
                    assert(map_at(w_before, rr, ff) == (map_at(w0, rr, ff)
                        || reaches_upto(p, pr, pf, dri, dfi, t as int, rr, ff)));
                    assert(map_at(white_check_board@, rr, ff) == (map_at(w_before, rr, ff) || (
                    cm_marks(p, *square, ox as int, oy as int, b_before) && rr == square.x + ox && ff
                        == square.y + oy)));
                }
                assert(map_gains_ray(
                    w0,
                    white_check_board@,
                    p,
                    pr,
                    pf,
                    dri,
                    dfi,
                    t + 1,
                ));
            } else {
                assert forall|rr: int, ff: int| 0 <= rr < 8 && 0 <= ff < 8 implies map_at(
                    black_check_board@,
                    rr,
                    ff,
                ) == (map_at(b0, rr, ff) || reaches_upto(
                    p,
                    pr,
                    pf,
                    dri,
                    dfi,
                    t + 1,
                    rr,
                    ff,
                )) by {
                    assert(map_at(b_before, rr, ff) == (map_at(b0, rr, ff)
                        || reaches_upto(p, pr, pf, dri, dfi, t as int, rr, ff)));
                    assert(map_at(black_check_board@, rr, ff) == (map_at(b_before, rr, ff) || (
                    cm_marks(p, *square, ox as int, oy as int, w_before) && rr == square.x + ox && ff
                        == square.y + oy)));
                }
                assert(map_gains_ray(
                    b0,
                    black_check_board@,
                    p,
                    pr,
                    pf,
                    dri,
                    dfi,
                    t + 1,
                ));
            }
        }
        if r {
            let xt: i8 = (square.x as i8) + ox;
            let yt: i8 = (square.y as i8) + oy;
            moves.push(Move { x: xt as u8, y: yt as u8 });
            proof {
                assert(moves_gain_ray(mv0, moves@, p, c, pr, pf, dri, dfi, t + 1)) by {
                    assert(ray_step(pr, pf, dri, dfi, t as int) == (tr, tf));
                    assert(reaches_upto(p, pr, pf, dri, dfi, t + 1, tr, tf));
                    assert forall|m: Move| #[trigger] moves@.contains(m) implies mvs_before.contains(
                        m,
                    ) || m == (Move { x: xt as u8, y: yt as u8 }) by {}
                }
            }
            if board[xt as usize][yt as usize].occupied {
                proof {
                    assert forall|rr: int, ff: int|
                        reaches_upto(p, pr, pf, dri, dfi, 8, rr, ff) <==> reaches_upto(
                            p,
                            pr,
                            pf,
                            dri,
                            dfi,
                            t + 1,
                            rr,
                            ff,
                        ) by {
                        if reaches_upto(p, pr, pf, dri, dfi, 8, rr, ff) {
                            let s = choose|s: int|
                                1 <= s < 8 && #[trigger] ray_step(pr, pf, dri, dfi, s) == (rr, ff)
                                    && in_range(rr) && in_range(ff) && ray_free(
                                    p,
                                    pr,
                                    pf,
                                    dri,
                                    dfi,
                                    s,
                                );
                            if s >= t + 1 {
                                crate::rules::lemma_ray_free_at(p, pr, pf, dri, dfi, s, t as int);
                            }
                        }
                        if reaches_upto(p, pr, pf, dri, dfi, t + 1, rr, ff) {
                            let s = choose|s: int|
                                1 <= s < t + 1 && #[trigger] ray_step(pr, pf, dri, dfi, s) == (
                                rr,
                                ff,
                                ) && in_range(rr) && in_range(ff) && ray_free(
                                    p,
                                    pr,
                                    pf,
                                    dri,
                                    dfi,
                                    s,
                                );
                            assert(1 <= s < 8);
                        }
                    }
                }
                alive = false;
            } else if t == 7 {
                proof {
                    assert forall|rr: int, ff: int|
                        reaches_upto(p, pr, pf, dri, dfi, 8, rr, ff) <==> reaches_upto(
                            p,
                            pr,
                            pf,
                            dri,
                            dfi,
                            t + 1,
                            rr,
                            ff,
                        ) by {}
                }
                alive = false;
            } else {
                t = t + 1;
            }
        } else {
            proof {
                assert forall|rr: int, ff: int|
                    reaches_upto(p, pr, pf, dri, dfi, 8, rr, ff) <==> reaches_upto(
                        p,
                        pr,
                        pf,
                        dri,
                        dfi,
                        t + 1,
                        rr,
                        ff,
                    ) by {
                    if reaches_upto(p, pr, pf, dri, dfi, 8, rr, ff) {
                        let s = choose|s: int|
                            1 <= s < 8 && #[trigger] ray_step(pr, pf, dri, dfi, s) == (rr, ff)
                                && in_range(rr) && in_range(ff) && ray_free(p, pr, pf, dri, dfi, s);
                        if s >= t + 1 {
                            crate::rules::lemma_ray_free_at(p, pr, pf, dri, dfi, s, t as int);
                            // The walk stopped here: either the step leaves
                            // the board or something stands on it.
                            assert(in_range(tr) && in_range(tf) && !occ_at(p, tr, tf));
                            assert(false);
                        }
                    }
                    if reaches_upto(p, pr, pf, dri, dfi, t + 1, rr, ff) {
                        let s = choose|s: int|
                            1 <= s < t + 1 && #[trigger] ray_step(pr, pf, dri, dfi, s) == (rr, ff)
                                && in_range(rr) && in_range(ff) && ray_free(p, pr, pf, dri, dfi, s);
                        assert(1 <= s < 8);
                    }
                }
                assert(moves_gain_ray(mv0, moves@, p, c, pr, pf, dri, dfi, t + 1));
            }
            alive = false;
        }
    }
}

/// Candidate moves of the rook on `square`: the four axis-aligned rays,
/// each stopping at the first occupied square it meets.
fn moves_rook(
    square: &Square,
    board: &Vec<Vec<Square>>,
    white_check_board: &mut Vec<Vec<bool>>,
    black_check_board: &mut Vec<Vec<bool>>,
) -> (moves: Vec<Move>)
    requires
        board_wf(board@),
        map_wf(old(white_check_board)@),
        map_wf(old(black_check_board)@),
        square.x < 8,
        square.y < 8,
        square.piece.piece_type == PieceType::Rook,
        place(board@)[square.x as int][square.y as int] == (Cell {
            kind: PieceType::Rook,
            white: square.piece.white,
            occ: true,
        }),
    ensures
        map_wf(final(white_check_board)@),
        map_wf(final(black_check_board)@),
        forall|m: Move| #[trigger]
            moves@.contains(m) <==> rook_reach(
                place(board@),
                square.x as int,
                square.y as int,
                m.x as int,
                m.y as int,
            ) && landable(place(board@), square.piece.white, m.x as int, m.y as int),
        square.piece.white ==> final(black_check_board)@ == old(black_check_board)@,
        !square.piece.white ==> final(white_check_board)@ == old(white_check_board)@,
        square.piece.white ==> forall|rr: int, ff: int| #![trigger final(white_check_board)@[rr]@[ff]]
            0 <= rr < 8 && 0 <= ff < 8 ==> map_at(final(white_check_board)@, rr, ff) == (map_at(
                old(white_check_board)@,
                rr,
                ff,
            ) || marks_from(place(board@), square.x as int, square.y as int, rr, ff)),
        !square.piece.white ==> forall|rr: int, ff: int| #![trigger final(black_check_board)@[rr]@[ff]]
            0 <= rr < 8 && 0 <= ff < 8 ==> map_at(final(black_check_board)@, rr, ff) == (map_at(
                old(black_check_board)@,
                rr,
                ff,
            ) || marks_from(place(board@), square.x as int, square.y as int, rr, ff)),
{
    let ghost p = place(board@);
    let ghost pr = square.x as int;
    let ghost pf = square.y as int;
    let ghost c = square.piece.white;
    let ghost w0 = white_check_board@;
    let ghost b0 = black_check_board@;
    let mut moves: Vec<Move> = Vec::new();
    walk_ray(square, 1, 0, board, white_check_board, black_check_board, &mut moves);
    walk_ray(square, -1, 0, board, white_check_board, black_check_board, &mut moves);
    walk_ray(square, 0, 1, board, white_check_board, black_check_board, &mut moves);
    walk_ray(square, 0, -1, board, white_check_board, black_check_board, &mut moves);
    proof {
        assert(rook_dir(1, 0) && rook_dir(-1, 0) && rook_dir(0, 1) && rook_dir(0, -1));
        assert forall|m: Move| #[trigger]
            moves@.contains(m) <==> rook_reach(p, pr, pf, m.x as int, m.y as int) && landable(
                p,
                c,
                m.x as int,
                m.y as int,
            ) by {
            if rook_reach(p, pr, pf, m.x as int, m.y as int) {
                let (dr, df) = choose|dr: int, df: int|
                    #[trigger] rook_dir(dr, df) && slide_reaches(
                        p,
                        pr,
                        pf,
                        dr,
                        df,
                        m.x as int,
                        m.y as int,
                    );
            }
        }
        if c {
            assert forall|rr: int, ff: int| #![trigger white_check_board@[rr]@[ff]]
                0 <= rr < 8 && 0 <= ff < 8 implies map_at(white_check_board@, rr, ff) == (map_at(
                w0,
                rr,
                ff,
            ) || marks_from(p, pr, pf, rr, ff)) by {
                if marks_from(p, pr, pf, rr, ff) {
                    let (dr, df) = choose|dr: int, df: int|
                        #[trigger] rook_dir(dr, df) && slide_reaches(p, pr, pf, dr, df, rr, ff);
                }
            }
        } else {
            assert forall|rr: int, ff: int| #![trigger black_check_board@[rr]@[ff]]
                0 <= rr < 8 && 0 <= ff < 8 implies map_at(black_check_board@, rr, ff) == (map_at(
                b0,
                rr,
                ff,
            ) || marks_from(p, pr, pf, rr, ff)) by {
                if marks_from(p, pr, pf, rr, ff) {
                    let (dr, df) = choose|dr: int, df: int|
                        #[trigger] rook_dir(dr, df) && slide_reaches(p, pr, pf, dr, df, rr, ff);
                }
            }
        }
    }
    moves
}

/// Candidate moves of the bishop on `square`: the identical ray walk on
/// the four diagonals.
fn moves_bishop(
    square: &Square,
    board: &Vec<Vec<Square>>,
    white_check_board: &mut Vec<Vec<bool>>,
    black_check_board: &mut Vec<Vec<bool>>,
) -> (moves: Vec<Move>)
    requires
        board_wf(board@),
        map_wf(old(white_check_board)@),
        map_wf(old(black_check_board)@),
        square.x < 8,
        square.y < 8,
        square.piece.piece_type == PieceType::Bishop,
        place(board@)[square.x as int][square.y as int] == (Cell {
            kind: PieceType::Bishop,
            white: square.piece.white,
            occ: true,
        }),
    ensures
        map_wf(final(white_check_board)@),
        map_wf(final(black_check_board)@),
        forall|m: Move| #[trigger]
            moves@.contains(m) <==> bishop_reach(
                place(board@),
                square.x as int,
                square.y as int,
                m.x as int,
                m.y as int,
            ) && landable(place(board@), square.piece.white, m.x as int, m.y as int),
        square.piece.white ==> final(black_check_board)@ == old(black_check_board)@,
        !square.piece.white ==> final(white_check_board)@ == old(white_check_board)@,
        square.piece.white ==> forall|rr: int, ff: int| #![trigger final(white_check_board)@[rr]@[ff]]
            0 <= rr < 8 && 0 <= ff < 8 ==> map_at(final(white_check_board)@, rr, ff) == (map_at(
                old(white_check_board)@,
                rr,
                ff,
            ) || marks_from(place(board@), square.x as int, square.y as int, rr, ff)),
        !square.piece.white ==> forall|rr: int, ff: int| #![trigger final(black_check_board)@[rr]@[ff]]
            0 <= rr < 8 && 0 <= ff < 8 ==> map_at(final(black_check_board)@, rr, ff) == (map_at(
                old(black_check_board)@,
                rr,
                ff,
            ) || marks_from(place(board@), square.x as int, square.y as int, rr, ff)),
{
    let ghost p = place(board@);
    let ghost pr = square.x as int;
    let ghost pf = square.y as int;
    let ghost c = square.piece.white;
    let ghost w0 = white_check_board@;
    let ghost b0 = black_check_board@;
    let mut moves: Vec<Move> = Vec::new();
    walk_ray(square, 1, 1, board, white_check_board, black_check_board, &mut moves);
    walk_ray(square, 1, -1, board, white_check_board, black_check_board, &mut moves);
    walk_ray(square, -1, 1, board, white_check_board, black_check_board, &mut moves);
    walk_ray(square, -1, -1, board, white_check_board, black_check_board, &mut moves);
    proof {
        assert(bishop_dir(1, 1) && bishop_dir(1, -1) && bishop_dir(-1, 1) && bishop_dir(-1, -1));
        assert forall|m: Move| #[trigger]
            moves@.contains(m) <==> bishop_reach(p, pr, pf, m.x as int, m.y as int) && landable(
                p,
                c,
                m.x as int,
                m.y as int,
            ) by {
            if bishop_reach(p, pr, pf, m.x as int, m.y as int) {
                let (dr, df) = choose|dr: int, df: int|
                    #[trigger] bishop_dir(dr, df) && slide_reaches(
                        p,
                        pr,
                        pf,
                        dr,
                        df,
                        m.x as int,
                        m.y as int,
                    );
            }
        }
        if c {
            assert forall|rr: int, ff: int| #![trigger white_check_board@[rr]@[ff]]
                0 <= rr < 8 && 0 <= ff < 8 implies map_at(white_check_board@, rr, ff) == (map_at(
                w0,
                rr,
                ff,
            ) || marks_from(p, pr, pf, rr, ff)) by {
                if marks_from(p, pr, pf, rr, ff) {
                    let (dr, df) = choose|dr: int, df: int|
                        #[trigger] bishop_dir(dr, df) && slide_reaches(p, pr, pf, dr, df, rr, ff);
                }
            }
        } else {
            assert forall|rr: int, ff: int| #![trigger black_check_board@[rr]@[ff]]
                0 <= rr < 8 && 0 <= ff < 8 implies map_at(black_check_board@, rr, ff) == (map_at(
                b0,
                rr,
                ff,
            ) || marks_from(p, pr, pf, rr, ff)) by {
                if marks_from(p, pr, pf, rr, ff) {
                    let (dr, df) = choose|dr: int, df: int|
                        #[trigger] bishop_dir(dr, df) && slide_reaches(p, pr, pf, dr, df, rr, ff);
                }
            }
        }
    }
    moves
}


/// Candidate moves of the queen on `square`: the union of the rook's and
/// the bishop's ray sets.
fn moves_queen(
    square: &Square,
    board: &Vec<Vec<Square>>,
    white_check_board: &mut Vec<Vec<bool>>,
    black_check_board: &mut Vec<Vec<bool>>,
) -> (moves: Vec<Move>)
    requires
        board_wf(board@),
        map_wf(old(white_check_board)@),
        map_wf(old(black_check_board)@),
        square.x < 8,
        square.y < 8,
        square.piece.piece_type == PieceType::Queen,
        place(board@)[square.x as int][square.y as int] == (Cell {
            kind: PieceType::Queen,
            white: square.piece.white,
            occ: true,
        }),
    ensures
        map_wf(final(white_check_board)@),
        map_wf(final(black_check_board)@),
        forall|m: Move| #[trigger]
            moves@.contains(m) <==> (rook_reach(
                place(board@),
                square.x as int,
                square.y as int,
                m.x as int,
                m.y as int,
            ) || bishop_reach(
                place(board@),
                square.x as int,
                square.y as int,
                m.x as int,
                m.y as int,
            )) && landable(place(board@), square.piece.white, m.x as int, m.y as int),
        square.piece.white ==> final(black_check_board)@ == old(black_check_board)@,
        !square.piece.white ==> final(white_check_board)@ == old(white_check_board)@,
        square.piece.white ==> forall|rr: int, ff: int| #![trigger final(white_check_board)@[rr]@[ff]]
            0 <= rr < 8 && 0 <= ff < 8 ==> map_at(final(white_check_board)@, rr, ff) == (map_at(
                old(white_check_board)@,
                rr,
                ff,
            ) || marks_from(place(board@), square.x as int, square.y as int, rr, ff)),
        !square.piece.white ==> forall|rr: int, ff: int| #![trigger final(black_check_board)@[rr]@[ff]]
            0 <= rr < 8 && 0 <= ff < 8 ==> map_at(final(black_check_board)@, rr, ff) == (map_at(
                old(black_check_board)@,
                rr,
                ff,
            ) || marks_from(place(board@), square.x as int, square.y as int, rr, ff)),
{
    let ghost p = place(board@);
    let ghost pr = square.x as int;
    let ghost pf = square.y as int;
    let ghost c = square.piece.white;
    let ghost w0 = white_check_board@;
    let ghost b0 = black_check_board@;
    let mut moves: Vec<Move> = Vec::new();
    walk_ray(square, 1, 1, board, white_check_board, black_check_board, &mut moves);
    walk_ray(square, 1, -1, board, white_check_board, black_check_board, &mut moves);
    walk_ray(square, -1, 1, board, white_check_board, black_check_board, &mut moves);
    walk_ray(square, -1, -1, board, white_check_board, black_check_board, &mut moves);
    walk_ray(square, 1, 0, board, white_check_board, black_check_board, &mut moves);
    walk_ray(square, -1, 0, board, white_check_board, black_check_board, &mut moves);
    walk_ray(square, 0, 1, board, white_check_board, black_check_board, &mut moves);
    walk_ray(square, 0, -1, board, white_check_board, black_check_board, &mut moves);
    proof {
        assert(rook_dir(1, 0) && rook_dir(-1, 0) && rook_dir(0, 1) && rook_dir(0, -1));
        assert(bishop_dir(1, 1) && bishop_dir(1, -1) && bishop_dir(-1, 1) && bishop_dir(-1, -1));
        assert forall|m: Move| #[trigger]
            moves@.contains(m) <==> (rook_reach(p, pr, pf, m.x as int, m.y as int) || bishop_reach(
                p,
                pr,
                pf,
                m.x as int,
                m.y as int,
            )) && landable(p, c, m.x as int, m.y as int) by {
            if rook_reach(p, pr, pf, m.x as int, m.y as int) {
                let (dr, df) = choose|dr: int, df: int|
                    #[trigger] rook_dir(dr, df) && slide_reaches(
                        p,
                        pr,
                        pf,
                        dr,
                        df,
                        m.x as int,
                        m.y as int,
                    );
            }
            if bishop_reach(p, pr, pf, m.x as int, m.y as int) {
                let (dr, df) = choose|dr: int, df: int|
                    #[trigger] bishop_dir(dr, df) && slide_reaches(
                        p,
                        pr,
                        pf,
                        dr,
                        df,
                        m.x as int,
                        m.y as int,
                    );
            }
        }
        if c {
            assert forall|rr: int, ff: int| #![trigger white_check_board@[rr]@[ff]]
                0 <= rr < 8 && 0 <= ff < 8 implies map_at(white_check_board@, rr, ff) == (map_at(
                w0,
                rr,
                ff,
            ) || marks_from(p, pr, pf, rr, ff)) by {
                if rook_reach(p, pr, pf, rr, ff) {
                    let (dr, df) = choose|dr: int, df: int|
                        #[trigger] rook_dir(dr, df) && slide_reaches(p, pr, pf, dr, df, rr, ff);
                }
                if bishop_reach(p, pr, pf, rr, ff) {
                    let (dr, df) = choose|dr: int, df: int|
                        #[trigger] bishop_dir(dr, df) && slide_reaches(p, pr, pf, dr, df, rr, ff);
                }
            }
        } else {
            assert forall|rr: int, ff: int| #![trigger black_check_board@[rr]@[ff]]
                0 <= rr < 8 && 0 <= ff < 8 implies map_at(black_check_board@, rr, ff) == (map_at(
                b0,
                rr,
                ff,
            ) || marks_from(p, pr, pf, rr, ff)) by {
                if rook_reach(p, pr, pf, rr, ff) {
                    let (dr, df) = choose|dr: int, df: int|
                        #[trigger] rook_dir(dr, df) && slide_reaches(p, pr, pf, dr, df, rr, ff);
                }
                if bishop_reach(p, pr, pf, rr, ff) {
                    let (dr, df) = choose|dr: int, df: int|
                        #[trigger] bishop_dir(dr, df) && slide_reaches(p, pr, pf, dr, df, rr, ff);
                }
            }
        }
    }
    moves
}


/// Candidate moves of the knight on `square`: the eight fixed leap offsets;
/// nothing blocks a leaper.
fn moves_knight(
    square: &Square,
    board: &Vec<Vec<Square>>,
    white_check_board: &mut Vec<Vec<bool>>,
    black_check_board: &mut Vec<Vec<bool>>,
) -> (moves: Vec<Move>)
    requires
        board_wf(board@),
        map_wf(old(white_check_board)@),
        map_wf(old(black_check_board)@),
        square.x < 8,
        square.y < 8,
        square.piece.piece_type == PieceType::Knight,
        place(board@)[square.x as int][square.y as int] == (Cell {
            kind: PieceType::Knight,
            white: square.piece.white,
            occ: true,
        }),
    ensures
        map_wf(final(white_check_board)@),
        map_wf(final(black_check_board)@),
        forall|m: Move| #[trigger]
            moves@.contains(m) <==> knight_offset(
                square.x as int,
                square.y as int,
                m.x as int,
                m.y as int,
            ) && landable(place(board@), square.piece.white, m.x as int, m.y as int),
        square.piece.white ==> final(black_check_board)@ == old(black_check_board)@,
        !square.piece.white ==> final(white_check_board)@ == old(white_check_board)@,
        square.piece.white ==> forall|rr: int, ff: int| #![trigger final(white_check_board)@[rr]@[ff]]
            0 <= rr < 8 && 0 <= ff < 8 ==> map_at(final(white_check_board)@, rr, ff) == (map_at(
                old(white_check_board)@,
                rr,
                ff,
            ) || marks_from(place(board@), square.x as int, square.y as int, rr, ff)),
        !square.piece.white ==> forall|rr: int, ff: int| #![trigger final(black_check_board)@[rr]@[ff]]
            0 <= rr < 8 && 0 <= ff < 8 ==> map_at(final(black_check_board)@, rr, ff) == (map_at(
                old(black_check_board)@,
                rr,
                ff,
            ) || marks_from(place(board@), square.x as int, square.y as int, rr, ff)),
{
    let mut moves: Vec<Move> = Vec::new();
    let x = square.x;
    let y = square.y;
    if check_move(square, 2, 1, board, white_check_board, black_check_board) {
        moves.push(Move { x: x + 2, y: y + 1 });
    }
    if check_move(square, 2, -1, board, white_check_board, black_check_board) {
        moves.push(Move { x: x + 2, y: y - 1 });
    }
    if check_move(square, -2, 1, board, white_check_board, black_check_board) {
        moves.push(Move { x: x - 2, y: y + 1 });
    }
    if check_move(square, -2, -1, board, white_check_board, black_check_board) {
        moves.push(Move { x: x - 2, y: y - 1 });
    }
    if check_move(square, 1, 2, board, white_check_board, black_check_board) {
        moves.push(Move { x: x + 1, y: y + 2 });
    }
    if check_move(square, 1, -2, board, white_check_board, black_check_board) {
        moves.push(Move { x: x + 1, y: y - 2 });
    }
    if check_move(square, -1, 2, board, white_check_board, black_check_board) {
        moves.push(Move { x: x - 1, y: y + 2 });
    }
    if check_move(square, -1, -2, board, white_check_board, black_check_board) {
        moves.push(Move { x: x - 1, y: y - 2 });
    }
    moves
}

/// Candidate moves of the king on `square`: the eight unit offsets, each
/// allowed only if the opponent's attack map does not already mark it. The
/// caller generates kings last, so that map is as complete as the pass
/// makes it.
#[verifier::rlimit(100)]
fn moves_king(
    square: &Square,
    board: &Vec<Vec<Square>>,
    white_check_board: &mut Vec<Vec<bool>>,
    black_check_board: &mut Vec<Vec<bool>>,
) -> (moves: Vec<Move>)
    requires
        board_wf(board@),
        map_wf(old(white_check_board)@),
        map_wf(old(black_check_board)@),
        square.x < 8,
        square.y < 8,
        square.piece.piece_type == PieceType::King,
        place(board@)[square.x as int][square.y as int] == (Cell {
            kind: PieceType::King,
            white: square.piece.white,
            occ: true,
        }),
    ensures
        map_wf(final(white_check_board)@),
        map_wf(final(black_check_board)@),
        square.piece.white ==> forall|m: Move| #[trigger]
            moves@.contains(m) <==> king_offset(
                square.x as int,
                square.y as int,
                m.x as int,
                m.y as int,
            ) && landable(place(board@), true, m.x as int, m.y as int) && !map_at(
                old(black_check_board)@,
                m.x as int,
                m.y as int,
            ),
        !square.piece.white ==> forall|m: Move| #[trigger]
            moves@.contains(m) <==> king_offset(
                square.x as int,
                square.y as int,
                m.x as int,
                m.y as int,
            ) && landable(place(board@), false, m.x as int, m.y as int) && !map_at(
                old(white_check_board)@,
                m.x as int,
                m.y as int,
            ),
        square.piece.white ==> final(black_check_board)@ == old(black_check_board)@,
        !square.piece.white ==> final(white_check_board)@ == old(white_check_board)@,
        square.piece.white ==> forall|rr: int, ff: int| #![trigger final(white_check_board)@[rr]@[ff]]
            0 <= rr < 8 && 0 <= ff < 8 ==> map_at(final(white_check_board)@, rr, ff) == (map_at(
                old(white_check_board)@,
                rr,
                ff,
            ) || (king_offset(square.x as int, square.y as int, rr, ff) && !map_at(
                old(black_check_board)@,
                rr,
                ff,
            ))),
        !square.piece.white ==> forall|rr: int, ff: int| #![trigger final(black_check_board)@[rr]@[ff]]
            0 <= rr < 8 && 0 <= ff < 8 ==> map_at(final(black_check_board)@, rr, ff) == (map_at(
                old(black_check_board)@,
                rr,
                ff,
            ) || (king_offset(square.x as int, square.y as int, rr, ff) && !map_at(
                old(white_check_board)@,
                rr,
                ff,
            ))),
{
    let mut moves: Vec<Move> = Vec::new();
    let x = square.x;
    let y = square.y;
    if check_move(square, 1, 1, board, white_check_board, black_check_board) {
        moves.push(Move { x: x + 1, y: y + 1 });
    }
    if check_move(square, 1, 0, board, white_check_board, black_check_board) {
        moves.push(Move { x: x + 1, y });
    }
    if check_move(square, 1, -1, board, white_check_board, black_check_board) {
        moves.push(Move { x: x + 1, y: y - 1 });
    }
    if check_move(square, 0, 1, board, white_check_board, black_check_board) {
        moves.push(Move { x, y: y + 1 });
    }
    if check_move(square, 0, -1, board, white_check_board, black_check_board) {
        moves.push(Move { x, y: y - 1 });
    }
    if check_move(square, -1, 1, board, white_check_board, black_check_board) {
        moves.push(Move { x: x - 1, y: y + 1 });
    }
    if check_move(square, -1, 0, board, white_check_board, black_check_board) {
        moves.push(Move { x: x - 1, y });
    }
    if check_move(square, -1, -1, board, white_check_board, black_check_board) {
        moves.push(Move { x: x - 1, y: y - 1 });
    }
    moves
}


/// Computes and stores the move list of the piece on `(x, y)`, marking its
/// threats as a side effect. An empty square is left untouched.
#[verifier::rlimit(100)]
pub fn generate_moves(
    x: usize,
    y: usize,
    board: &mut Vec<Vec<Square>>,
    white_check_board: &mut Vec<Vec<bool>>,
    black_check_board: &mut Vec<Vec<bool>>,
)
    requires
        board_wf(old(board)@),
        map_wf(old(white_check_board)@),
        map_wf(old(black_check_board)@),
        x < 8,
        y < 8,
    ensures
        board_wf(final(board)@),
        map_wf(final(white_check_board)@),
        map_wf(final(black_check_board)@),
        place(final(board)@) == place(old(board)@),
        forall|i: int, j: int|
            0 <= i < 8 && 0 <= j < 8 && !(i == x as int && j == y as int)
                ==> final(board)@[i]@[j] == old(board)@[i]@[j],
        old(board)@[x as int]@[y as int].piece.piece_type == PieceType::Unoccupied
            ==> final(board)@ == old(board)@ && final(white_check_board)@ == old(white_check_board)@
            && final(black_check_board)@ == old(black_check_board)@,
        ({
            let k = old(board)@[x as int]@[y as int].piece.piece_type;
            k != PieceType::Unoccupied && k != PieceType::King
        }) ==> forall|m: Move|
            #[trigger] final(board)@[x as int]@[y as int].piece.moves@.contains(m) <==> cand(
                place(old(board)@),
                x as int,
                y as int,
                m.x as int,
                m.y as int,
            ),
        ({
            let k = old(board)@[x as int]@[y as int].piece.piece_type;
            let c = old(board)@[x as int]@[y as int].piece.white;
            k == PieceType::King && c
        }) ==> forall|m: Move| #[trigger]
            final(board)@[x as int]@[y as int].piece.moves@.contains(m) <==> king_offset(
                x as int,
                y as int,
                m.x as int,
                m.y as int,
            ) && landable(place(old(board)@), true, m.x as int, m.y as int) && !map_at(
                old(black_check_board)@,
                m.x as int,
                m.y as int,
            ),
        ({
            let k = old(board)@[x as int]@[y as int].piece.piece_type;
            let c = old(board)@[x as int]@[y as int].piece.white;
            k == PieceType::King && !c
        }) ==> forall|m: Move| #[trigger]
            final(board)@[x as int]@[y as int].piece.moves@.contains(m) <==> king_offset(
                x as int,
                y as int,
                m.x as int,
                m.y as int,
            ) && landable(place(old(board)@), false, m.x as int, m.y as int) && !map_at(
                old(white_check_board)@,
                m.x as int,
                m.y as int,
            ),
        ({
            let k = old(board)@[x as int]@[y as int].piece.piece_type;
            let c = old(board)@[x as int]@[y as int].piece.white;
            k != PieceType::Unoccupied && !c
        }) ==> final(white_check_board)@ == old(white_check_board)@,
        ({
            let k = old(board)@[x as int]@[y as int].piece.piece_type;
            let c = old(board)@[x as int]@[y as int].piece.white;
            k != PieceType::Unoccupied && c
        }) ==> final(black_check_board)@ == old(black_check_board)@,
        ({
            let k = old(board)@[x as int]@[y as int].piece.piece_type;
            let c = old(board)@[x as int]@[y as int].piece.white;
            k != PieceType::Unoccupied && k != PieceType::King && c
        }) ==> forall|rr: int, ff: int| #![trigger final(white_check_board)@[rr]@[ff]]
            0 <= rr < 8 && 0 <= ff < 8 ==> map_at(final(white_check_board)@, rr, ff) == (map_at(
                old(white_check_board)@,
                rr,
                ff,
            ) || marks_from(place(old(board)@), x as int, y as int, rr, ff)),
        ({
            let k = old(board)@[x as int]@[y as int].piece.piece_type;
            let c = old(board)@[x as int]@[y as int].piece.white;
            k != PieceType::Unoccupied && k != PieceType::King && !c
        }) ==> forall|rr: int, ff: int| #![trigger final(black_check_board)@[rr]@[ff]]
            0 <= rr < 8 && 0 <= ff < 8 ==> map_at(final(black_check_board)@, rr, ff) == (map_at(
                old(black_check_board)@,
                rr,
                ff,
            ) || marks_from(place(old(board)@), x as int, y as int, rr, ff)),
        ({
            let k = old(board)@[x as int]@[y as int].piece.piece_type;
            let c = old(board)@[x as int]@[y as int].piece.white;
            k == PieceType::King && c
        }) ==> forall|rr: int, ff: int| #![trigger final(white_check_board)@[rr]@[ff]]
            0 <= rr < 8 && 0 <= ff < 8 ==> map_at(final(white_check_board)@, rr, ff) == (map_at(
                old(white_check_board)@,
                rr,
                ff,
            ) || (king_offset(x as int, y as int, rr, ff) && !map_at(
                old(black_check_board)@,
                rr,
                ff,
            ))),
        ({
            let k = old(board)@[x as int]@[y as int].piece.piece_type;
            let c = old(board)@[x as int]@[y as int].piece.white;
            k == PieceType::King && !c
        }) ==> forall|rr: int, ff: int| #![trigger final(black_check_board)@[rr]@[ff]]
            0 <= rr < 8 && 0 <= ff < 8 ==> map_at(final(black_check_board)@, rr, ff) == (map_at(
                old(black_check_board)@,
                rr,
                ff,
            ) || (king_offset(x as int, y as int, rr, ff) && !map_at(
                old(white_check_board)@,
                rr,
                ff,
            ))),
{
    let kind = board[x][y].piece.piece_type;
    let white = board[x][y].piece.white;
    let occupied = board[x][y].occupied;
    if kind == PieceType::Unoccupied {
        return ;
    }
    let sq = Square {
        x: x as u8,
        y: y as u8,
        piece: Piece { piece_type: kind, white, moves: Vec::new() },
        occupied,
    };
    let mvs = match kind {
        PieceType::Pawn => moves_pawn(&sq, board, white_check_board, black_check_board),
        PieceType::Rook => moves_rook(&sq, board, white_check_board, black_check_board),
        PieceType::Knight => moves_knight(&sq, board, white_check_board, black_check_board),
        PieceType::Bishop => moves_bishop(&sq, board, white_check_board, black_check_board),
        PieceType::Queen => moves_queen(&sq, board, white_check_board, black_check_board),
        _ => moves_king(&sq, board, white_check_board, black_check_board),
    };
    board[x][y].piece.moves = mvs;
    proof {
        assert(place(board@) =~~= place(old(board)@));
    }
}


/// Finds the two kings by scanning the board rank by rank.
pub(crate) fn find_kings(board: &Vec<Vec<Square>>) -> (r: (Move, Move))
    requires
        board_wf(board@),
        one_king(place(board@), true),
        one_king(place(board@), false),
    ensures
        r.0.x < 8 && r.0.y < 8 && r.1.x < 8 && r.1.y < 8,
        is_king_at(place(board@), true, r.0.x as int, r.0.y as int),
        is_king_at(place(board@), false, r.1.x as int, r.1.y as int),
        king_sq(place(board@), true) == (r.0.x as int, r.0.y as int),
        king_sq(place(board@), false) == (r.1.x as int, r.1.y as int),
{
    let ghost p = place(board@);
    let mut wk = Move { x: 0, y: 0 };
    let mut bk = Move { x: 0, y: 0 };
    let mut w_found = false;
    let mut b_found = false;
    for i in 0..8usize
        invariant
            w_found ==> wk.x < 8 && wk.y < 8 && is_king_at(p, true, wk.x as int, wk.y as int),
            b_found ==> bk.x < 8 && bk.y < 8 && is_king_at(p, false, bk.x as int, bk.y as int),
            !w_found ==> forall|ii: int, jj: int|
                0 <= ii < i && 0 <= jj < 8 ==> !#[trigger] is_king_at(p, true, ii, jj),
            !b_found ==> forall|ii: int, jj: int|
                0 <= ii < i && 0 <= jj < 8 ==> !#[trigger] is_king_at(p, false, ii, jj),
    {
        for j in 0..8usize
            invariant
                w_found ==> wk.x < 8 && wk.y < 8 && is_king_at(p, true, wk.x as int, wk.y as int),
                b_found ==> bk.x < 8 && bk.y < 8 && is_king_at(p, false, bk.x as int, bk.y as int),
                !w_found ==> forall|ii: int, jj: int|
                    0 <= ii < 8 && 0 <= jj < 8 && ii * 8 + jj < i * 8 + j ==> !#[trigger] is_king_at(
                        p,
                        true,
                        ii,
                        jj,
                    ),
                !b_found ==> forall|ii: int, jj: int|
                    0 <= ii < 8 && 0 <= jj < 8 && ii * 8 + jj < i * 8 + j ==> !#[trigger] is_king_at(
                        p,
                        false,
                        ii,
                        jj,
                    ),
        {
            if board[i][j].occupied && board[i][j].piece.piece_type == PieceType::King {
                if board[i][j].piece.white {
                    wk = Move { x: i as u8, y: j as u8 };
                    w_found = true;
                } else {
                    bk = Move { x: i as u8, y: j as u8 };
                    b_found = true;
                }
            }
        }
    }
    proof {
        let (kr, kf) = choose|kr: int, kf: int| is_king_at(p, true, kr, kf);
        assert(is_king_at(p, true, kr, kf));
        assert(kr * 8 + kf < 64);
        assert(w_found);
        let (br, bf) = choose|br: int, bf: int| is_king_at(p, false, br, bf);
        assert(is_king_at(p, false, br, bf));
        assert(br * 8 + bf < 64);
        assert(b_found);
        crate::rules::lemma_king_sq(p, true, wk.x as int, wk.y as int);
        crate::rules::lemma_king_sq(p, false, bk.x as int, bk.y as int);
    }
    (wk, bk)
}


/// One full rebuild pass: clears both attack maps, regenerates every
/// occupied square's move list, and defers both kings to the end — the
/// white king first — so king moves are rejected against an attack map
/// that is as complete as the pass makes it.
#[verifier::rlimit(100)]
pub fn find_all_moves(
    board: Vec<Vec<Square>>,
    white_check_board: Vec<Vec<bool>>,
    black_check_board: Vec<Vec<bool>>,
) -> (r: Boards)
    requires
        board_wf(board@),
        map_wf(white_check_board@),
        map_wf(black_check_board@),
        one_king(place(board@), true),
        one_king(place(board@), false),
    ensures
        board_wf(r.board@),
        map_wf(r.white_check_board@),
        map_wf(r.black_check_board@),
        place(r.board@) == place(board@),
        forall|rr: int, ff: int| #![trigger r.white_check_board@[rr]@[ff]]
            0 <= rr < 8 && 0 <= ff < 8 ==> map_at(r.white_check_board@, rr, ff) == attacked(
                place(board@),
                true,
                rr,
                ff,
            ),
        forall|rr: int, ff: int| #![trigger r.black_check_board@[rr]@[ff]]
            0 <= rr < 8 && 0 <= ff < 8 ==> map_at(r.black_check_board@, rr, ff) == attacked(
                place(board@),
                false,
                rr,
                ff,
            ),
        forall|i: int, j: int, m: Move|
            #![trigger r.board@[i]@[j].piece.moves@.contains(m)]
            0 <= i < 8 && 0 <= j < 8 && occ_at(place(board@), i, j) ==> (
            r.board@[i]@[j].piece.moves@.contains(m) <==> cand(
                place(board@),
                i,
                j,
                m.x as int,
                m.y as int,
            )),
{
    let ghost p = place(board@);
    let ghost b0 = board@;
    let (wk, bk) = find_kings(&board);
    let mut board = board;
    let mut wmap = reset_check_board(white_check_board);
    let mut bmap = reset_check_board(black_check_board);
    for i in 0..8usize
        invariant
            board_wf(board@),
            map_wf(wmap@),
            map_wf(bmap@),
            place(board@) == p,
            forall|rr: int, ff: int| #![trigger wmap@[rr]@[ff]]
                0 <= rr < 8 && 0 <= ff < 8 ==> map_at(wmap@, rr, ff) == nonking_upto(
                    p,
                    true,
                    i * 8,
                    rr,
                    ff,
                ),
            forall|rr: int, ff: int| #![trigger bmap@[rr]@[ff]]
                0 <= rr < 8 && 0 <= ff < 8 ==> map_at(bmap@, rr, ff) == nonking_upto(
                    p,
                    false,
                    i * 8,
                    rr,
                    ff,
                ),
            forall|ii: int, jj: int, m: Move|
                #![trigger board@[ii]@[jj].piece.moves@.contains(m)]
                0 <= ii < 8 && 0 <= jj < 8 && ii * 8 + jj < i * 8 && occ_at(p, ii, jj)
                    && p[ii][jj].kind != PieceType::King ==> (
                board@[ii]@[jj].piece.moves@.contains(m) <==> cand(p, ii, jj, m.x as int, m.y as int)),
            forall|ii: int, jj: int|
                0 <= ii < 8 && 0 <= jj < 8 && (ii * 8 + jj >= i * 8 || p[ii][jj].kind
                    == PieceType::King) ==> #[trigger] board@[ii]@[jj] == b0[ii]@[jj],
    {
        for j in 0..8usize
            invariant
                board_wf(board@),
                map_wf(wmap@),
                map_wf(bmap@),
                place(board@) == p,
                forall|rr: int, ff: int| #![trigger wmap@[rr]@[ff]]
                    0 <= rr < 8 && 0 <= ff < 8 ==> map_at(wmap@, rr, ff) == nonking_upto(
                        p,
                        true,
                        i * 8 + j,
                        rr,
                        ff,
                    ),
                forall|rr: int, ff: int| #![trigger bmap@[rr]@[ff]]
                    0 <= rr < 8 && 0 <= ff < 8 ==> map_at(bmap@, rr, ff) == nonking_upto(
                        p,
                        false,
                        i * 8 + j,
                        rr,
                        ff,
                    ),
                forall|ii: int, jj: int, m: Move|
                    #![trigger board@[ii]@[jj].piece.moves@.contains(m)]
                    0 <= ii < 8 && 0 <= jj < 8 && ii * 8 + jj < i * 8 + j && occ_at(p, ii, jj)
                        && p[ii][jj].kind != PieceType::King ==> (
                    board@[ii]@[jj].piece.moves@.contains(m) <==> cand(
                        p,
                        ii,
                        jj,
                        m.x as int,
                        m.y as int,
                    )),
                forall|ii: int, jj: int|
                    0 <= ii < 8 && 0 <= jj < 8 && (ii * 8 + jj >= i * 8 + j || p[ii][jj].kind
                        == PieceType::King) ==> #[trigger] board@[ii]@[jj] == b0[ii]@[jj],
        {
            let ghost w_pre = wmap@;
            let ghost b_pre = bmap@;
            if board[i][j].occupied && board[i][j].piece.piece_type != PieceType::King {
                generate_moves(i, j, &mut board, &mut wmap, &mut bmap);
            }
            proof {
                assert forall|rr: int, ff: int| 0 <= rr < 8 && 0 <= ff < 8 implies ({
                    &&& map_at(wmap@, rr, ff) == nonking_upto(p, true, i * 8 + j + 1, rr, ff)
                    &&& map_at(bmap@, rr, ff) == nonking_upto(p, false, i * 8 + j + 1, rr, ff)
                }) by {
                    crate::rules::lemma_nonking_upto_step(p, true, i as int, j as int, rr, ff);
                    crate::rules::lemma_nonking_upto_step(p, false, i as int, j as int, rr, ff);
                    assert(map_at(w_pre, rr, ff) == nonking_upto(p, true, i * 8 + j, rr, ff));
                    assert(map_at(b_pre, rr, ff) == nonking_upto(p, false, i * 8 + j, rr, ff));
                }
            }
        }
    }
    proof {
        assert forall|rr: int, ff: int| 0 <= rr < 8 && 0 <= ff < 8 implies ({
            &&& map_at(wmap@, rr, ff) == nonking_attacks(p, true, rr, ff)
            &&& map_at(bmap@, rr, ff) == nonking_attacks(p, false, rr, ff)
        }) by {
            assert(map_at(wmap@, rr, ff) == nonking_upto(p, true, 64, rr, ff));
            assert(map_at(bmap@, rr, ff) == nonking_upto(p, false, 64, rr, ff));
        }
    }
    let ghost w_nk = wmap@;
    let ghost b_nk = bmap@;
    let ghost board_nk = board@;
    generate_moves(wk.x as usize, wk.y as usize, &mut board, &mut wmap, &mut bmap);
    proof {
        assert(bmap@ == b_nk);
        assert forall|rr: int, ff: int| 0 <= rr < 8 && 0 <= ff < 8 implies map_at(wmap@, rr, ff)
            == attacked(p, true, rr, ff) by {
            assert(map_at(wmap@, rr, ff) == (map_at(w_nk, rr, ff) || (king_offset(
                wk.x as int,
                wk.y as int,
                rr,
                ff,
            ) && !map_at(b_nk, rr, ff))));
        }
    }
    let ghost w_att = wmap@;
    let ghost board_wkg = board@;
    generate_moves(bk.x as usize, bk.y as usize, &mut board, &mut wmap, &mut bmap);
    proof {
        assert(wmap@ == w_att);
        assert forall|rr: int, ff: int| 0 <= rr < 8 && 0 <= ff < 8 implies map_at(bmap@, rr, ff)
            == attacked(p, false, rr, ff) by {
            assert(map_at(bmap@, rr, ff) == (map_at(b_nk, rr, ff) || (king_offset(
                bk.x as int,
                bk.y as int,
                rr,
                ff,
            ) && !map_at(w_att, rr, ff))));
            assert(map_at(w_att, rr, ff) == attacked(p, true, rr, ff));
        }
        // Move lists: non-king squares were settled by the scan, the white
        // king in its phase, the black king last.
        assert forall|i: int, j: int, m: Move|
            0 <= i < 8 && 0 <= j < 8 && occ_at(p, i, j) implies (
        #[trigger] board@[i]@[j].piece.moves@.contains(m) <==> cand(p, i, j, m.x as int, m.y as int)) by {
            if p[i][j].kind == PieceType::King {
                if p[i][j].white {
                    assert((i, j) == (wk.x as int, wk.y as int)) by {
                        assert(is_king_at(p, true, i, j));
                        crate::rules::lemma_king_sq(p, true, i, j);
                    }
                    assert(board_wkg[i]@[j].piece.moves@.contains(m) <==> king_offset(
                        wk.x as int,
                        wk.y as int,
                        m.x as int,
                        m.y as int,
                    ) && landable(p, true, m.x as int, m.y as int) && !map_at(
                        b_nk,
                        m.x as int,
                        m.y as int,
                    ));
                    assert(board@[i]@[j] == board_wkg[i]@[j]);
                    if in_range(m.x as int) && in_range(m.y as int) {
                        assert(map_at(b_nk, m.x as int, m.y as int) == nonking_attacks(
                            p,
                            false,
                            m.x as int,
                            m.y as int,
                        ));
                    }
                } else {
                    assert((i, j) == (bk.x as int, bk.y as int)) by {
                        assert(is_king_at(p, false, i, j));
                        crate::rules::lemma_king_sq(p, false, i, j);
                    }
                    assert(board@[i]@[j].piece.moves@.contains(m) <==> king_offset(
                        bk.x as int,
                        bk.y as int,
                        m.x as int,
                        m.y as int,
                    ) && landable(p, false, m.x as int, m.y as int) && !map_at(
                        w_att,
                        m.x as int,
                        m.y as int,
                    ));
                    if in_range(m.x as int) && in_range(m.y as int) {
                        assert(map_at(w_att, m.x as int, m.y as int) == attacked(
                            p,
                            true,
                            m.x as int,
                            m.y as int,
                        ));
                    }
                }
            } else {
                assert(board_nk[i]@[j].piece.moves@.contains(m) <==> cand(
                    p,
                    i,
                    j,
                    m.x as int,
                    m.y as int,
                ));
                assert(board@[i]@[j] == board_nk[i]@[j]);
            }
        }
    }
    Boards { board, white_check_board: wmap, black_check_board: bmap }
}

} // verus!
