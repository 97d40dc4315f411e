//! The engine's headline guarantees, each proved from the contracts of the
//! move generator, the legality filter, and the turn controller.

use vstd::prelude::*;

use crate::board::{Move, PieceType};
use crate::game::Game;
use crate::rules::{
    attacked, bishop_dir, cand, in_range, is_king_at, king_after, legal, lemma_cand_shape,
    lemma_king_sq, lemma_ray_free_at, move_self_checks, nonking_attacks, occ_at, pawn_dir,
    pawn_start, pl_apply, pl_wf, ray_free, ray_step, rook_dir, slide_reaches, wking_marks, Cell,
};

verus! {

/// After the legality filter has run, applying any move still cached in any
/// piece's move list never leaves the mover's own king on a square marked
/// attacked by the opponent's rebuilt attack map.
pub proof fn lemma_filtered_moves_safe(g: Game, i: int, j: int, m: Move)
    requires
        g.wf(),
        0 <= i < 8,
        0 <= j < 8,
        occ_at(g.p(), i, j),
        g.boards.board@[i]@[j].piece.moves@.contains(m),
    ensures
        !move_self_checks(g.p(), i, j, m.x as int, m.y as int),
        ({
            let c = g.p()[i][j].white;
            let p2 = pl_apply(g.p(), i, j, m.x as int, m.y as int);
            let k = king_after(g.p(), c, i, j, m.x as int, m.y as int);
            !attacked(p2, !c, k.0, k.1)
        }),
{
    assert(legal(g.p(), i, j, m.x as int, m.y as int));
}

/// Two rays from one square agree on a target only if they are the same
/// ray at the same step: a square strictly away from the source lies on
/// exactly one ray.
proof fn lemma_ray_unique(dr: int, df: int, t: int, dr2: int, df2: int, t2: int)
    requires
        -1 <= dr <= 1,
        -1 <= df <= 1,
        !(dr == 0 && df == 0),
        -1 <= dr2 <= 1,
        -1 <= df2 <= 1,
        !(dr2 == 0 && df2 == 0),
        1 <= t <= 7,
        1 <= t2 <= 7,
        t * dr == t2 * dr2,
        t * df == t2 * df2,
    ensures
        dr == dr2 && df == df2 && t == t2,
{
    assert(dr == dr2 && df == df2 && t == t2) by (nonlinear_arith)
        requires
            -1 <= dr <= 1,
            -1 <= df <= 1,
            !(dr == 0 && df == 0),
            -1 <= dr2 <= 1,
            -1 <= df2 <= 1,
            !(dr2 == 0 && df2 == 0),
            1 <= t <= 7,
            1 <= t2 <= 7,
            t * dr == t2 * dr2,
            t * df == t2 * df2,
    ;
}

/// A sliding piece's ray never yields a legal destination beyond the first
/// occupied square along it: with a blocker at step `s`, no destination at
/// any step past `s` survives into the move list.
pub proof fn lemma_ray_stops_at_blocker(
    g: Game,
    pr: int,
    pf: int,
    dr: int,
    df: int,
    s: int,
    t: int,
    m: Move,
)
    requires
        g.wf(),
        0 <= pr < 8,
        0 <= pf < 8,
        occ_at(g.p(), pr, pf),
        g.p()[pr][pf].kind == PieceType::Rook || g.p()[pr][pf].kind == PieceType::Bishop
            || g.p()[pr][pf].kind == PieceType::Queen,
        -1 <= dr <= 1,
        -1 <= df <= 1,
        !(dr == 0 && df == 0),
        1 <= s < t <= 7,
        in_range(pr + s * dr) && in_range(pf + s * df),
        occ_at(g.p(), pr + s * dr, pf + s * df),
        m.x as int == pr + t * dr,
        m.y as int == pf + t * df,
    ensures
        !g.boards.board@[pr]@[pf].piece.moves@.contains(m),
{
    let p = g.p();
    let mx = m.x as int;
    let my = m.y as int;
    if g.boards.board@[pr]@[pf].piece.moves@.contains(m) {
        assert(legal(p, pr, pf, mx, my));
        assert(cand(p, pr, pf, mx, my));
        // The destination lies on some unblocked ray; a square strictly
        // away from the source lies on exactly one ray, so that ray is
        // this one, and its clear prefix contradicts the blocker.
        if crate::rules::rook_reach(p, pr, pf, mx, my) {
            let (a, b) = choose|a: int, b: int|
                #[trigger] rook_dir(a, b) && slide_reaches(p, pr, pf, a, b, mx, my);
            let t2 = choose|t2: int|
                1 <= t2 < 8 && #[trigger] ray_step(pr, pf, a, b, t2) == (mx, my) && in_range(mx)
                    && in_range(my) && ray_free(p, pr, pf, a, b, t2);
            lemma_ray_unique(dr, df, t, a, b, t2);
            lemma_ray_free_at(p, pr, pf, dr, df, t, s);
        } else {
            assert(crate::rules::bishop_reach(p, pr, pf, mx, my));
            let (a, b) = choose|a: int, b: int|
                #[trigger] bishop_dir(a, b) && slide_reaches(p, pr, pf, a, b, mx, my);
            let t2 = choose|t2: int|
                1 <= t2 < 8 && #[trigger] ray_step(pr, pf, a, b, t2) == (mx, my) && in_range(mx)
                    && in_range(my) && ray_free(p, pr, pf, a, b, t2);
            lemma_ray_unique(dr, df, t, a, b, t2);
            lemma_ray_free_at(p, pr, pf, dr, df, t, s);
        }
        assert(false);
    }
}

/// A pawn has a two-square forward candidate iff it stands on its color's
/// starting rank and both the one-step and the two-step squares are empty;
/// a pawn on any other rank never has one.
pub proof fn lemma_pawn_double_step(p: Seq<Seq<Cell>>, pr: int, pf: int, r: int, f: int)
    requires
        pl_wf(p),
        in_range(pr),
        in_range(pf),
        occ_at(p, pr, pf),
        p[pr][pf].kind == PieceType::Pawn,
        r == pr + 2 * pawn_dir(p[pr][pf].white),
        f == pf,
    ensures
        cand(p, pr, pf, r, f) <==> (pr == pawn_start(p[pr][pf].white) && !occ_at(
            p,
            pr + pawn_dir(p[pr][pf].white),
            pf,
        ) && !occ_at(p, r, f)),
{
}

/// No piece's move list ever holds the square of any king: capturing the
/// enemy king is never a destination, and a piece never lands on its own.
pub proof fn lemma_no_king_capture(g: Game, i: int, j: int, m: Move)
    requires
        g.wf(),
        0 <= i < 8,
        0 <= j < 8,
        occ_at(g.p(), i, j),
        g.boards.board@[i]@[j].piece.moves@.contains(m),
    ensures
        !(occ_at(g.p(), m.x as int, m.y as int) && g.p()[m.x as int][m.y as int].kind
            == PieceType::King),
{
    assert(legal(g.p(), i, j, m.x as int, m.y as int));
    lemma_cand_shape(g.p(), i, j, m.x as int, m.y as int);
}

/// A king is never permitted to move onto a square the opponent's
/// completed attack map marks, even an empty one: every destination in a
/// king's move list is unmarked there.
pub proof fn lemma_king_avoids_attacked(g: Game, i: int, j: int, m: Move)
    requires
        g.wf(),
        0 <= i < 8,
        0 <= j < 8,
        occ_at(g.p(), i, j),
        g.p()[i][j].kind == PieceType::King,
        g.boards.board@[i]@[j].piece.moves@.contains(m),
    ensures
        !attacked(g.p(), !g.p()[i][j].white, m.x as int, m.y as int),
{
    let p = g.p();
    let c = p[i][j].white;
    let tr = m.x as int;
    let tf = m.y as int;
    assert(legal(p, i, j, tr, tf));
    assert(cand(p, i, j, tr, tf));
    assert(is_king_at(p, c, i, j));
    lemma_king_sq(p, c, i, j);
    if c {
        // The white king is generated against Black's non-king threats; a
        // destination passing that test is one the white king itself marks,
        // which stops the black king from marking it in turn.
        assert(!nonking_attacks(p, false, tr, tf));
        assert(wking_marks(p, tr, tf));
        assert(!crate::rules::bking_marks(p, tr, tf));
    } else {
        assert(!(nonking_attacks(p, true, tr, tf) || wking_marks(p, tr, tf)));
    }
}

} // verus!
