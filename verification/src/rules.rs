//! The mathematical model of the rules: an abstract placement (what stands
//! where), the attacked-square maps each color earns from it, the candidate
//! destinations of every piece, and legality (a candidate that does not leave
//! the mover's own king attacked).
//!
//! Everything here is specification; the executable move generator in
//! `movegen` and the turn controller in `game` are proved against it.

use vstd::prelude::*;

use crate::board::{Move, Piece, PieceType, Square};

verus! {

/// What one square holds, stripped of everything but the facts the rules
/// read: the kind, the color, and whether a piece is present at all.
pub struct Cell {
    pub kind: PieceType,
    pub white: bool,
    pub occ: bool,
}

/// The canonical content of an empty square.
pub open spec fn empty_cell() -> Cell {
    Cell { kind: PieceType::Unoccupied, white: true, occ: false }
}

pub open spec fn in_range(i: int) -> bool {
    0 <= i < 8
}

/// An 8x8 placement.
pub open spec fn pl_wf(p: Seq<Seq<Cell>>) -> bool {
    p.len() == 8 && forall|i: int| 0 <= i < 8 ==> (#[trigger] p[i]).len() == 8
}

pub open spec fn occ_at(p: Seq<Seq<Cell>>, r: int, f: int) -> bool {
    p[r][f].occ
}

/// The placement a concrete grid of squares stands for.
pub open spec fn place(b: Seq<Vec<Square>>) -> Seq<Seq<Cell>> {
    Seq::new(8, |i: int| Seq::new(8, |j: int|
        Cell {
            kind: b[i]@[j].piece.piece_type,
            white: b[i]@[j].piece.white,
            occ: b[i]@[j].occupied,
        }))
}

/// One square of a placement replaced.
pub open spec fn pl_set(p: Seq<Seq<Cell>>, r: int, f: int, c: Cell) -> Seq<Seq<Cell>> {
    p.update(r, p[r].update(f, c))
}

/// The placement after relocating the piece on `(fr, ff)` to `(tr, tf)`:
/// the destination takes over kind, color and presence, the source becomes
/// the canonical empty square.
pub open spec fn pl_apply(p: Seq<Seq<Cell>>, fr: int, ff: int, tr: int, tf: int) -> Seq<
    Seq<Cell>,
> {
    pl_set(
        pl_set(p, tr, tf, Cell { kind: p[fr][ff].kind, white: p[fr][ff].white, occ: p[fr][ff].occ }),
        fr,
        ff,
        empty_cell(),
    )
}

/// The rank toward which a pawn of this color advances.
pub open spec fn pawn_dir(white: bool) -> int {
    if white {
        1
    } else {
        -1
    }
}

/// The rank a pawn of this color starts on.
pub open spec fn pawn_start(white: bool) -> int {
    if white {
        1
    } else {
        6
    }
}

/// A piece of color `c` may land on `(r, f)`: the square is on the board and
/// holds neither a piece of its own side nor the enemy king (capturing the
/// king is never allowed; checkmate, not capture, ends the game).
pub open spec fn landable(p: Seq<Seq<Cell>>, c: bool, r: int, f: int) -> bool {
    in_range(r) && in_range(f) && (occ_at(p, r, f) ==> p[r][f].white != c && p[r][f].kind
        != PieceType::King)
}

/// `(r, f)` is one of the eight knight leaps from `(pr, pf)`.
pub open spec fn knight_offset(pr: int, pf: int, r: int, f: int) -> bool {
    let dr = r - pr;
    let df = f - pf;
    (dr == 2 || dr == -2) && (df == 1 || df == -1) || (dr == 1 || dr == -1) && (df == 2 || df
        == -2)
}

/// `(r, f)` is one of the eight unit offsets from `(pr, pf)`.
pub open spec fn king_offset(pr: int, pf: int, r: int, f: int) -> bool {
    let dr = r - pr;
    let df = f - pf;
    -1 <= dr <= 1 && -1 <= df <= 1 && (dr != 0 || df != 0)
}

/// A direction a rook slides in.
pub open spec fn rook_dir(dr: int, df: int) -> bool {
    (dr == 1 && df == 0) || (dr == -1 && df == 0) || (dr == 0 && df == 1) || (dr == 0 && df == -1)
}

/// A direction a bishop slides in.
pub open spec fn bishop_dir(dr: int, df: int) -> bool {
    (dr == 1 || dr == -1) && (df == 1 || df == -1)
}

/// The first `n - 1` steps of the ray from `(pr, pf)` in direction
/// `(dr, df)` all stay on the board and are empty: nothing blocks the ray
/// strictly before step `n`.
pub open spec fn ray_free(p: Seq<Seq<Cell>>, pr: int, pf: int, dr: int, df: int, n: int) -> bool
    decreases n,
{
    n <= 1 || (ray_free(p, pr, pf, dr, df, n - 1) && in_range(pr + (n - 1) * dr) && in_range(
        pf + (n - 1) * df,
    ) && !occ_at(p, pr + (n - 1) * dr, pf + (n - 1) * df))
}

/// Every step strictly before an unblocked prefix is on the board and empty.
pub proof fn lemma_ray_free_at(
    p: Seq<Seq<Cell>>,
    pr: int,
    pf: int,
    dr: int,
    df: int,
    n: int,
    k: int,
)
    requires
        ray_free(p, pr, pf, dr, df, n),
        1 <= k < n,
    ensures
        in_range(pr + k * dr),
        in_range(pf + k * df),
        !occ_at(p, pr + k * dr, pf + k * df),
    decreases n,
{
    if k < n - 1 {
        lemma_ray_free_at(p, pr, pf, dr, df, n - 1, k);
    }
}

/// An unblocked prefix is unblocked at every shorter length.
pub proof fn lemma_ray_free_prefix(
    p: Seq<Seq<Cell>>,
    pr: int,
    pf: int,
    dr: int,
    df: int,
    n: int,
    k: int,
)
    requires
        ray_free(p, pr, pf, dr, df, n),
        k <= n,
    ensures
        ray_free(p, pr, pf, dr, df, k),
    decreases n,
{
    if k < n && n > 1 {
        lemma_ray_free_prefix(p, pr, pf, dr, df, n - 1, k);
    }
}

/// The square `s` steps from `(pr, pf)` in direction `(dr, df)`.
pub open spec fn ray_step(pr: int, pf: int, dr: int, df: int, s: int) -> (int, int) {
    (pr + s * dr, pf + s * df)
}

/// A sliding piece on `(pr, pf)` reaches `(r, f)` along direction
/// `(dr, df)` within fewer than `n` steps: the target is on the board and
/// the ray is unblocked strictly before it.
pub open spec fn reaches_upto(
    p: Seq<Seq<Cell>>,
    pr: int,
    pf: int,
    dr: int,
    df: int,
    n: int,
    r: int,
    f: int,
) -> bool {
    exists|s: int|
        1 <= s < n && #[trigger] ray_step(pr, pf, dr, df, s) == (r, f) && in_range(r) && in_range(
            f,
        ) && ray_free(p, pr, pf, dr, df, s)
}

/// A sliding piece on `(pr, pf)` reaches `(r, f)` along direction
/// `(dr, df)`: the target is some step out, on the board, and the ray is
/// unblocked strictly before it. Whether the target square itself may be
/// occupied is the caller's concern: a ray threatens up to and including
/// the first occupied square, and never past it.
pub open spec fn slide_reaches(
    p: Seq<Seq<Cell>>,
    pr: int,
    pf: int,
    dr: int,
    df: int,
    r: int,
    f: int,
) -> bool {
    reaches_upto(p, pr, pf, dr, df, 8, r, f)
}

/// A rook line from `(pr, pf)` reaches `(r, f)` unblocked.
pub open spec fn rook_reach(p: Seq<Seq<Cell>>, pr: int, pf: int, r: int, f: int) -> bool {
    exists|dr: int, df: int|
        #[trigger] rook_dir(dr, df) && slide_reaches(p, pr, pf, dr, df, r, f)
}

/// A bishop diagonal from `(pr, pf)` reaches `(r, f)` unblocked.
pub open spec fn bishop_reach(p: Seq<Seq<Cell>>, pr: int, pf: int, r: int, f: int) -> bool {
    exists|dr: int, df: int|
        #[trigger] bishop_dir(dr, df) && slide_reaches(p, pr, pf, dr, df, r, f)
}

/// The non-king piece on `(pr, pf)` marks `(r, f)` on its color's attack
/// map. Pawns threaten their two forward diagonals only (a push is not a
/// threat); knights leap; sliding pieces threaten along unblocked rays, the
/// first occupied square included. Marking is blind to what stands on the
/// target: own pieces are marked too (the king's self-check test needs that).
pub open spec fn marks_from(p: Seq<Seq<Cell>>, pr: int, pf: int, r: int, f: int) -> bool {
    let cell = p[pr][pf];
    in_range(r) && in_range(f) && match cell.kind {
        PieceType::Pawn => r == pr + pawn_dir(cell.white) && (f == pf - 1 || f == pf + 1),
        PieceType::Knight => knight_offset(pr, pf, r, f),
        PieceType::Rook => rook_reach(p, pr, pf, r, f),
        PieceType::Bishop => bishop_reach(p, pr, pf, r, f),
        PieceType::Queen => rook_reach(p, pr, pf, r, f) || bishop_reach(p, pr, pf, r, f),
        _ => false,
    }
}

/// Some non-king piece of color `c` whose board scan index lies below `n`
/// (scanning rank by rank, file by file) marks `(r, f)`. With `n == 64` this
/// is the whole of color `c`'s non-king threat.
pub open spec fn nonking_upto(p: Seq<Seq<Cell>>, c: bool, n: int, r: int, f: int) -> bool {
    exists|pr: int, pf: int|
        in_range(pr) && in_range(pf) && pr * 8 + pf < n && occ_at(p, pr, pf) && p[pr][pf].white
            == c && p[pr][pf].kind != PieceType::King && #[trigger] marks_from(p, pr, pf, r, f)
}

/// Color `c` threatens `(r, f)` through some non-king piece.
pub open spec fn nonking_attacks(p: Seq<Seq<Cell>>, c: bool, r: int, f: int) -> bool {
    nonking_upto(p, c, 64, r, f)
}

/// The king of color `c` stands on `(r, f)`.
pub open spec fn is_king_at(p: Seq<Seq<Cell>>, c: bool, r: int, f: int) -> bool {
    in_range(r) && in_range(f) && occ_at(p, r, f) && p[r][f].kind == PieceType::King
        && p[r][f].white == c
}

/// Exactly one king of color `c` is on the board.
pub open spec fn one_king(p: Seq<Seq<Cell>>, c: bool) -> bool {
    (exists|r: int, f: int| #[trigger] is_king_at(p, c, r, f)) && (forall|
        r1: int,
        f1: int,
        r2: int,
        f2: int,
    |
        #[trigger] is_king_at(p, c, r1, f1) && #[trigger] is_king_at(p, c, r2, f2) ==> r1 == r2
            && f1 == f2)
}

/// The square color `c`'s king stands on (meaningful under `one_king`).
pub open spec fn king_sq(p: Seq<Seq<Cell>>, c: bool) -> (int, int) {
    choose|r: int, f: int| is_king_at(p, c, r, f)
}

/// Under `one_king`, `king_sq` names exactly the square any king of that
/// color stands on.
pub proof fn lemma_king_sq(p: Seq<Seq<Cell>>, c: bool, r: int, f: int)
    requires
        one_king(p, c),
        is_king_at(p, c, r, f),
    ensures
        king_sq(p, c) == (r, f),
{
    let (kr, kf) = choose|kr: int, kf: int| is_king_at(p, c, kr, kf);
    assert(is_king_at(p, c, kr, kf));
}

/// One scan step: the threats of the pieces below scan index
/// `i * 8 + j + 1` are those below `i * 8 + j` plus, if a non-king piece of
/// the color stands on `(i, j)`, what that piece marks.
pub proof fn lemma_nonking_upto_step(p: Seq<Seq<Cell>>, c: bool, i: int, j: int, rr: int, ff: int)
    requires
        0 <= i < 8,
        0 <= j < 8,
    ensures
        nonking_upto(p, c, i * 8 + j + 1, rr, ff) == (nonking_upto(p, c, i * 8 + j, rr, ff) || (
        occ_at(p, i, j) && p[i][j].white == c && p[i][j].kind != PieceType::King && marks_from(
            p,
            i,
            j,
            rr,
            ff,
        ))),
{
    let n = i * 8 + j;
    if nonking_upto(p, c, n + 1, rr, ff) {
        let (pr, pf) = choose|pr: int, pf: int|
            in_range(pr) && in_range(pf) && pr * 8 + pf < n + 1 && occ_at(p, pr, pf)
                && p[pr][pf].white == c && p[pr][pf].kind != PieceType::King
                && #[trigger] marks_from(p, pr, pf, rr, ff);
        if pr * 8 + pf < n {
            assert(nonking_upto(p, c, n, rr, ff));
        } else {
            assert(pr == i && pf == j);
        }
    }
    if nonking_upto(p, c, n, rr, ff) {
        let (pr, pf) = choose|pr: int, pf: int|
            in_range(pr) && in_range(pf) && pr * 8 + pf < n && occ_at(p, pr, pf) && p[pr][pf].white
                == c && p[pr][pf].kind != PieceType::King && #[trigger] marks_from(p, pr, pf, rr, ff);
        assert(nonking_upto(p, c, n + 1, rr, ff));
    }
    if occ_at(p, i, j) && p[i][j].white == c && p[i][j].kind != PieceType::King && marks_from(
        p,
        i,
        j,
        rr,
        ff,
    ) {
        assert(nonking_upto(p, c, n + 1, rr, ff));
    }
}

/// Kings are processed after every other piece, the white king first. The
/// white king marks each of its unit offsets that the black non-king pieces
/// do not already threaten; marking stops there, so a king never threatens a
/// square it could not step to.
pub open spec fn wking_marks(p: Seq<Seq<Cell>>, r: int, f: int) -> bool {
    let k = king_sq(p, true);
    king_offset(k.0, k.1, r, f) && in_range(r) && in_range(f) && !nonking_attacks(p, false, r, f)
}

/// The black king, processed last, marks each of its unit offsets that White
/// does not already threaten, the white king's own marks included.
pub open spec fn bking_marks(p: Seq<Seq<Cell>>, r: int, f: int) -> bool {
    let k = king_sq(p, false);
    king_offset(k.0, k.1, r, f) && in_range(r) && in_range(f) && !(nonking_attacks(p, true, r, f)
        || wking_marks(p, r, f))
}

/// Color `c`'s completed attack map: its non-king threats plus its king's
/// marks.
pub open spec fn attacked(p: Seq<Seq<Cell>>, c: bool, r: int, f: int) -> bool {
    if c {
        nonking_attacks(p, true, r, f) || wking_marks(p, r, f)
    } else {
        nonking_attacks(p, false, r, f) || bking_marks(p, r, f)
    }
}

/// The enemy marks the king of color `c` must not step onto: for the white
/// king (processed first) Black's non-king threats; for the black king those
/// of White plus the white king's marks, complete by then.
pub open spec fn king_rejects(p: Seq<Seq<Cell>>, c: bool, r: int, f: int) -> bool {
    if c {
        nonking_attacks(p, false, r, f)
    } else {
        nonking_attacks(p, true, r, f) || wking_marks(p, r, f)
    }
}

/// A pawn candidate destination: one step forward onto an empty square, two
/// steps from the starting rank if both squares are empty, or a diagonal
/// step capturing an enemy other than the king.
pub open spec fn pawn_cand(p: Seq<Seq<Cell>>, pr: int, pf: int, r: int, f: int) -> bool {
    let c = p[pr][pf].white;
    let d = pawn_dir(c);
    (f == pf && r == pr + d && in_range(r) && !occ_at(p, r, f)) || (f == pf && pr == pawn_start(c)
        && r == pr + 2 * d && !occ_at(p, pr + d, pf) && !occ_at(p, r, f)) || (r == pr + d && (f == pf
        - 1 || f == pf + 1) && in_range(r) && in_range(f) && occ_at(p, r, f) && p[r][f].white != c
        && p[r][f].kind != PieceType::King)
}

/// A candidate destination of the piece on `(pr, pf)`, before self-check
/// filtering. For a king this already excludes the enemy marks it was
/// generated against.
pub open spec fn cand(p: Seq<Seq<Cell>>, pr: int, pf: int, r: int, f: int) -> bool {
    let cell = p[pr][pf];
    match cell.kind {
        PieceType::Pawn => pawn_cand(p, pr, pf, r, f),
        PieceType::Knight => knight_offset(pr, pf, r, f) && landable(p, cell.white, r, f),
        PieceType::Rook => rook_reach(p, pr, pf, r, f) && landable(p, cell.white, r, f),
        PieceType::Bishop => bishop_reach(p, pr, pf, r, f) && landable(p, cell.white, r, f),
        PieceType::Queen => (rook_reach(p, pr, pf, r, f) || bishop_reach(p, pr, pf, r, f))
            && landable(p, cell.white, r, f),
        PieceType::King => king_offset(pr, pf, r, f) && landable(p, cell.white, r, f)
            && !king_rejects(p, cell.white, r, f),
        PieceType::Unoccupied => false,
    }
}

/// Where the mover's king stands after the move: on the destination if the
/// king itself moved, else where it already was.
pub open spec fn king_after(p: Seq<Seq<Cell>>, c: bool, fr: int, ff: int, tr: int, tf: int) -> (
    int,
    int,
) {
    if king_sq(p, c) == (fr, ff) {
        (tr, tf)
    } else {
        king_sq(p, c)
    }
}

/// Applying the move would leave the mover's own king on a square the
/// opponent's rebuilt attack map marks.
pub open spec fn move_self_checks(p: Seq<Seq<Cell>>, fr: int, ff: int, tr: int, tf: int) -> bool {
    let c = p[fr][ff].white;
    let p2 = pl_apply(p, fr, ff, tr, tf);
    let k = king_after(p, c, fr, ff, tr, tf);
    attacked(p2, !c, k.0, k.1)
}

/// A legal move: a candidate that survives self-check filtering.
pub open spec fn legal(p: Seq<Seq<Cell>>, fr: int, ff: int, tr: int, tf: int) -> bool {
    cand(p, fr, ff, tr, tf) && !move_self_checks(p, fr, ff, tr, tf)
}

/// Checkmate against the side whose turn it would be: its king's square is
/// marked on the mover's completed attack map and no piece of that side has
/// any legal move left.
pub open spec fn is_mate(p: Seq<Seq<Cell>>, attacker: bool) -> bool {
    let k = king_sq(p, !attacker);
    attacked(p, attacker, k.0, k.1) && forall|fr: int, ff: int, tr: int, tf: int|
        in_range(fr) && in_range(ff) && occ_at(p, fr, ff) && p[fr][ff].white == !attacker
            ==> !#[trigger] legal(p, fr, ff, tr, tf)
}

/// Every candidate move is well-shaped: it stays on the board, goes
/// somewhere else, and never lands on a king or on the mover's own side.
pub proof fn lemma_cand_shape(p: Seq<Seq<Cell>>, fr: int, ff: int, tr: int, tf: int)
    requires
        pl_wf(p),
        in_range(fr),
        in_range(ff),
        occ_at(p, fr, ff),
        cand(p, fr, ff, tr, tf),
    ensures
        in_range(tr),
        in_range(tf),
        !(fr == tr && ff == tf),
        !(occ_at(p, tr, tf) && p[tr][tf].kind == PieceType::King),
        occ_at(p, tr, tf) ==> p[tr][tf].white != p[fr][ff].white,
{
    match p[fr][ff].kind {
        PieceType::Rook => {
            let (dr, df) = choose|dr: int, df: int|
                #[trigger] rook_dir(dr, df) && slide_reaches(p, fr, ff, dr, df, tr, tf);
            lemma_slide_off(p, fr, ff, dr, df, tr, tf);
        },
        PieceType::Bishop => {
            let (dr, df) = choose|dr: int, df: int|
                #[trigger] bishop_dir(dr, df) && slide_reaches(p, fr, ff, dr, df, tr, tf);
            lemma_slide_off(p, fr, ff, dr, df, tr, tf);
        },
        PieceType::Queen => {
            if rook_reach(p, fr, ff, tr, tf) {
                let (dr, df) = choose|dr: int, df: int|
                    #[trigger] rook_dir(dr, df) && slide_reaches(p, fr, ff, dr, df, tr, tf);
                lemma_slide_off(p, fr, ff, dr, df, tr, tf);
            } else {
                let (dr, df) = choose|dr: int, df: int|
                    #[trigger] bishop_dir(dr, df) && slide_reaches(p, fr, ff, dr, df, tr, tf);
                lemma_slide_off(p, fr, ff, dr, df, tr, tf);
            }
        },
        _ => {},
    }
}

/// A slide of at least one step along a nonzero direction leaves the
/// starting square.
proof fn lemma_slide_off(p: Seq<Seq<Cell>>, fr: int, ff: int, dr: int, df: int, tr: int, tf: int)
    requires
        slide_reaches(p, fr, ff, dr, df, tr, tf),
        -1 <= dr <= 1,
        -1 <= df <= 1,
        !(dr == 0 && df == 0),
    ensures
        !(fr == tr && ff == tf),
{
    let t = choose|t: int|
        1 <= t < 8 && #[trigger] ray_step(fr, ff, dr, df, t) == (tr, tf) && in_range(tr) && in_range(
            tf,
        ) && ray_free(p, fr, ff, dr, df, t);
    assert(tr - fr == t * dr && tf - ff == t * df);
    if dr != 0 {
        assert(t * dr != 0) by (nonlinear_arith)
            requires
                1 <= t,
                dr == 1 || dr == -1,
        ;
    } else {
        assert(t * df != 0) by (nonlinear_arith)
            requires
                1 <= t,
                df == 1 || df == -1,
        ;
    }
}

/// Applying a move whose destination does not hold a king keeps exactly one
/// king of each color on the board, and says where each now stands.
pub proof fn lemma_apply_kings(p: Seq<Seq<Cell>>, fr: int, ff: int, tr: int, tf: int)
    requires
        pl_wf(p),
        one_king(p, true),
        one_king(p, false),
        in_range(fr) && in_range(ff) && in_range(tr) && in_range(tf),
        !(fr == tr && ff == tf),
        occ_at(p, fr, ff),
        !(occ_at(p, tr, tf) && p[tr][tf].kind == PieceType::King),
    ensures
        pl_wf(pl_apply(p, fr, ff, tr, tf)),
        one_king(pl_apply(p, fr, ff, tr, tf), true),
        one_king(pl_apply(p, fr, ff, tr, tf), false),
        king_sq(pl_apply(p, fr, ff, tr, tf), true) == if king_sq(p, true) == (fr, ff) {
            (tr, tf)
        } else {
            king_sq(p, true)
        },
        king_sq(pl_apply(p, fr, ff, tr, tf), false) == if king_sq(p, false) == (fr, ff) {
            (tr, tf)
        } else {
            king_sq(p, false)
        },
{
    let p2 = pl_apply(p, fr, ff, tr, tf);
    assert forall|r: int, f: int| in_range(r) && in_range(f) implies #[trigger] p2[r][f] == (if r
        == tr && f == tf {
        Cell { kind: p[fr][ff].kind, white: p[fr][ff].white, occ: p[fr][ff].occ }
    } else if r == fr && f == ff {
        empty_cell()
    } else {
        p[r][f]
    }) by {}
    assert forall|c: bool| true implies #[trigger] king_sq(p2, c) == (if king_sq(p, c) == (fr, ff) {
        (tr, tf)
    } else {
        king_sq(p, c)
    }) && one_king(p2, c) by {
        let (kr, kf) = choose|kr: int, kf: int| is_king_at(p, c, kr, kf);
        assert(is_king_at(p, c, kr, kf));
        lemma_king_sq(p, c, kr, kf);
        assert(!(kr == tr && kf == tf));
        if kr == fr && kf == ff {
            // The king itself moves: it now stands on the destination.
            assert(is_king_at(p2, c, tr, tf));
            assert forall|r1: int, f1: int| #[trigger] is_king_at(p2, c, r1, f1) implies r1 == tr
                && f1 == tf by {
                if !(r1 == tr && f1 == tf) && !(r1 == fr && f1 == ff) {
                    assert(is_king_at(p, c, r1, f1));
                }
            }
            assert(one_king(p2, c));
            lemma_king_sq(p2, c, tr, tf);
        } else {
            // Some other piece moves: the king stays where it was. The
            // source square cannot hold this king, and the destination does
            // not hold a king at all.
            assert(is_king_at(p2, c, kr, kf));
            assert forall|r1: int, f1: int| #[trigger] is_king_at(p2, c, r1, f1) implies r1 == kr
                && f1 == kf by {
                if !(r1 == tr && f1 == tf) && !(r1 == fr && f1 == ff) {
                    assert(is_king_at(p, c, r1, f1));
                } else if r1 == tr && f1 == tf {
                    assert(is_king_at(p, c, fr, ff));
                }
            }
            assert(one_king(p2, c));
            lemma_king_sq(p2, c, kr, kf);
        }
    }
    // Naming these terms lets the quantified fact above apply to each color.
    assert(king_sq(p2, true) == king_sq(p2, true));
    assert(king_sq(p2, false) == king_sq(p2, false));
}

/// The piece the standard initial position puts on `(r, f)`.
pub open spec fn initial_kind(r: int, f: int) -> PieceType {
    if r == 0 || r == 7 {
        if f == 0 || f == 7 {
            PieceType::Rook
        } else if f == 1 || f == 6 {
            PieceType::Knight
        } else if f == 2 || f == 5 {
            PieceType::Bishop
        } else if f == 3 {
            PieceType::Queen
        } else {
            PieceType::King
        }
    } else if r == 1 || r == 6 {
        PieceType::Pawn
    } else {
        PieceType::Unoccupied
    }
}

/// One cell of the standard initial position.
pub open spec fn initial_cell(r: int, f: int) -> Cell {
    if r <= 1 {
        Cell { kind: initial_kind(r, f), white: true, occ: true }
    } else if r >= 6 {
        Cell { kind: initial_kind(r, f), white: false, occ: true }
    } else {
        empty_cell()
    }
}

/// The standard initial placement.
pub open spec fn initial_placement() -> Seq<Seq<Cell>> {
    Seq::new(8, |r: int| Seq::new(8, |f: int| initial_cell(r, f)))
}

/// The initial position holds exactly one king per color, each on its
/// home square.
pub proof fn lemma_initial_kings()
    ensures
        pl_wf(initial_placement()),
        one_king(initial_placement(), true),
        one_king(initial_placement(), false),
        king_sq(initial_placement(), true) == (0int, 4int),
        king_sq(initial_placement(), false) == (7int, 4int),
{
    let p = initial_placement();
    assert(is_king_at(p, true, 0, 4));
    assert(is_king_at(p, false, 7, 4));
    assert forall|r: int, f: int| #[trigger] is_king_at(p, true, r, f) implies r == 0 && f == 4 by {}
    assert forall|r: int, f: int| #[trigger] is_king_at(p, false, r, f) implies r == 7 && f
        == 4 by {}
    lemma_king_sq(p, true, 0, 4);
    lemma_king_sq(p, false, 7, 4);
}

} // verus!
