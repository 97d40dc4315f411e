//! The turn controller: it owns the whole game aggregate, validates
//! submitted moves against the current self-check-filtered move lists,
//! applies them, rebuilds the attack maps and move lists, filters out
//! self-checking moves, and decides checkmate.

use vstd::prelude::*;

use crate::board::{
    board_wf, build_board, build_check_board, copy_moves, map_at, map_wf, moves_contains,
    snapshot_board, square_to_square, square_to_unoccupied, Boards, Move, Piece, Square,
};
use crate::coord::{parsed_coord, string_to_move, valid_coord_str};
use crate::movegen::{find_all_moves, find_kings};
use crate::rules::{
    attacked, cand, in_range, is_mate, king_sq, legal, move_self_checks, occ_at, one_king,
    pl_apply, place, Cell,
};

verus! {

broadcast use vstd::seq_lib::lemma_seq_contains_after_push;

/// Why one turn submission was rejected. Every rejection is local: it
/// leaves the game state untouched and the same side to move.
#[derive(Clone, Copy, PartialEq, Eq, Structural, Debug)]
pub enum TurnError {
    /// A coordinate string is not a file letter followed by a rank digit.
    FormatError,
    /// The source square holds no piece.
    EmptySquareError,
    /// The piece on the source square belongs to the other side.
    WrongColorError,
    /// The destination is not in the piece's filtered legal-move list.
    IllegalMoveError,
}

/// The whole game aggregate: the position with both attack maps, whose turn
/// it is, the cached king squares, the pending raw input, and whether the
/// game has ended in checkmate.
#[derive(Clone, Debug)]
pub struct Game {
    pub boards: Boards,
    pub white_turn: bool,
    pub move_history: Vec<String>,
    pub w_king_pos: Move,
    pub b_king_pos: Move,
    pub move_from: String,
    pub move_to: String,
    pub mate: bool,
}

impl Game {
    /// The placement this game's board stands for.
    pub open spec fn p(self) -> Seq<Seq<Cell>> {
        place(self.boards.board@)
    }

    /// The structural invariant: a well-formed grid and maps, exactly one
    /// king per color, and king caches that name the kings' squares.
    pub open spec fn base_wf(self) -> bool {
        &&& board_wf(self.boards.board@)
        &&& map_wf(self.boards.white_check_board@)
        &&& map_wf(self.boards.black_check_board@)
        &&& one_king(self.p(), true)
        &&& one_king(self.p(), false)
        &&& self.w_king_pos.x < 8 && self.w_king_pos.y < 8
        &&& self.b_king_pos.x < 8 && self.b_king_pos.y < 8
        &&& king_sq(self.p(), true) == (self.w_king_pos.x as int, self.w_king_pos.y as int)
        &&& king_sq(self.p(), false) == (self.b_king_pos.x as int, self.b_king_pos.y as int)
    }

    /// Both attack maps hold exactly the attacked squares of the current
    /// placement.
    pub open spec fn maps_ok(self) -> bool {
        &&& forall|rr: int, ff: int| #![trigger self.boards.white_check_board@[rr]@[ff]]
            0 <= rr < 8 && 0 <= ff < 8 ==> map_at(self.boards.white_check_board@, rr, ff)
                == attacked(self.p(), true, rr, ff)
        &&& forall|rr: int, ff: int| #![trigger self.boards.black_check_board@[rr]@[ff]]
            0 <= rr < 8 && 0 <= ff < 8 ==> map_at(self.boards.black_check_board@, rr, ff)
                == attacked(self.p(), false, rr, ff)
    }

    /// Every occupied square's cached move list holds exactly its
    /// candidate destinations, before self-check filtering.
    pub open spec fn moves_cand(self) -> bool {
        forall|i: int, j: int, m: Move|
            #![trigger self.boards.board@[i]@[j].piece.moves@.contains(m)]
            0 <= i < 8 && 0 <= j < 8 && occ_at(self.p(), i, j) ==> (
            self.boards.board@[i]@[j].piece.moves@.contains(m) <==> cand(
                self.p(),
                i,
                j,
                m.x as int,
                m.y as int,
            ))
    }

    /// Every occupied square's cached move list holds exactly its legal
    /// moves: candidates that do not leave the mover's own king attacked.
    pub open spec fn moves_legal(self) -> bool {
        forall|i: int, j: int, m: Move|
            #![trigger self.boards.board@[i]@[j].piece.moves@.contains(m)]
            0 <= i < 8 && 0 <= j < 8 && occ_at(self.p(), i, j) ==> (
            self.boards.board@[i]@[j].piece.moves@.contains(m) <==> legal(
                self.p(),
                i,
                j,
                m.x as int,
                m.y as int,
            ))
    }

    /// The full invariant between turns: structure, fresh attack maps, and
    /// self-check-filtered move lists.
    pub open spec fn wf(self) -> bool {
        self.base_wf() && self.maps_ok() && self.moves_legal()
    }

    /// Whether a string is a usable coordinate: a file letter `A`..=`H`
    /// followed by a rank digit `1`..=`8`, nothing more.
    pub(crate) fn check_input(input: &String) -> (r: bool)
        ensures
            r == valid_coord_str(input@),
    {
        let s = input.as_str();
        if s.unicode_len() != 2 {
            return false;
        }
        let file = crate::coord::parse_file(s.get_char(0));
        let rank = crate::coord::parse_rank(s.get_char(1));
        file < 8 && rank < 8
    }

    /// Stores a submitted move; `do_turn` validates and applies it.
    pub fn input_move(&mut self, move_from: String, move_to: String)
        ensures
            final(self).move_from == move_from,
            final(self).move_to == move_to,
            final(self).boards == old(self).boards,
            final(self).white_turn == old(self).white_turn,
            final(self).move_history == old(self).move_history,
            final(self).w_king_pos == old(self).w_king_pos,
            final(self).b_king_pos == old(self).b_king_pos,
            final(self).mate == old(self).mate,
            old(self).wf() ==> final(self).wf(),
    {
        self.move_from = move_from;
        self.move_to = move_to;
    }

    /// Clears the pending input after a turn, accepted or rejected.
    fn reset_moves(&mut self)
        ensures
            final(self).move_from@.len() == 0,
            final(self).move_to@.len() == 0,
            final(self).boards == old(self).boards,
            final(self).white_turn == old(self).white_turn,
            final(self).move_history == old(self).move_history,
            final(self).w_king_pos == old(self).w_king_pos,
            final(self).b_king_pos == old(self).b_king_pos,
            final(self).mate == old(self).mate,
    {
        self.move_from = String::new();
        self.move_to = String::new();
    }

    /// A renderable copy of the board: every square with its piece and its
    /// current move list.
    pub fn get_board(&self) -> (r: Vec<Vec<Square>>)
        requires
            board_wf(self.boards.board@),
        ensures
            board_wf(r@),
            place(r@) == self.p(),
            forall|i: int, j: int|
                0 <= i < 8 && 0 <= j < 8 ==> (#[trigger] r@[i]@[j]).piece.moves@
                    == self.boards.board@[i]@[j].piece.moves@,
    {
        let board = &self.boards.board;
        let mut b: Vec<Vec<Square>> = Vec::new();
        for i in 0..8usize
            invariant
                b@.len() == i,
                forall|r2: int| 0 <= r2 < i ==> (#[trigger] b@[r2])@.len() == 8,
                forall|r2: int, j: int|
                    0 <= r2 < i && 0 <= j < 8 ==> crate::board::sq_wf(#[trigger] b@[r2]@[j], r2, j),
                forall|r2: int, j: int|
                    0 <= r2 < i && 0 <= j < 8 ==> (#[trigger] b@[r2]@[j]).piece.piece_type
                        == board@[r2]@[j].piece.piece_type && b@[r2]@[j].piece.white
                        == board@[r2]@[j].piece.white && b@[r2]@[j].occupied
                        == board@[r2]@[j].occupied && b@[r2]@[j].piece.moves@
                        == board@[r2]@[j].piece.moves@,
        {
            let mut row: Vec<Square> = Vec::new();
            for j in 0..8usize
                invariant
                    i < 8,
                    row@.len() == j,
                    forall|t: int| 0 <= t < j ==> crate::board::sq_wf(#[trigger] row@[t], i as int, t),
                    forall|t: int|
                        0 <= t < j ==> (#[trigger] row@[t]).piece.piece_type
                            == board@[i as int]@[t].piece.piece_type && row@[t].piece.white
                            == board@[i as int]@[t].piece.white && row@[t].occupied
                            == board@[i as int]@[t].occupied && row@[t].piece.moves@
                            == board@[i as int]@[t].piece.moves@,
            {
                let src = &board[i][j];
                row.push(
                    Square {
                        x: src.x,
                        y: src.y,
                        piece: Piece {
                            piece_type: src.piece.piece_type,
                            white: src.piece.white,
                            moves: copy_moves(&src.piece.moves),
                        },
                        occupied: src.occupied,
                    },
                );
            }
            b.push(row);
        }
        proof {
            assert(place(b@) =~~= self.p());
        }
        b
    }

    /// One full rebuild of both attack maps and every move list, as of the
    /// current placement. King moves are not yet self-check-filtered beyond
    /// the attack-map test; `clear_self_checking_moves` completes the job.
    pub fn find_all_moves(&mut self)
        requires
            old(self).base_wf(),
        ensures
            final(self).base_wf(),
            final(self).p() == old(self).p(),
            final(self).maps_ok(),
            final(self).moves_cand(),
            final(self).white_turn == old(self).white_turn,
            final(self).move_history == old(self).move_history,
            final(self).w_king_pos == old(self).w_king_pos,
            final(self).b_king_pos == old(self).b_king_pos,
            final(self).move_from == old(self).move_from,
            final(self).move_to == old(self).move_to,
            final(self).mate == old(self).mate,
    {
        let mut boards = Boards {
            board: Vec::new(),
            white_check_board: Vec::new(),
            black_check_board: Vec::new(),
        };
        core::mem::swap(&mut boards, &mut self.boards);
        let rebuilt = find_all_moves(
            boards.board,
            boards.white_check_board,
            boards.black_check_board,
        );
        self.boards = rebuilt;
    }

    /// Applies the pending move: relocates the piece and, if it was a king,
    /// moves that color's cached king square along. Validation is the
    /// caller's duty; the pending destination must stand in the source
    /// piece's filtered move list.
    pub fn do_move(&mut self)
        requires
            old(self).wf(),
            valid_coord_str(old(self).move_from@),
            valid_coord_str(old(self).move_to@),
            occ_at(
                old(self).p(),
                parsed_coord(old(self).move_from@).x as int,
                parsed_coord(old(self).move_from@).y as int,
            ),
            old(self).boards.board@[parsed_coord(old(self).move_from@).x as int]@[parsed_coord(
                old(self).move_from@,
            ).y as int].piece.moves@.contains(parsed_coord(old(self).move_to@)),
        ensures
            final(self).base_wf(),
            final(self).p() == pl_apply(
                old(self).p(),
                parsed_coord(old(self).move_from@).x as int,
                parsed_coord(old(self).move_from@).y as int,
                parsed_coord(old(self).move_to@).x as int,
                parsed_coord(old(self).move_to@).y as int,
            ),
            final(self).boards.white_check_board == old(self).boards.white_check_board,
            final(self).boards.black_check_board == old(self).boards.black_check_board,
            final(self).white_turn == old(self).white_turn,
            final(self).move_history == old(self).move_history,
            final(self).move_from == old(self).move_from,
            final(self).move_to == old(self).move_to,
            final(self).mate == old(self).mate,
    {
        let ghost p0 = self.p();
        let from = string_to_move(&self.move_from);
        let to = string_to_move(&self.move_to);
        let ghost fr = from.x as int;
        let ghost ff = from.y as int;
        let ghost tr = to.x as int;
        let ghost tf = to.y as int;
        proof {
            assert(old(self).boards.board@[fr]@[ff].piece.moves@.contains(to));
            assert(legal(p0, fr, ff, tr, tf));
            crate::rules::lemma_cand_shape(p0, fr, ff, tr, tf);
            crate::rules::lemma_apply_kings(p0, fr, ff, tr, tf);
        }
        if from.x == self.w_king_pos.x && from.y == self.w_king_pos.y {
            self.w_king_pos = to;
        } else if from.x == self.b_king_pos.x && from.y == self.b_king_pos.y {
            self.b_king_pos = to;
        }
        square_to_square(&from, to, &mut self.boards.board);
        square_to_unoccupied(&from, &mut self.boards.board);
        proof {
            assert(place(self.boards.board@) =~~= pl_apply(p0, fr, ff, tr, tf));
        }
    }

    /// The mate evaluator: after a move by the side to move, the game is
    /// over iff the opponent's king stands on a square the mover's attack
    /// map marks and no piece of the opponent has any legal move left. A
    /// king not in check is never terminal here: the reduced rule set
    /// draws no stalemate distinction.
    pub fn check_for_mate(&self) -> (r: bool)
        requires
            self.wf(),
        ensures
            r == is_mate(self.p(), self.white_turn),
    {
        let ghost p = self.p();
        let enemy_king = if self.white_turn {
            self.b_king_pos
        } else {
            self.w_king_pos
        };
        let in_check = if self.white_turn {
            self.boards.white_check_board[enemy_king.x as usize][enemy_king.y as usize]
        } else {
            self.boards.black_check_board[enemy_king.x as usize][enemy_king.y as usize]
        };
        if !in_check {
            return false;
        }
        let mut mate = true;
        for i in 0..8usize
            invariant
                self.wf(),
                p == self.p(),
                !mate ==> !is_mate(p, self.white_turn),
                mate ==> forall|ii: int, jj: int|
                    0 <= ii < i && 0 <= jj < 8 && occ_at(p, ii, jj) && p[ii][jj].white
                        != self.white_turn ==> (#[trigger] self.boards.board@[ii]@[jj]).piece.moves@.len()
                        == 0,
        {
            for j in 0..8usize
                invariant
                    self.wf(),
                    p == self.p(),
                    i < 8,
                    !mate ==> !is_mate(p, self.white_turn),
                    mate ==> forall|ii: int, jj: int|
                        0 <= ii < 8 && 0 <= jj < 8 && ii * 8 + jj < i * 8 + j && occ_at(p, ii, jj)
                            && p[ii][jj].white != self.white_turn ==> (
                        #[trigger] self.boards.board@[ii]@[jj]).piece.moves@.len() == 0,
            {
                if self.boards.board[i][j].occupied && self.boards.board[i][j].piece.white
                    != self.white_turn {
                    if self.boards.board[i][j].piece.moves.len() != 0 {
                        proof {
                            let mm = self.boards.board@[i as int]@[j as int].piece.moves@[0];
                            assert(self.boards.board@[i as int]@[j as int].piece.moves@.contains(
                                mm,
                            ));
                            assert(legal(p, i as int, j as int, mm.x as int, mm.y as int));
                            assert(!is_mate(p, self.white_turn)) by {
                                if is_mate(p, self.white_turn) {
                                    assert(!legal(p, i as int, j as int, mm.x as int, mm.y as int));
                                }
                            }
                        }
                        mate = false;
                    }
                }
            }
        }
        proof {
            if mate {
                assert forall|fr: int, ff: int, tr: int, tf: int|
                    in_range(fr) && in_range(ff) && occ_at(p, fr, ff) && p[fr][ff].white
                        == !self.white_turn implies !#[trigger] legal(p, fr, ff, tr, tf) by {
                    if legal(p, fr, ff, tr, tf) {
                        crate::rules::lemma_cand_shape(p, fr, ff, tr, tf);
                        let m = Move { x: tr as u8, y: tf as u8 };
                        assert(self.boards.board@[fr]@[ff].piece.moves@.contains(m) <==> legal(
                            p,
                            fr,
                            ff,
                            m.x as int,
                            m.y as int,
                        ));
                        assert(self.boards.board@[fr]@[ff].piece.moves@.len() == 0);
                    }
                }
                assert(is_mate(p, self.white_turn));
            }
        }
        mate
    }

    /// Classifies the pending, already well-formatted move: the source must
    /// hold a piece, the piece must belong to the side to move, and the
    /// destination must stand in its filtered legal-move list.
    fn check_move_valid(&self) -> (r: Result<(), TurnError>)
        requires
            self.wf(),
            valid_coord_str(self.move_from@),
            valid_coord_str(self.move_to@),
        ensures
            ({
                let mf = parsed_coord(self.move_from@);
                let mt = parsed_coord(self.move_to@);
                let occ = occ_at(self.p(), mf.x as int, mf.y as int);
                let own = self.p()[mf.x as int][mf.y as int].white == self.white_turn;
                let lg = legal(self.p(), mf.x as int, mf.y as int, mt.x as int, mt.y as int);
                &&& (r == Ok::<(), TurnError>(())) <==> (occ && own && lg)
                &&& (r == Err::<(), TurnError>(TurnError::EmptySquareError)) <==> !occ
                &&& (r == Err::<(), TurnError>(TurnError::WrongColorError)) <==> (occ && !own)
                &&& (r == Err::<(), TurnError>(TurnError::IllegalMoveError)) <==> (occ && own
                    && !lg)
            }),
    {
        let mv_from = string_to_move(&self.move_from);
        let mv_to = string_to_move(&self.move_to);
        let fx = mv_from.x as usize;
        let fy = mv_from.y as usize;
        if !self.boards.board[fx][fy].occupied {
            return Err(TurnError::EmptySquareError);
        }
        if self.boards.board[fx][fy].piece.white != self.white_turn {
            return Err(TurnError::WrongColorError);
        }
        if !moves_contains(&self.boards.board[fx][fy].piece.moves, mv_to) {
            proof {
                assert(self.boards.board@[fx as int]@[fy as int].piece.moves@.contains(mv_to)
                    <==> legal(
                    self.p(),
                    fx as int,
                    fy as int,
                    mv_to.x as int,
                    mv_to.y as int,
                ));
            }
            return Err(TurnError::IllegalMoveError);
        }
        proof {
            assert(self.boards.board@[fx as int]@[fy as int].piece.moves@.contains(mv_to) <==> legal(
                self.p(),
                fx as int,
                fy as int,
                mv_to.x as int,
                mv_to.y as int,
            ));
        }
        Ok(())
    }

    /// One turn of the state machine: validate the pending input, apply the
    /// move, rebuild the attack maps and move lists, filter out
    /// self-checking moves, and check for mate. Any rejection leaves the
    /// position and the side to move untouched and clears the pending
    /// input; on checkmate the turn does not flip and the game is over.
    pub fn do_turn(&mut self) -> (r: Result<(), TurnError>)
        requires
            old(self).wf(),
            !old(self).mate,
        ensures
            final(self).wf(),
            final(self).move_from@.len() == 0,
            final(self).move_to@.len() == 0,
            final(self).move_history == old(self).move_history,
            ({
                let vf = valid_coord_str(old(self).move_from@);
                let vt = valid_coord_str(old(self).move_to@);
                let mf = parsed_coord(old(self).move_from@);
                let mt = parsed_coord(old(self).move_to@);
                let p0 = old(self).p();
                let occ = occ_at(p0, mf.x as int, mf.y as int);
                let own = p0[mf.x as int][mf.y as int].white == old(self).white_turn;
                let lg = legal(p0, mf.x as int, mf.y as int, mt.x as int, mt.y as int);
                &&& (r == Ok::<(), TurnError>(())) <==> (vf && vt && occ && own && lg)
                &&& (r == Err::<(), TurnError>(TurnError::FormatError)) <==> !(vf && vt)
                &&& (r == Err::<(), TurnError>(TurnError::EmptySquareError)) <==> (vf && vt && !occ)
                &&& (r == Err::<(), TurnError>(TurnError::WrongColorError)) <==> (vf && vt && occ
                    && !own)
                &&& (r == Err::<(), TurnError>(TurnError::IllegalMoveError)) <==> (vf && vt && occ
                    && own && !lg)
            }),
            r is Err ==> final(self).boards == old(self).boards && final(self).white_turn == old(
                self,
            ).white_turn && final(self).mate == old(self).mate && final(self).w_king_pos == old(
                self,
            ).w_king_pos && final(self).b_king_pos == old(self).b_king_pos,
            r is Ok ==> ({
                let mf = parsed_coord(old(self).move_from@);
                let mt = parsed_coord(old(self).move_to@);
                &&& final(self).p() == pl_apply(
                    old(self).p(),
                    mf.x as int,
                    mf.y as int,
                    mt.x as int,
                    mt.y as int,
                )
                &&& final(self).mate == is_mate(final(self).p(), old(self).white_turn)
                &&& final(self).white_turn == (if final(self).mate {
                    old(self).white_turn
                } else {
                    !old(self).white_turn
                })
            }),
    {
        if !Self::check_input(&self.move_from) || !Self::check_input(&self.move_to) {
            self.reset_moves();
            return Err(TurnError::FormatError);
        }
        let valid = self.check_move_valid();
        match valid {
            Err(e) => {
                self.reset_moves();
                return Err(e);
            },
            Ok(()) => {},
        }
        self.do_move();
        self.find_all_moves();
        self.clear_self_checking_moves();
        self.reset_moves();
        if self.check_for_mate() {
            self.mate = true;
            return Ok(());
        }
        self.white_turn = !self.white_turn;
        Ok(())
    }

    /// A fresh game: the standard starting position, White to move, attack
    /// maps and filtered move lists already computed.
    pub fn new() -> (game: Game)
        ensures
            game.wf(),
            game.p() == crate::rules::initial_placement(),
            game.white_turn,
            !game.mate,
            game.move_history@.len() == 0,
            game.move_from@.len() == 0,
            game.move_to@.len() == 0,
    {
        let mut game = Game {
            boards: Boards {
                board: build_board(),
                white_check_board: build_check_board(),
                black_check_board: build_check_board(),
            },
            white_turn: true,
            move_history: Vec::new(),
            w_king_pos: Move { x: 0, y: 4 },
            b_king_pos: Move { x: 7, y: 4 },
            move_from: String::new(),
            move_to: String::new(),
            mate: false,
        };
        proof {
            crate::rules::lemma_initial_kings();
        }
        game.find_all_moves();
        game.clear_self_checking_moves();
        game
    }

    /// The legality filter: simulates every cached candidate move on an
    /// isolated snapshot, reruns the full rebuild pass there, and removes
    /// from the live lists every move that would leave the mover's own king
    /// on a square the opponent's rebuilt attack map marks.
    #[verifier::rlimit(100)]
    pub fn clear_self_checking_moves(&mut self)
        requires
            old(self).base_wf(),
            old(self).moves_cand(),
        ensures
            final(self).base_wf(),
            final(self).p() == old(self).p(),
            final(self).boards.white_check_board == old(self).boards.white_check_board,
            final(self).boards.black_check_board == old(self).boards.black_check_board,
            final(self).white_turn == old(self).white_turn,
            final(self).move_history == old(self).move_history,
            final(self).w_king_pos == old(self).w_king_pos,
            final(self).b_king_pos == old(self).b_king_pos,
            final(self).move_from == old(self).move_from,
            final(self).move_to == old(self).move_to,
            final(self).mate == old(self).mate,
            forall|i: int, j: int, m: Move|
                #![trigger final(self).boards.board@[i]@[j].piece.moves@.contains(m)]
                0 <= i < 8 && 0 <= j < 8 && occ_at(old(self).p(), i, j) ==> (
                final(self).boards.board@[i]@[j].piece.moves@.contains(m) <==> (
                old(self).boards.board@[i]@[j].piece.moves@.contains(m) && !move_self_checks(
                    old(self).p(),
                    i,
                    j,
                    m.x as int,
                    m.y as int,
                ))),
    {
        let ghost p = self.p();
        let ghost g0 = *self;
        let (wk, bk) = find_kings(&self.boards.board);
        for i in 0..8usize
            invariant
                board_wf(self.boards.board@),
                place(self.boards.board@) == p,
                self.boards.white_check_board == g0.boards.white_check_board,
                self.boards.black_check_board == g0.boards.black_check_board,
                self.white_turn == g0.white_turn,
                self.move_history == g0.move_history,
                self.w_king_pos == g0.w_king_pos,
                self.b_king_pos == g0.b_king_pos,
                self.move_from == g0.move_from,
                self.move_to == g0.move_to,
                self.mate == g0.mate,
                forall|ii: int, jj: int, m: Move|
                    #![trigger self.boards.board@[ii]@[jj].piece.moves@.contains(m)]
                    0 <= ii < 8 && 0 <= jj < 8 && ii < i && occ_at(p, ii, jj) ==> (
                    self.boards.board@[ii]@[jj].piece.moves@.contains(m) <==> (
                    g0.boards.board@[ii]@[jj].piece.moves@.contains(m) && !move_self_checks(
                        p,
                        ii,
                        jj,
                        m.x as int,
                        m.y as int,
                    ))),
                forall|ii: int, jj: int|
                    0 <= ii < 8 && 0 <= jj < 8 && ii >= i ==> #[trigger] self.boards.board@[ii]@[jj]
                        == g0.boards.board@[ii]@[jj],
        {
            for j in 0..8usize
                invariant
                    board_wf(self.boards.board@),
                    place(self.boards.board@) == p,
                    self.boards.white_check_board == g0.boards.white_check_board,
                    self.boards.black_check_board == g0.boards.black_check_board,
                    self.white_turn == g0.white_turn,
                    self.move_history == g0.move_history,
                    self.w_king_pos == g0.w_king_pos,
                    self.b_king_pos == g0.b_king_pos,
                    self.move_from == g0.move_from,
                    self.move_to == g0.move_to,
                    self.mate == g0.mate,
                    forall|ii: int, jj: int, m: Move|
                        #![trigger self.boards.board@[ii]@[jj].piece.moves@.contains(m)]
                        0 <= ii < 8 && 0 <= jj < 8 && (ii < i || (ii == i && jj < j)) && occ_at(
                            p,
                            ii,
                            jj,
                        ) ==> (self.boards.board@[ii]@[jj].piece.moves@.contains(m) <==> (
                        g0.boards.board@[ii]@[jj].piece.moves@.contains(m) && !move_self_checks(
                            p,
                            ii,
                            jj,
                            m.x as int,
                            m.y as int,
                        ))),
                    forall|ii: int, jj: int|
                        0 <= ii < 8 && 0 <= jj < 8 && (ii > i || (ii == i && jj >= j))
                            ==> #[trigger] self.boards.board@[ii]@[jj] == g0.boards.board@[ii]@[jj],
            {
                if self.boards.board[i][j].occupied {
                    let white_ = self.boards.board[i][j].piece.white;
                    let mvs = copy_moves(&self.boards.board[i][j].piece.moves);
                    let mut kept: Vec<Move> = Vec::new();
                    let from = Move { x: i as u8, y: j as u8 };
                    for k in 0..mvs.len()
                        invariant
                            board_wf(self.boards.board@),
                            place(self.boards.board@) == p,
                            i < 8,
                            j < 8,
                            occ_at(p, i as int, j as int),
                            white_ == p[i as int][j as int].white,
                            from.x == i && from.y == j,
                            mvs@ == g0.boards.board@[i as int]@[j as int].piece.moves@,
                            self.boards.board@[i as int]@[j as int]
                                == g0.boards.board@[i as int]@[j as int],
                            k <= mvs@.len(),
                            forall|m: Move| #[trigger]
                                kept@.contains(m) <==> (mvs@.subrange(0, k as int).contains(m)
                                    && !move_self_checks(p, i as int, j as int, m.x as int, m.y as int)),
                        decreases mvs@.len() - k,
                    {
                        let m = mvs[k];
                        let ghost tr = m.x as int;
                        let ghost tf = m.y as int;
                        proof {
                            assert(g0.boards.board@[i as int]@[j as int].piece.moves@.contains(m));
                            assert(cand(p, i as int, j as int, tr, tf));
                            crate::rules::lemma_cand_shape(p, i as int, j as int, tr, tf);
                            crate::rules::lemma_apply_kings(p, i as int, j as int, tr, tf);
                        }
                        let mut snap = snapshot_board(&self.boards.board);
                        square_to_square(&from, m, &mut snap);
                        square_to_unoccupied(&from, &mut snap);
                        proof {
                            assert(place(snap@) =~~= pl_apply(p, i as int, j as int, tr, tf));
                        }
                        let sim = find_all_moves(snap, build_check_board(), build_check_board());
                        let king_now = if white_ {
                            if wk.x as usize == i && wk.y as usize == j {
                                m
                            } else {
                                wk
                            }
                        } else {
                            if bk.x as usize == i && bk.y as usize == j {
                                m
                            } else {
                                bk
                            }
                        };
                        let checked = if white_ {
                            sim.black_check_board[king_now.x as usize][king_now.y as usize]
                        } else {
                            sim.white_check_board[king_now.x as usize][king_now.y as usize]
                        };
                        proof {
                            assert(checked == move_self_checks(p, i as int, j as int, tr, tf));
                            assert(mvs@.subrange(0, k + 1) =~= mvs@.subrange(0, k as int).push(
                                mvs@[k as int],
                            ));
                        }
                        let ghost kept_before = kept@;
                        if !checked {
                            kept.push(m);
                        }
                        proof {
                            assert forall|mm: Move| #[trigger]
                                kept@.contains(mm) <==> (mvs@.subrange(0, k + 1).contains(mm)
                                    && !move_self_checks(
                                    p,
                                    i as int,
                                    j as int,
                                    mm.x as int,
                                    mm.y as int,
                                )) by {
                                assert(mvs@.subrange(0, k + 1).contains(mm) == (mvs@.subrange(
                                    0,
                                    k as int,
                                ).contains(mm) || mm == mvs@[k as int]));
                                assert(kept_before.contains(mm) <==> (mvs@.subrange(
                                    0,
                                    k as int,
                                ).contains(mm) && !move_self_checks(
                                    p,
                                    i as int,
                                    j as int,
                                    mm.x as int,
                                    mm.y as int,
                                )));
                                if !checked {
                                    assert(kept@ == kept_before.push(m));
                                }
                            }
                        }
                    }
                    proof {
                        assert(mvs@.subrange(0, mvs@.len() as int) =~= mvs@);
                    }
                    self.boards.board[i][j].piece.moves = kept;
                    proof {
                        assert(place(self.boards.board@) =~~= p);
                    }
                }
            }
        }
    }
}

} // verus!
