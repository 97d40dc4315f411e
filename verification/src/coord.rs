//! The coordinate codec: between algebraic square labels ("E2") and grid
//! coordinates. The one convention used everywhere: the first character is
//! the file letter `A`..=`H` (column, `y`), the second the rank digit
//! `1`..=`8` (row, `x`).

use vstd::prelude::*;

use crate::board::Move;

verus! {

/// The file index named by a letter, or -1 if the character is no file letter.
pub open spec fn file_of_char(c: char) -> int {
    if c == 'A' {
        0
    } else if c == 'B' {
        1
    } else if c == 'C' {
        2
    } else if c == 'D' {
        3
    } else if c == 'E' {
        4
    } else if c == 'F' {
        5
    } else if c == 'G' {
        6
    } else if c == 'H' {
        7
    } else {
        -1
    }
}

/// The rank index named by a digit, or -1 if the character is no rank digit.
pub open spec fn rank_of_char(c: char) -> int {
    if c == '1' {
        0
    } else if c == '2' {
        1
    } else if c == '3' {
        2
    } else if c == '4' {
        3
    } else if c == '5' {
        4
    } else if c == '6' {
        5
    } else if c == '7' {
        6
    } else if c == '8' {
        7
    } else {
        -1
    }
}

/// The letter of a file index in `0..8`.
pub open spec fn char_of_file(y: int) -> char {
    if y == 0 {
        'A'
    } else if y == 1 {
        'B'
    } else if y == 2 {
        'C'
    } else if y == 3 {
        'D'
    } else if y == 4 {
        'E'
    } else if y == 5 {
        'F'
    } else if y == 6 {
        'G'
    } else {
        'H'
    }
}

/// The digit of a rank index in `0..8`.
pub open spec fn char_of_rank(x: int) -> char {
    if x == 0 {
        '1'
    } else if x == 1 {
        '2'
    } else if x == 2 {
        '3'
    } else if x == 3 {
        '4'
    } else if x == 4 {
        '5'
    } else if x == 5 {
        '6'
    } else if x == 6 {
        '7'
    } else {
        '8'
    }
}

/// A validly formatted coordinate string: exactly two characters, a file
/// letter then a rank digit.
pub open spec fn valid_coord_str(s: Seq<char>) -> bool {
    s.len() == 2 && file_of_char(s[0]) >= 0 && rank_of_char(s[1]) >= 0
}

/// The coordinate a valid string names.
pub open spec fn parsed_coord(s: Seq<char>) -> Move {
    Move { x: rank_of_char(s[1]) as u8, y: file_of_char(s[0]) as u8 }
}

/// The two-character label of an on-board coordinate.
pub open spec fn coord_str(m: Move) -> Seq<char> {
    seq![char_of_file(m.y as int), char_of_rank(m.x as int)]
}

/// The file index of a letter, with 8 standing for "no file letter".
pub(crate) fn parse_file(c: char) -> (r: u8)
    ensures
        r as int == if file_of_char(c) >= 0 {
            file_of_char(c)
        } else {
            8int
        },
{
    match c {
        'A' => 0,
        'B' => 1,
        'C' => 2,
        'D' => 3,
        'E' => 4,
        'F' => 5,
        'G' => 6,
        'H' => 7,
        _ => 8,
    }
}

/// The rank index of a digit, with 8 standing for "no rank digit".
pub(crate) fn parse_rank(c: char) -> (r: u8)
    ensures
        r as int == if rank_of_char(c) >= 0 {
            rank_of_char(c)
        } else {
            8int
        },
{
    match c {
        '1' => 0,
        '2' => 1,
        '3' => 2,
        '4' => 3,
        '5' => 4,
        '6' => 5,
        '7' => 6,
        '8' => 7,
        _ => 8,
    }
}

/// Decodes a validated coordinate string. Callers establish validity first
/// (see `Game::check_input`); on anything else this function has no meaning,
/// so validity is a precondition rather than a runtime error path.
pub fn string_to_move(input: &String) -> (m: Move)
    requires
        valid_coord_str(input@),
    ensures
        m == parsed_coord(input@),
        m.x < 8,
        m.y < 8,
{
    let s = input.as_str();
    let file = s.get_char(0);
    let rank = s.get_char(1);
    Move { x: parse_rank(rank), y: parse_file(file) }
}

impl Move {
    /// Encodes an on-board coordinate as its two-character label.
    pub fn move_to_string(&self) -> (r: String)
        requires
            self.x < 8,
            self.y < 8,
        ensures
            r@ == coord_str(*self),
    {
        proof {
            reveal_strlit("A");
            reveal_strlit("B");
            reveal_strlit("C");
            reveal_strlit("D");
            reveal_strlit("E");
            reveal_strlit("F");
            reveal_strlit("G");
            reveal_strlit("H");
            reveal_strlit("1");
            reveal_strlit("2");
            reveal_strlit("3");
            reveal_strlit("4");
            reveal_strlit("5");
            reveal_strlit("6");
            reveal_strlit("7");
            reveal_strlit("8");
        }
        let file: &str = match self.y {
            0 => "A",
            1 => "B",
            2 => "C",
            3 => "D",
            4 => "E",
            5 => "F",
            6 => "G",
            _ => "H",
        };
        let rank: &str = match self.x {
            0 => "1",
            1 => "2",
            2 => "3",
            3 => "4",
            4 => "5",
            5 => "6",
            6 => "7",
            _ => "8",
        };
        let mut r = String::from_str(file);
        r.append(rank);
        proof {
            assert(r@ =~= coord_str(*self));
        }
        r
    }
}

/// Round trip of the codec: a validly formatted string survives decoding and
/// re-encoding unchanged, and an on-board coordinate survives encoding and
/// decoding unchanged.
pub proof fn lemma_codec_round_trip(s: Seq<char>, m: Move)
    requires
        valid_coord_str(s),
        m.x < 8,
        m.y < 8,
    ensures
        coord_str(parsed_coord(s)) =~= s,
        parsed_coord(coord_str(m)) == m,
{
}

} // verus!
