use vstd::prelude::*;

verus! {

/// The side to move, or the owner of a piece.
#[derive(Debug, Clone, Copy, PartialEq, Eq, Structural)]
pub enum Color2 {
    White,
    Black,
}

impl Color2 {
    pub open spec fn opposite(self) -> Color2 {
        match self {
            Color2::White => Color2::Black,
            Color2::Black => Color2::White,
        }
    }

    /// The other side.
    pub fn other(&self) -> (r: Color2)
        ensures
            r == self.opposite(),
    {
        match self {
            Color2::White => Color2::Black,
            Color2::Black => Color2::White,
        }
    }

    /// The side named by the literal `white` or `black`.
    pub open spec fn parse_spec(s: Seq<char>) -> Option<Color2> {
        if s == seq!['w', 'h', 'i', 't', 'e'] {
            Some(Color2::White)
        } else if s == seq!['b', 'l', 'a', 'c', 'k'] {
            Some(Color2::Black)
        } else {
            None
        }
    }

    /// Reads a side from its literal, `white` or `black`; anything else is refused.
    pub fn from_text(s: &str) -> (r: Option<Color2>)
        ensures
            r == Color2::parse_spec(s@),
    {
        let n = s.unicode_len();
        if n != 5 {
            return None;
        }
        let c0 = s.get_char(0);
        let c1 = s.get_char(1);
        let c2 = s.get_char(2);
        let c3 = s.get_char(3);
        let c4 = s.get_char(4);
        let ghost w = seq!['w', 'h', 'i', 't', 'e'];
        let ghost b = seq!['b', 'l', 'a', 'c', 'k'];
        if c0 == 'w' && c1 == 'h' && c2 == 'i' && c3 == 't' && c4 == 'e' {
            assert(s@ =~= w);
            Some(Color2::White)
        } else if c0 == 'b' && c1 == 'l' && c2 == 'a' && c3 == 'c' && c4 == 'k' {
            assert(s@ =~= b);
            Some(Color2::Black)
        } else {
            assert(s@ != w) by {
                if s@ == w {
                    assert(s@[0] == w[0] && s@[1] == w[1] && s@[2] == w[2] && s@[3] == w[3] && s@[4] == w[4]);
                }
            }
            assert(s@ != b) by {
                if s@ == b {
                    assert(s@[0] == b[0] && s@[1] == b[1] && s@[2] == b[2] && s@[3] == b[3] && s@[4] == b[4]);
                }
            }
            None
        }
    }

    /// The literal that names this side.
    pub fn text(&self) -> (r: String)
        ensures
            Color2::parse_spec(r@) == Some(*self),
    {
        match self {
            Color2::White => {
                let r = "white".to_string();
                proof { reveal_strlit("white"); }
                assert(r@ =~= seq!['w', 'h', 'i', 't', 'e']);
                r
            },
            Color2::Black => {
                let r = "black".to_string();
                proof { reveal_strlit("black"); }
                assert(r@ =~= seq!['b', 'l', 'a', 'c', 'k']);
                r
            },
        }
    }
}

/// The stage of the game, which selects the king and pawn tables.
#[derive(Debug, Clone, Copy, PartialEq, Eq, Structural)]
pub enum GameStage {
    Opening,
    Middlegame,
    Endgame,
}

/// A move as the rules library gives it: squares `a1 = 0 .. h8 = 63`, and the
/// promotion piece (0 for none, then 1 knight, 2 bishop, 3 rook, 4 queen).
#[derive(Debug, Clone, Copy, PartialEq, Eq, Structural)]
pub struct Mv {
    pub from: u8,
    pub to: u8,
    pub promotion: u8,
}

/// What one square holds: 0 when empty, 1 to 6 a white pawn, knight, bishop,
/// rook, queen or king, 7 to 12 a black one in the same order.
pub open spec fn is_piece_code(c: u8) -> bool {
    c <= 12
}

pub open spec fn code_is_white(c: u8) -> bool {
    1 <= c <= 6
}

pub open spec fn code_is_black(c: u8) -> bool {
    7 <= c <= 12
}

/// The kind of piece in a non-empty square: 0 pawn, 1 knight, 2 bishop,
/// 3 rook, 4 queen, 5 king.
pub open spec fn code_kind(c: u8) -> int {
    (c as int - 1) % 6
}

pub open spec fn code_owner_is(c: u8, side: Color2) -> bool {
    match side {
        Color2::White => code_is_white(c),
        Color2::Black => code_is_black(c),
    }
}

/// A placement of pieces on the 64 squares.
pub open spec fn valid_placement(p: Seq<u8>) -> bool {
    p.len() == 64 && forall|i: int| 0 <= i < 64 ==> is_piece_code(#[trigger] p[i])
}

} // verus!
