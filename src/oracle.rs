//! The rules library, the clock and the random source, behind trusted items.
//! Positions travel as FEN text; every name below is a function of its
//! arguments alone.
use vstd::prelude::*;
use crate::types::{is_piece_code, Mv};
use std::str::FromStr;
use std::time::Instant;

verus! {

#[verifier::external_type_specification]
#[verifier::external_body]
pub struct ExInstant(Instant);

/// Whether the rules library accepts a FEN text.
pub uninterp spec fn fen_is_valid(fen: Seq<char>) -> bool;

/// What squares `a1 .. h8` of a FEN text hold.
pub uninterp spec fn fen_squares(fen: Seq<char>) -> Seq<Option<(u8, bool)>>;

/// The legal moves of a FEN text, in the generator's order.
pub uninterp spec fn fen_moves(fen: Seq<char>) -> Seq<Mv>;

/// The FEN text after a move is played.
pub uninterp spec fn fen_after(fen: Seq<char>, m: Mv) -> Seq<char>;

/// Whether the side to move of a FEN text is in check.
pub uninterp spec fn fen_in_check(fen: Seq<char>) -> bool;

/// The move that a long algebraic text reads as.
pub uninterp spec fn uci_parse(s: Seq<char>) -> Option<Mv>;

/// The long algebraic text of a move.
pub uninterp spec fn uci_text(m: Mv) -> Seq<char>;

pub open spec fn mv_in_range(m: Mv) -> bool {
    m.from < 64 && m.to < 64 && m.promotion <= 4
}

/// What one square holds: nothing, or a piece kind (0 pawn, 1 knight,
/// 2 bishop, 3 rook, 4 queen, 5 king) and whether it is white.
pub open spec fn square_code(s: Option<(u8, bool)>) -> u8 {
    match s {
        None => 0,
        Some((kind, white)) => if white {
            (kind + 1) as u8
        } else {
            (kind + 7) as u8
        },
    }
}

/// The piece codes of squares `a1 .. h8` of a FEN text.
pub open spec fn fen_placement(fen: Seq<char>) -> Seq<u8> {
    fen_squares(fen).map_values(|s: Option<(u8, bool)>| square_code(s))
}

/// Relies on cozy_chess::Board::from_fen and Board::piece_on, color_on: what
/// each square holds, empty exactly when the text does not parse.
#[verifier::external_body]
fn square_contents(fen: &str) -> (r: Vec<Option<(u8, bool)>>)
    ensures
        r@ == fen_squares(fen@),
        r@.len() == 0 || r@.len() == 64,
        r@.len() == 64 <==> fen_is_valid(fen@),
        forall|i: int| 0 <= i < r@.len() ==> (#[trigger] r@[i] matches Some(k) ==> k.0 < 6),
{
    match cozy_chess::Board::from_fen(fen, false) {
        Ok(b) => cozy_chess::Square::ALL.iter().map(|&sq| match (b.piece_on(sq), b.color_on(sq)) {
            (Some(p), Some(c)) => Some((p as u8, c == cozy_chess::Color::White)),
            _ => None,
        }).collect(),
        Err(_) => Vec::new(),
    }
}

/// The piece codes of a FEN text, empty exactly when it does not parse.
pub(crate) fn placement(fen: &str) -> (r: Vec<u8>)
    ensures
        r@ == fen_placement(fen@),
        r@.len() == 0 || r@.len() == 64,
        r@.len() == 64 <==> fen_is_valid(fen@),
        forall|i: int| 0 <= i < r@.len() ==> is_piece_code(#[trigger] r@[i]),
{
    let sq = square_contents(fen);
    let mut out: Vec<u8> = Vec::new();
    let mut i: usize = 0;
    while i < sq.len()
        invariant
            sq@ == fen_squares(fen@),
            forall|j: int| 0 <= j < sq@.len() ==> (#[trigger] sq@[j] matches Some(k) ==> k.0 < 6),
            i <= sq@.len(),
            out@.len() == i,
            forall|j: int| 0 <= j < i ==> out@[j] == square_code(#[trigger] sq@[j]),
            forall|j: int| 0 <= j < i ==> is_piece_code(#[trigger] out@[j]),
        decreases sq.len() - i,
    {
        let c: u8 = match sq[i] {
            None => 0,
            Some((kind, white)) => if white {
                kind + 1
            } else {
                kind + 7
            },
        };
        out.push(c);
        i = i + 1;
    }
    assert(out@ =~= fen_placement(fen@));
    out
}

/// Relies on cozy_chess::Board::generate_moves: the legal moves, none when
/// the text does not parse.
#[verifier::external_body]
pub(crate) fn legal_moves(fen: &str) -> (r: Vec<Mv>)
    ensures
        r@ == fen_moves(fen@),
        forall|i: int| 0 <= i < r@.len() ==> mv_in_range(#[trigger] r@[i]),
{
    let mut out = Vec::new();
    if let Ok(b) = cozy_chess::Board::from_fen(fen, false) {
        b.generate_moves(|ms| {
            out.extend(ms.into_iter().map(|m| Mv {
                from: m.from as u8,
                to: m.to as u8,
                promotion: m.promotion.map_or(0, |p| p as u8),
            }));
            false
        });
    }
    out
}

/// Relies on cozy_chess::Board::try_play and Board's FEN text: the position
/// after the move, empty when the text does not parse or the move is illegal.
#[verifier::external_body]
pub(crate) fn play(fen: &str, m: Mv) -> (r: String)
    requires
        mv_in_range(m),
    ensures
        r@ == fen_after(fen@, m),
{
    let mv = cozy_chess::Move {
        from: cozy_chess::Square::index(m.from as usize),
        to: cozy_chess::Square::index(m.to as usize),
        promotion: if m.promotion == 0 { None } else { Some(cozy_chess::Piece::index(m.promotion as usize)) },
    };
    match cozy_chess::Board::from_fen(fen, false) {
        Ok(mut b) => match b.try_play(mv) {
            Ok(()) => b.to_string(),
            Err(_) => String::new(),
        },
        Err(_) => String::new(),
    }
}

/// Relies on cozy_chess::Board::checkers: whether the side to move is in
/// check, false when the text does not parse.
#[verifier::external_body]
pub(crate) fn in_check(fen: &str) -> (r: bool)
    ensures
        r == fen_in_check(fen@),
{
    match cozy_chess::Board::from_fen(fen, false) {
        Ok(b) => !b.checkers().is_empty(),
        Err(_) => false,
    }
}

/// Relies on cozy_chess::Move's FromStr: the move that a text reads as.
#[verifier::external_body]
pub(crate) fn parse_move(s: &str) -> (r: Option<Mv>)
    ensures
        r == uci_parse(s@),
        r matches Some(m) ==> mv_in_range(m),
{
    match cozy_chess::Move::from_str(s) {
        Ok(m) => Some(Mv {
            from: m.from as u8,
            to: m.to as u8,
            promotion: m.promotion.map_or(0, |p| p as u8),
        }),
        Err(_) => None,
    }
}

/// Relies on cozy_chess::Move's Display: the long algebraic text of a move.
#[verifier::external_body]
pub(crate) fn move_text(m: Mv) -> (r: String)
    requires
        mv_in_range(m),
    ensures
        r@ == uci_text(m),
{
    let promotion = if m.promotion == 0 { None } else { Some(cozy_chess::Piece::index(m.promotion as usize)) };
    cozy_chess::Move {
        from: cozy_chess::Square::index(m.from as usize),
        to: cozy_chess::Square::index(m.to as usize),
        promotion,
    }.to_string()
}

/// Relies on std::time::Instant::now: the current instant.
#[verifier::external_body]
pub(crate) fn now() -> (r: Instant)
{
    Instant::now()
}

/// Relies on std::time::Instant::elapsed: milliseconds since `start`, whatever
/// the clock says.
#[verifier::external_body]
pub(crate) fn elapsed_ms(start: &Instant) -> (r: u64)
{
    start.elapsed().as_millis() as u64
}

/// Relies on rand::random: a random 64-bit key.
#[verifier::external_body]
pub(crate) fn random_key() -> (r: u64)
{
    rand::random::<u64>()
}

} // verus!
