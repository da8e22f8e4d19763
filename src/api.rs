use vstd::prelude::*;
use crate::eval::{calculate_material, side_score};
use crate::oracle::{mv_in_range, fen_after, fen_is_valid, fen_placement, fen_moves, legal_moves, move_text, parse_move, placement, play, uci_parse, uci_text};
use crate::ordering::{ordered_moves, side_moves};
use crate::search::{child_value, negamax, scores_in_range, AlphaBeta};
use crate::tt::transposition_table;
use crate::types::{Color2, GameStage, Mv};
use crate::zobrist::Zobrist;

verus! {

/// Errors reported at the engine's boundary.
#[derive(Debug, Clone, Copy, PartialEq, Eq, Structural)]
pub enum EngineError {
    /// The FEN text is not a valid position.
    BadFen,
    /// The move text does not parse.
    MalformedMove,
    /// The move parses but is not legal in the position.
    IllegalMove,
    /// The side is neither `white` nor `black`.
    InvalidSide,
}

/// The sentinel returned when there is nothing to play.
pub open spec fn end_text() -> Seq<char> {
    seq!['E', 'N', 'D']
}

/// Thinking time in milliseconds: none when the game is over, 200 when the
/// clock is under ten seconds, 750 when `side` is behind on the evaluation
/// or in the endgame, else 500.
pub open spec fn time_budget(eval: (i32, i32), time: i32, game_on: bool, side: Color2, stage: GameStage) -> i32 {
    if !game_on {
        0
    } else if time < 10000 {
        200
    } else if (side == Color2::White && eval.0 < eval.1) || (side == Color2::Black && eval.1 < eval.0) {
        750
    } else if stage == GameStage::Endgame {
        750
    } else {
        500
    }
}

/// Soft deadline for a search, in milliseconds.
pub fn determine_time(eval: (i32, i32), time: i32, game_on: bool, mycolor: Color2, stage: GameStage) -> (r: i32)
    ensures
        r == time_budget(eval, time, game_on, mycolor, stage),
{
    if !game_on {
        return 0;
    }
    if time < 10000 {
        return 200;
    }
    let (white_pts, black_pts) = eval;
    match mycolor {
        Color2::White => {
            if white_pts < black_pts {
                return 750;
            }
        },
        Color2::Black => {
            if black_pts < white_pts {
                return 750;
            }
        },
    }
    match stage {
        GameStage::Endgame => 750,
        _ => 500,
    }
}

/// The static evaluation of a FEN text, white score then black score; none
/// when the text does not parse.
pub fn evaluate(fen: &str, stage: GameStage) -> (r: Option<(i32, i32)>)
    ensures
        !fen_is_valid(fen@) <==> r is None,
        r matches Some(e) ==> e.0 == side_score(fen_placement(fen@), Color2::White, stage)
            && e.1 == side_score(fen_placement(fen@), Color2::Black, stage),
{
    let p = placement(fen);
    if p.len() == 64 {
        Some(calculate_material(&p, stage))
    } else {
        None
    }
}

pub open spec fn is_king_code(c: u8) -> bool {
    c == 6 || c == 12
}

/// The rook that stands beside a king of code `king` in castling.
pub open spec fn own_rook_code(king: u8) -> u8 {
    if king == 6 {
        4
    } else {
        10
    }
}

/// Reads standard castling text, the king moving two files from the e-file
/// (`e1g1`), as the
/// rules library's king-takes-rook move (`e1h1`); other moves are unchanged.
pub open spec fn from_standard(p: Seq<u8>, m: Mv) -> Mv {
    if p.len() == 64 && m.from < 64 && m.to < 64 && is_king_code(p[m.from as int]) && m.from % 8 == 4 && m.from / 8 == m.to / 8 {
        if m.to == m.from + 2 {
            Mv { from: m.from, to: ((m.from / 8) * 8 + 7) as u8, promotion: m.promotion }
        } else if m.to + 2 == m.from {
            Mv { from: m.from, to: ((m.from / 8) * 8) as u8, promotion: m.promotion }
        } else {
            m
        }
    } else {
        m
    }
}

/// Writes the rules library's castling move, the king taking its own rook,
/// as the king moving two files; other moves are unchanged.
pub open spec fn to_standard(p: Seq<u8>, m: Mv) -> Mv {
    if p.len() == 64 && m.from < 64 && m.to < 64 && is_king_code(p[m.from as int]) && m.from % 8 == 4 && m.from / 8 == m.to / 8
        && p[m.to as int] == own_rook_code(p[m.from as int]) {
        if m.to > m.from {
            Mv { from: m.from, to: (m.from + 2) as u8, promotion: m.promotion }
        } else {
            Mv { from: m.from, to: (m.from - 2) as u8, promotion: m.promotion }
        }
    } else {
        m
    }
}

/// The rules library's move for a move read from standard text.
pub fn castling_from_standard(p: &Vec<u8>, m: Mv) -> (r: Mv)
    requires
        mv_in_range(m),
    ensures
        r == from_standard(p@, m),
        mv_in_range(r),
{
    if p.len() == 64 && (p[m.from as usize] == 6 || p[m.from as usize] == 12) && m.from % 8 == 4 && m.from / 8 == m.to / 8 {
        if m.to as u16 == m.from as u16 + 2 {
            Mv { from: m.from, to: (m.from / 8) * 8 + 7, promotion: m.promotion }
        } else if m.to as u16 + 2 == m.from as u16 {
            Mv { from: m.from, to: (m.from / 8) * 8, promotion: m.promotion }
        } else {
            m
        }
    } else {
        m
    }
}

/// The standard text form of a move of the rules library.
pub fn castling_to_standard(p: &Vec<u8>, m: Mv) -> (r: Mv)
    requires
        mv_in_range(m),
    ensures
        r == to_standard(p@, m),
        mv_in_range(r),
{
    if p.len() == 64 && (p[m.from as usize] == 6 || p[m.from as usize] == 12) && m.from % 8 == 4 && m.from / 8 == m.to / 8 {
        let king = p[m.from as usize];
        let rook: u8 = if king == 6 { 4 } else { 10 };
        if p[m.to as usize] == rook {
            if m.to > m.from {
                return Mv { from: m.from, to: m.from + 2, promotion: m.promotion };
            } else {
                return Mv { from: m.from, to: m.from - 2, promotion: m.promotion };
            }
        }
    }
    m
}

/// What applying a move text to a FEN text gives.
pub open spec fn update_spec(fen: Seq<char>, mv: Seq<char>) -> Result<Seq<char>, EngineError> {
    if !fen_is_valid(fen) {
        Err(EngineError::BadFen)
    } else {
        match uci_parse(mv) {
            None => Err(EngineError::MalformedMove),
            Some(m0) => {
                let m = from_standard(fen_placement(fen), m0);
                if fen_moves(fen).contains(m) {
                Ok(fen_after(fen, m))
            } else {
                Err(EngineError::IllegalMove)
            }
            },
        }
    }
}

pub open spec fn result_view(r: Result<String, EngineError>) -> Result<Seq<char>, EngineError> {
    match r {
        Ok(s) => Ok(s@),
        Err(e) => Err(e),
    }
}

/// Plays `opp_move` in `fen` and returns the FEN text of the new position:
/// `BadFen` when the position does not parse, `MalformedMove` when the move
/// does not, `IllegalMove` when it is not legal.
pub fn update_position(fen: &str, opp_move: &str) -> (r: Result<String, EngineError>)
    ensures
        result_view(r) == update_spec(fen@, opp_move@),
{
    let p = placement(fen);
    if p.len() != 64 {
        return Err(EngineError::BadFen);
    }
    let m = match parse_move(opp_move) {
        Some(m0) => castling_from_standard(&p, m0),
        None => {
            return Err(EngineError::MalformedMove);
        },
    };
    let ms = legal_moves(fen);
    let mut found = false;
    let mut i: usize = 0;
    while i < ms.len()
        invariant
            ms@ == fen_moves(fen@),
            i <= ms@.len(),
            found == ms@.subrange(0, i as int).contains(m),
        decreases ms.len() - i,
    {
        proof {
            let pre = ms@.subrange(0, i as int);
            let cur = ms@.subrange(0, i + 1);
            assert(cur =~= pre.push(ms@[i as int]));
            if cur.contains(m) {
                let k = choose|k: int| 0 <= k < cur.len() && cur[k] == m;
                if k < i {
                    assert(pre[k] == m);
                }
            }
            if pre.contains(m) {
                let k = choose|k: int| 0 <= k < pre.len() && pre[k] == m;
                assert(cur[k] == m);
            }
            assert(cur[i as int] == ms@[i as int]);
        }
        if ms[i] == m {
            found = true;
        }
        i = i + 1;
    }
    proof {
        assert(ms@.subrange(0, ms@.len() as int) =~= ms@);
    }
    if !found {
        return Err(EngineError::IllegalMove);
    }
    Ok(play(fen, m))
}

/// A successful update is the move of the text applied to the position of
/// the FEN text, and that move is legal there.
pub proof fn lemma_update_applies_move(fen: Seq<char>, mv: Seq<char>, s: Seq<char>)
    requires
        update_spec(fen, mv) == Ok::<Seq<char>, EngineError>(s),
    ensures
        fen_is_valid(fen),
        uci_parse(mv) is Some,
        fen_moves(fen).contains(from_standard(fen_placement(fen), uci_parse(mv)->0)),
        s == fen_after(fen, from_standard(fen_placement(fen), uci_parse(mv)->0)),
{
}

/// Searches `fen` for `side` (the literal `white` or `black`) within a
/// budget set by the clock `my_time` in milliseconds, and returns the chosen
/// move in long algebraic text, or `END` when the game is over, the clock is
/// spent or there is no legal move. The move is the first ordered legal move
/// when no depth finished in time, and otherwise one that reaches the negamax
/// value of the deepest depth that finished.
pub fn find_best_move(fen: &str, my_time: i32, game_on: bool, side: &str, stage: GameStage) -> (r: Result<String, EngineError>)
    ensures
        Color2::parse_spec(side@) is None ==> r == Err::<String, EngineError>(EngineError::InvalidSide),
        Color2::parse_spec(side@) is Some && !fen_is_valid(fen@) ==> r == Err::<String, EngineError>(EngineError::BadFen),
        Color2::parse_spec(side@) is Some && fen_is_valid(fen@) ==> r is Ok,
        r matches Ok(s) ==> (!game_on || my_time <= 0 ==> s@ == end_text()),
        r matches Ok(s) ==> (side_moves(fen@, Color2::parse_spec(side@)->0).len() == 0 ==> s@ == end_text()),
        r matches Ok(s) ==> (game_on && my_time > 0 && side_moves(fen@, Color2::parse_spec(side@)->0).len() > 0
            ==> exists|m: Mv| side_moves(fen@, Color2::parse_spec(side@)->0).contains(m)
                && s@ == uci_text(to_standard(fen_placement(fen@), m))
                && (m == ordered_moves(fen@, Color2::parse_spec(side@)->0, None)[0]
                    || exists|d: int| 1 <= d <= 64 && child_value(fen@, m, (d - 1) as nat, Color2::parse_spec(side@)->0, stage)
                        == #[trigger] negamax(fen@, d as nat, Color2::parse_spec(side@)->0, stage))),
{
    let color = match Color2::from_text(side) {
        Some(c) => c,
        None => {
            return Err(EngineError::InvalidSide);
        },
    };
    let p = placement(fen);
    if p.len() != 64 {
        return Err(EngineError::BadFen);
    }
    if !game_on || my_time <= 0 {
        let s = "END".to_string();
        proof {
            reveal_strlit("END");
            assert(s@ =~= end_text());
        }
        return Ok(s);
    }
    let eval = calculate_material(&p, stage);
    let time_limit = determine_time(eval, my_time, game_on, color, stage);
    let mut tt = transposition_table::new();
    let zob = Zobrist::new();
    proof {
        assert(scores_in_range(&tt));
    }
    let (found, depth) = AlphaBeta::start_alpha_beta_search(fen, time_limit, game_on, color, stage, false, &mut tt, &zob);
    match found {
        Some(m) => {
            proof {
                if depth >= 1 {
                    assert(child_value(fen@, m, (depth - 1) as nat, color, stage) == negamax(fen@, depth as nat, color, stage));
                }
            }
            Ok(move_text(castling_to_standard(&p, m)))
        },
        None => {
            let s = "END".to_string();
            proof {
                reveal_strlit("END");
                assert(s@ =~= end_text());
            }
            Ok(s)
        },
    }
}

} // verus!
