use vstd::prelude::*;
use crate::tables::{
    bishop_bonus, bishop_table, king_center_bonus, king_center_table, king_safety_bonus,
    king_safety_table, knight_bonus, knight_table, pawn_opening_bonus, pawn_opening_table,
    queen_bonus, queen_table,
};
use crate::types::{code_is_black, code_is_white, code_kind, code_owner_is, is_piece_code, valid_placement, Color2, GameStage};

verus! {

/// Material value of a piece kind: pawn 1, knight 3, bishop 3, rook 5,
/// queen 9, king 0.
pub open spec fn piece_value(kind: int) -> int {
    if kind == 0 {
        1
    } else if kind == 1 || kind == 2 {
        3
    } else if kind == 3 {
        5
    } else if kind == 4 {
        9
    } else {
        0
    }
}

/// Positional bonus of a piece kind on a square. Knights, bishops and queens
/// take their table times their value; kings the safety table, or in the
/// endgame the centralising one; pawns the opening table, and nothing in the
/// endgame; rooks nothing.
pub open spec fn square_bonus(kind: int, sq: int, stage: GameStage) -> int {
    if kind == 1 {
        knight_table()[sq] * 3
    } else if kind == 2 {
        bishop_table()[sq] * 3
    } else if kind == 4 {
        queen_table()[sq] * 9
    } else if kind == 5 {
        if stage == GameStage::Endgame {
            king_center_table()[sq] as int
        } else {
            king_safety_table()[sq] as int
        }
    } else if kind == 0 {
        if stage == GameStage::Endgame {
            0
        } else {
            pawn_opening_table()[sq] as int
        }
    } else {
        0
    }
}

/// The square seen from the owner's side: black pieces read the tables on
/// the square reflected across the middle of the board.
pub open spec fn relative_square(c: u8, sq: int) -> int {
    if code_is_black(c) {
        (7 - sq / 8) * 8 + sq % 8
    } else {
        sq
    }
}

/// What the piece with code `c` on square `sq` adds to its owner's score.
pub open spec fn square_score(c: u8, sq: int, stage: GameStage) -> int {
    piece_value(code_kind(c)) + square_bonus(code_kind(c), relative_square(c, sq), stage)
}

/// The score of `side` over the first `n` squares of a placement.
pub open spec fn side_total(p: Seq<u8>, n: int, side: Color2, stage: GameStage) -> int
    decreases n,
{
    if n <= 0 {
        0
    } else {
        side_total(p, n - 1, side, stage) + if code_owner_is(p[n - 1], side) {
            square_score(p[n - 1], n - 1, stage)
        } else {
            0
        }
    }
}

/// The static score of one side over the whole board.
pub open spec fn side_score(p: Seq<u8>, side: Color2, stage: GameStage) -> int {
    side_total(p, 64, side, stage)
}

proof fn lemma_square_score_bound(c: u8, sq: int, stage: GameStage)
    requires
        is_piece_code(c),
        c != 0,
        0 <= sq < 64,
    ensures
        -1200 <= square_score(c, sq, stage) <= 1200,
{
}

/// Every side's score stays within `1200` per square.
pub proof fn lemma_side_total_bound(p: Seq<u8>, n: int, side: Color2, stage: GameStage)
    requires
        valid_placement(p),
        0 <= n <= 64,
    ensures
        -1200 * n <= side_total(p, n, side, stage) <= 1200 * n,
    decreases n,
{
    if n > 0 {
        lemma_side_total_bound(p, n - 1, side, stage);
        if code_owner_is(p[n - 1], side) {
            lemma_square_score_bound(p[n - 1], n - 1, stage);
        }
    }
}

/// The score that the piece with code `c` on `sq` adds to its owner.
pub fn piece_square_score(c: u8, sq: usize, stage: GameStage) -> (r: i32)
    requires
        is_piece_code(c),
        c != 0,
        sq < 64,
    ensures
        r == square_score(c, sq as int, stage),
{
    let kind: u8 = (c - 1) % 6;
    let sq: usize = if c >= 7 { (7 - sq / 8) * 8 + sq % 8 } else { sq };
    let value: i32 = if kind == 0 {
        1
    } else if kind == 1 || kind == 2 {
        3
    } else if kind == 3 {
        5
    } else if kind == 4 {
        9
    } else {
        0
    };
    let bonus: i32 = if kind == 1 {
        knight_bonus(sq) as i32 * 3
    } else if kind == 2 {
        bishop_bonus(sq) as i32 * 3
    } else if kind == 4 {
        queen_bonus(sq) as i32 * 9
    } else if kind == 5 {
        match stage {
            GameStage::Endgame => king_center_bonus(sq) as i32,
            _ => king_safety_bonus(sq) as i32,
        }
    } else if kind == 0 {
        match stage {
            GameStage::Endgame => 0,
            _ => pawn_opening_bonus(sq) as i32,
        }
    } else {
        0
    };
    value + bonus
}

/// Static evaluation of a placement: the white score and the black score.
pub fn calculate_material(p: &Vec<u8>, stage: GameStage) -> (r: (i32, i32))
    requires
        valid_placement(p@),
    ensures
        r.0 == side_score(p@, Color2::White, stage),
        r.1 == side_score(p@, Color2::Black, stage),
{
    let mut white_pts: i32 = 0;
    let mut black_pts: i32 = 0;
    let mut i: usize = 0;
    while i < 64
        invariant
            valid_placement(p@),
            i <= 64,
            white_pts == side_total(p@, i as int, Color2::White, stage),
            black_pts == side_total(p@, i as int, Color2::Black, stage),
        decreases 64 - i,
    {
        let c = p[i];
        proof {
            lemma_side_total_bound(p@, i as int, Color2::White, stage);
            lemma_side_total_bound(p@, i as int, Color2::Black, stage);
            if c != 0 {
                lemma_square_score_bound(c, i as int, stage);
            }
        }
        if 1 <= c && c <= 6 {
            white_pts = white_pts + piece_square_score(c, i, stage);
        } else if 7 <= c && c <= 12 {
            black_pts = black_pts + piece_square_score(c, i, stage);
        }
        i = i + 1;
    }
    (white_pts, black_pts)
}

/// Evaluation is a function of the placement and the stage: equal inputs
/// give equal pairs.
pub proof fn lemma_evaluation_deterministic(p: Seq<u8>, q: Seq<u8>, stage: GameStage)
    requires
        p == q,
    ensures
        side_score(p, Color2::White, stage) == side_score(q, Color2::White, stage),
        side_score(p, Color2::Black, stage) == side_score(q, Color2::Black, stage),
{
}

/// The square across the middle of the board: same file, rank reversed.
pub open spec fn mirror_square(i: int) -> int {
    (7 - i / 8) * 8 + i % 8
}

/// A piece code with its colour exchanged.
pub open spec fn swap_colour(c: u8) -> u8 {
    if code_is_white(c) {
        (c + 6) as u8
    } else if code_is_black(c) {
        (c - 6) as u8
    } else {
        c
    }
}

/// The placement with every piece's colour exchanged and the board reflected.
pub open spec fn colour_swapped(p: Seq<u8>) -> Seq<u8> {
    Seq::new(64, |i: int| swap_colour(p[mirror_square(i)]))
}

spec fn term(p: Seq<u8>, side: Color2, stage: GameStage, i: int) -> int {
    if code_owner_is(p[i], side) {
        square_score(p[i], i, stage)
    } else {
        0
    }
}

spec fn sum_to(f: spec_fn(int) -> int, n: int) -> int
    decreases n,
{
    if n <= 0 {
        0
    } else {
        sum_to(f, n - 1) + f(n - 1)
    }
}

proof fn lemma_side_total_is_sum(p: Seq<u8>, side: Color2, stage: GameStage, n: int)
    requires
        0 <= n <= 64,
    ensures
        side_total(p, n, side, stage) == sum_to(|i: int| term(p, side, stage, i), n),
    decreases n,
{
    if n > 0 {
        lemma_side_total_is_sum(p, side, stage, n - 1);
    }
}

#[verifier::rlimit(50)]
proof fn lemma_sum_mirror(f: spec_fn(int) -> int)
    ensures
        sum_to(|i: int| f(mirror_square(i)), 64) == sum_to(f, 64),
{
    reveal_with_fuel(sum_to, 65);
}

/// Exchanging the colours of all pieces and reflecting the board exchanges
/// the two scores.
pub proof fn lemma_colour_swap(p: Seq<u8>, stage: GameStage)
    requires
        valid_placement(p),
    ensures
        side_score(colour_swapped(p), Color2::White, stage) == side_score(p, Color2::Black, stage),
        side_score(colour_swapped(p), Color2::Black, stage) == side_score(p, Color2::White, stage),
{
    let q = colour_swapped(p);
    lemma_side_total_is_sum(q, Color2::White, stage, 64);
    lemma_side_total_is_sum(q, Color2::Black, stage, 64);
    lemma_side_total_is_sum(p, Color2::White, stage, 64);
    lemma_side_total_is_sum(p, Color2::Black, stage, 64);
    let fb = |i: int| term(p, Color2::Black, stage, i);
    let fw = |i: int| term(p, Color2::White, stage, i);
    assert forall|i: int| 0 <= i < 64 implies term(q, Color2::White, stage, i) == fb(mirror_square(i))
        && term(q, Color2::Black, stage, i) == fw(mirror_square(i)) by {
        assert(0 <= mirror_square(i) < 64);
        assert(mirror_square(mirror_square(i)) == i);
        assert(is_piece_code(p[mirror_square(i)]));
    }
    lemma_sum_mirror(fb);
    lemma_sum_mirror(fw);
    lemma_sum_ext(|i: int| term(q, Color2::White, stage, i), |i: int| fb(mirror_square(i)), 64);
    lemma_sum_ext(|i: int| term(q, Color2::Black, stage, i), |i: int| fw(mirror_square(i)), 64);
}

proof fn lemma_sum_ext(f: spec_fn(int) -> int, g: spec_fn(int) -> int, n: int)
    requires
        0 <= n <= 64,
        forall|i: int| 0 <= i < n ==> #[trigger] f(i) == g(i),
    ensures
        sum_to(f, n) == sum_to(g, n),
    decreases n,
{
    if n > 0 {
        lemma_sum_ext(f, g, n - 1);
    }
}

} // verus!
