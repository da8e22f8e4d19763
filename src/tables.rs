use vstd::prelude::*;

verus! {

/// Square-indexed bonus table, square `a1` first.
pub open spec fn knight_table() -> Seq<i8> {
    seq![
        -1i8, 1i8, -1i8, -1i8, -1i8, -1i8, 1i8, -1i8,
        -2i8, -1i8, 1i8, -1i8, -1i8, 1i8, -1i8, -2i8,
        -2i8, 0i8, 2i8, 1i8, 1i8, 2i8, 0i8, -2i8,
        -2i8, 1i8, 1i8, 3i8, 3i8, 1i8, 1i8, -2i8,
        -2i8, 1i8, 1i8, 3i8, 3i8, 1i8, 1i8, -2i8,
        -2i8, 0i8, 2i8, 1i8, 1i8, 2i8, 0i8, -2i8,
        -2i8, -1i8, 1i8, -1i8, -1i8, 1i8, -1i8, -2i8,
        -2i8, 1i8, -1i8, -1i8, -1i8, -1i8, 1i8, -2i8,
    ]
}

/// Looks up one entry of the table above.
pub fn knight_bonus(sq: usize) -> (r: i8)
    requires
        sq < 64,
    ensures
        r == knight_table()[sq as int],
{
    let t: [i8; 64] = [
        -1, 1, -1, -1, -1, -1, 1, -1,
        -2, -1, 1, -1, -1, 1, -1, -2,
        -2, 0, 2, 1, 1, 2, 0, -2,
        -2, 1, 1, 3, 3, 1, 1, -2,
        -2, 1, 1, 3, 3, 1, 1, -2,
        -2, 0, 2, 1, 1, 2, 0, -2,
        -2, -1, 1, -1, -1, 1, -1, -2,
        -2, 1, -1, -1, -1, -1, 1, -2,
    ];
    proof {
        assert(t@ =~= knight_table());
    }
    t[sq]
}

/// Square-indexed bonus table, square `a1` first.
pub open spec fn bishop_table() -> Seq<i8> {
    seq![
        -2i8, -1i8, 1i8, -1i8, -1i8, 1i8, -1i8, -2i8,
        -1i8, 2i8, -1i8, 2i8, 2i8, -1i8, 2i8, -1i8,
        1i8, 1i8, 3i8, 2i8, 2i8, 3i8, 1i8, 1i8,
        -1i8, 2i8, 3i8, 4i8, 4i8, 3i8, 2i8, -1i8,
        -1i8, 2i8, 3i8, 4i8, 4i8, 3i8, 2i8, -1i8,
        1i8, 1i8, 3i8, 2i8, 2i8, 3i8, 1i8, 1i8,
        -1i8, 2i8, -1i8, 2i8, 2i8, -1i8, 2i8, -1i8,
        -2i8, -1i8, 1i8, -1i8, -1i8, 1i8, -1i8, -2i8,
    ]
}

/// Looks up one entry of the table above.
pub fn bishop_bonus(sq: usize) -> (r: i8)
    requires
        sq < 64,
    ensures
        r == bishop_table()[sq as int],
{
    let t: [i8; 64] = [
        -2, -1, 1, -1, -1, 1, -1, -2,
        -1, 2, -1, 2, 2, -1, 2, -1,
        1, 1, 3, 2, 2, 3, 1, 1,
        -1, 2, 3, 4, 4, 3, 2, -1,
        -1, 2, 3, 4, 4, 3, 2, -1,
        1, 1, 3, 2, 2, 3, 1, 1,
        -1, 2, -1, 2, 2, -1, 2, -1,
        -2, -1, 1, -1, -1, 1, -1, -2,
    ];
    proof {
        assert(t@ =~= bishop_table());
    }
    t[sq]
}

/// Square-indexed bonus table, square `a1` first.
pub open spec fn queen_table() -> Seq<i8> {
    seq![
        -2i8, -2i8, -2i8, 1i8, 1i8, -2i8, -2i8, -2i8,
        -2i8, 0i8, 1i8, 1i8, 1i8, 1i8, 0i8, -2i8,
        -2i8, 1i8, 2i8, 2i8, 2i8, 2i8, 1i8, -2i8,
        -2i8, 2i8, 2i8, 3i8, 3i8, 2i8, 2i8, -2i8,
        -2i8, 2i8, 2i8, 3i8, 3i8, 2i8, 2i8, -2i8,
        -2i8, 1i8, 2i8, 2i8, 2i8, 2i8, 1i8, -2i8,
        -2i8, 0i8, 1i8, 1i8, 1i8, 1i8, 0i8, -2i8,
        -2i8, -2i8, -2i8, 1i8, 1i8, -2i8, -2i8, -2i8,
    ]
}

/// Looks up one entry of the table above.
pub fn queen_bonus(sq: usize) -> (r: i8)
    requires
        sq < 64,
    ensures
        r == queen_table()[sq as int],
{
    let t: [i8; 64] = [
        -2, -2, -2, 1, 1, -2, -2, -2,
        -2, 0, 1, 1, 1, 1, 0, -2,
        -2, 1, 2, 2, 2, 2, 1, -2,
        -2, 2, 2, 3, 3, 2, 2, -2,
        -2, 2, 2, 3, 3, 2, 2, -2,
        -2, 1, 2, 2, 2, 2, 1, -2,
        -2, 0, 1, 1, 1, 1, 0, -2,
        -2, -2, -2, 1, 1, -2, -2, -2,
    ];
    proof {
        assert(t@ =~= queen_table());
    }
    t[sq]
}

/// Square-indexed bonus table, square `a1` first.
pub open spec fn king_safety_table() -> Seq<i8> {
    seq![
        -1i8, 2i8, 2i8, 1i8, 1i8, 2i8, 2i8, -1i8,
        0i8, 0i8, 0i8, 0i8, 0i8, 0i8, 0i8, 0i8,
        -2i8, -2i8, -2i8, -2i8, -2i8, -2i8, -2i8, -2i8,
        -2i8, -2i8, -2i8, -2i8, -2i8, -2i8, -2i8, -2i8,
        -2i8, -2i8, -2i8, -2i8, -2i8, -2i8, -2i8, -2i8,
        -2i8, -2i8, -2i8, -2i8, -2i8, -2i8, -2i8, -2i8,
        0i8, 0i8, 0i8, 0i8, 0i8, 0i8, 0i8, 0i8,
        -1i8, 2i8, 2i8, 1i8, 1i8, 2i8, 2i8, -1i8,
    ]
}

/// Looks up one entry of the table above.
pub fn king_safety_bonus(sq: usize) -> (r: i8)
    requires
        sq < 64,
    ensures
        r == king_safety_table()[sq as int],
{
    let t: [i8; 64] = [
        -1, 2, 2, 1, 1, 2, 2, -1,
        0, 0, 0, 0, 0, 0, 0, 0,
        -2, -2, -2, -2, -2, -2, -2, -2,
        -2, -2, -2, -2, -2, -2, -2, -2,
        -2, -2, -2, -2, -2, -2, -2, -2,
        -2, -2, -2, -2, -2, -2, -2, -2,
        0, 0, 0, 0, 0, 0, 0, 0,
        -1, 2, 2, 1, 1, 2, 2, -1,
    ];
    proof {
        assert(t@ =~= king_safety_table());
    }
    t[sq]
}

/// Square-indexed bonus table, square `a1` first.
pub open spec fn king_center_table() -> Seq<i8> {
    seq![
        -2i8, -2i8, -2i8, 1i8, 1i8, -2i8, -2i8, -2i8,
        -2i8, 0i8, 0i8, 1i8, 1i8, 0i8, 0i8, -2i8,
        -2i8, 0i8, 1i8, 2i8, 2i8, 1i8, 0i8, -2i8,
        -2i8, 1i8, 2i8, 3i8, 3i8, 2i8, 1i8, -2i8,
        -2i8, 1i8, 2i8, 3i8, 3i8, 2i8, 1i8, -2i8,
        -2i8, 0i8, 1i8, 2i8, 2i8, 1i8, 0i8, -2i8,
        -2i8, 0i8, 0i8, 1i8, 1i8, 0i8, 0i8, -2i8,
        -2i8, -2i8, -2i8, 1i8, 1i8, -2i8, -2i8, -2i8,
    ]
}

/// Looks up one entry of the table above.
pub fn king_center_bonus(sq: usize) -> (r: i8)
    requires
        sq < 64,
    ensures
        r == king_center_table()[sq as int],
{
    let t: [i8; 64] = [
        -2, -2, -2, 1, 1, -2, -2, -2,
        -2, 0, 0, 1, 1, 0, 0, -2,
        -2, 0, 1, 2, 2, 1, 0, -2,
        -2, 1, 2, 3, 3, 2, 1, -2,
        -2, 1, 2, 3, 3, 2, 1, -2,
        -2, 0, 1, 2, 2, 1, 0, -2,
        -2, 0, 0, 1, 1, 0, 0, -2,
        -2, -2, -2, 1, 1, -2, -2, -2,
    ];
    proof {
        assert(t@ =~= king_center_table());
    }
    t[sq]
}

/// Square-indexed bonus table, square `a1` first.
pub open spec fn pawn_opening_table() -> Seq<i8> {
    seq![
        2i8, 2i8, 2i8, 2i8, 2i8, 2i8, 2i8, 2i8,
        1i8, 1i8, 1i8, 1i8, 1i8, 1i8, 1i8, 1i8,
        0i8, 0i8, 1i8, 2i8, 2i8, 1i8, 0i8, 0i8,
        0i8, 0i8, 2i8, 3i8, 3i8, 2i8, 0i8, 0i8,
        0i8, 0i8, 2i8, 3i8, 3i8, 2i8, 0i8, 0i8,
        0i8, 0i8, 1i8, 2i8, 2i8, 1i8, 0i8, 0i8,
        1i8, 1i8, 1i8, 1i8, 1i8, 1i8, 1i8, 1i8,
        2i8, 2i8, 2i8, 2i8, 2i8, 2i8, 2i8, 2i8,
    ]
}

/// Looks up one entry of the table above.
pub fn pawn_opening_bonus(sq: usize) -> (r: i8)
    requires
        sq < 64,
    ensures
        r == pawn_opening_table()[sq as int],
{
    let t: [i8; 64] = [
        2, 2, 2, 2, 2, 2, 2, 2,
        1, 1, 1, 1, 1, 1, 1, 1,
        0, 0, 1, 2, 2, 1, 0, 0,
        0, 0, 2, 3, 3, 2, 0, 0,
        0, 0, 2, 3, 3, 2, 0, 0,
        0, 0, 1, 2, 2, 1, 0, 0,
        1, 1, 1, 1, 1, 1, 1, 1,
        2, 2, 2, 2, 2, 2, 2, 2,
    ];
    proof {
        assert(t@ =~= pawn_opening_table());
    }
    t[sq]
}

} // verus!
