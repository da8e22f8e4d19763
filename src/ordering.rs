use vstd::prelude::*;
use crate::oracle::{fen_after, fen_in_check, fen_moves, fen_placement, in_check, legal_moves, mv_in_range, placement, play};
use crate::types::{code_owner_is, Color2, Mv};

verus! {

/// The piece on the origin square of `m` belongs to `side`.
pub open spec fn owns_from(p: Seq<u8>, m: Mv, side: Color2) -> bool {
    p.len() == 64 && m.from < 64 && code_owner_is(p[m.from as int], side)
}

/// The destination square of `m` holds a piece of the other side.
pub open spec fn is_capture(p: Seq<u8>, m: Mv, side: Color2) -> bool {
    p.len() == 64 && m.to < 64 && code_owner_is(p[m.to as int], side.opposite())
}

/// After `m` the side to move, the opponent, is in check.
pub open spec fn gives_check(fen: Seq<char>, m: Mv) -> bool {
    fen_in_check(fen_after(fen, m))
}

/// Class of a move: 1 gives check, 2 captures, 3 quiet.
pub open spec fn class_of(fen: Seq<char>, p: Seq<u8>, side: Color2, m: Mv) -> int {
    if gives_check(fen, m) {
        1
    } else if is_capture(p, m, side) {
        2
    } else {
        3
    }
}

/// The moves of `ms` that `side` makes, in their order.
pub open spec fn owned_moves(p: Seq<u8>, side: Color2, ms: Seq<Mv>) -> Seq<Mv>
    decreases ms.len(),
{
    if ms.len() == 0 {
        Seq::empty()
    } else {
        let rest = owned_moves(p, side, ms.drop_last());
        if owns_from(p, ms.last(), side) {
            rest.push(ms.last())
        } else {
            rest
        }
    }
}

/// The moves of `ms` that `side` makes, other than the hash move, of class `k`,
/// in their order.
pub open spec fn pick(fen: Seq<char>, p: Seq<u8>, side: Color2, hm: Option<Mv>, ms: Seq<Mv>, k: int) -> Seq<Mv>
    decreases ms.len(),
{
    if ms.len() == 0 {
        Seq::empty()
    } else {
        let m = ms.last();
        let rest = pick(fen, p, side, hm, ms.drop_last(), k);
        if owns_from(p, m, side) && hm != Some(m) && class_of(fen, p, side, m) == k {
            rest.push(m)
        } else {
            rest
        }
    }
}

/// The hash move alone, when it is one of the moves that `side` makes.
pub open spec fn hash_first(p: Seq<u8>, side: Color2, hm: Option<Mv>, ms: Seq<Mv>) -> Seq<Mv> {
    match hm {
        Some(h) => if ms.contains(h) && owns_from(p, h, side) {
            seq![h]
        } else {
            Seq::empty()
        },
        None => Seq::empty(),
    }
}

/// The legal moves of `side` in the order to search them: the hash move,
/// then checks, then captures, then quiet moves.
pub open spec fn ordered_moves(fen: Seq<char>, side: Color2, hm: Option<Mv>) -> Seq<Mv> {
    let ms = fen_moves(fen);
    let p = fen_placement(fen);
    hash_first(p, side, hm, ms) + pick(fen, p, side, hm, ms, 1) + pick(fen, p, side, hm, ms, 2)
        + pick(fen, p, side, hm, ms, 3)
}

/// The moves of `side` among the legal moves of `fen`.
pub open spec fn side_moves(fen: Seq<char>, side: Color2) -> Seq<Mv> {
    owned_moves(fen_placement(fen), side, fen_moves(fen))
}

/// A move is in a class list exactly when it is a move of `side`, not the
/// hash move, and of that class.
pub proof fn lemma_pick_contains(fen: Seq<char>, p: Seq<u8>, side: Color2, hm: Option<Mv>, ms: Seq<Mv>, k: int, m: Mv)
    ensures
        pick(fen, p, side, hm, ms, k).contains(m) <==> (ms.contains(m) && owns_from(p, m, side)
            && hm != Some(m) && class_of(fen, p, side, m) == k),
    decreases ms.len(),
{
    if ms.len() > 0 {
        lemma_pick_contains(fen, p, side, hm, ms.drop_last(), k, m);
        assert(ms =~= ms.drop_last().push(ms.last()));
        let rest = pick(fen, p, side, hm, ms.drop_last(), k);
        if rest.push(ms.last()).contains(m) {
            let i = choose|i: int| 0 <= i < rest.push(ms.last()).len() && rest.push(ms.last())[i] == m;
            if i < rest.len() {
                assert(rest.contains(m));
            }
        }
        if rest.contains(m) {
            let i = choose|i: int| 0 <= i < rest.len() && rest[i] == m;
            assert(rest.push(ms.last())[i] == m);
        }
        assert(rest.push(ms.last())[rest.len() as int] == ms.last());
        if ms.contains(m) {
            let i = choose|i: int| 0 <= i < ms.len() && ms[i] == m;
            if i < ms.len() - 1 {
                assert(ms.drop_last()[i] == m);
            }
        }
        if ms.drop_last().contains(m) {
            let i = choose|i: int| 0 <= i < ms.drop_last().len() && ms.drop_last()[i] == m;
            assert(ms[i] == m);
        }
    }
}

/// A move is among the moves of `side` exactly when it is in `ms` and its
/// origin holds a piece of `side`.
pub proof fn lemma_owned_contains(p: Seq<u8>, side: Color2, ms: Seq<Mv>, m: Mv)
    ensures
        owned_moves(p, side, ms).contains(m) <==> (ms.contains(m) && owns_from(p, m, side)),
    decreases ms.len(),
{
    if ms.len() > 0 {
        lemma_owned_contains(p, side, ms.drop_last(), m);
        let rest = owned_moves(p, side, ms.drop_last());
        if rest.push(ms.last()).contains(m) {
            let i = choose|i: int| 0 <= i < rest.push(ms.last()).len() && rest.push(ms.last())[i] == m;
            if i < rest.len() {
                assert(rest.contains(m));
            }
        }
        if rest.contains(m) {
            let i = choose|i: int| 0 <= i < rest.len() && rest[i] == m;
            assert(rest.push(ms.last())[i] == m);
        }
        assert(rest.push(ms.last())[rest.len() as int] == ms.last());
        if ms.contains(m) {
            let i = choose|i: int| 0 <= i < ms.len() && ms[i] == m;
            if i < ms.len() - 1 {
                assert(ms.drop_last()[i] == m);
            }
        }
        if ms.drop_last().contains(m) {
            let i = choose|i: int| 0 <= i < ms.drop_last().len() && ms.drop_last()[i] == m;
            assert(ms[i] == m);
        }
    }
}

proof fn lemma_concat_contains(a: Seq<Mv>, b: Seq<Mv>, m: Mv)
    ensures
        (a + b).contains(m) <==> (a.contains(m) || b.contains(m)),
{
    if (a + b).contains(m) {
        let i = choose|i: int| 0 <= i < (a + b).len() && (a + b)[i] == m;
        if i < a.len() {
            assert(a[i] == m);
        } else {
            assert(b[i - a.len()] == m);
        }
    }
    if a.contains(m) {
        let i = choose|i: int| 0 <= i < a.len() && a[i] == m;
        assert((a + b)[i] == m);
    }
    if b.contains(m) {
        let i = choose|i: int| 0 <= i < b.len() && b[i] == m;
        assert((a + b)[a.len() + i] == m);
    }
}

/// The ordering neither adds nor loses a move: it holds exactly the moves of
/// `side` among the legal moves.
pub proof fn lemma_ordered_same_moves(fen: Seq<char>, side: Color2, hm: Option<Mv>, m: Mv)
    ensures
        ordered_moves(fen, side, hm).contains(m) <==> side_moves(fen, side).contains(m),
{
    let ms = fen_moves(fen);
    let p = fen_placement(fen);
    let h = hash_first(p, side, hm, ms);
    let a = pick(fen, p, side, hm, ms, 1);
    let b = pick(fen, p, side, hm, ms, 2);
    let c = pick(fen, p, side, hm, ms, 3);
    lemma_concat_contains(h, a, m);
    lemma_concat_contains(h + a, b, m);
    lemma_concat_contains(h + a + b, c, m);
    lemma_pick_contains(fen, p, side, hm, ms, 1, m);
    lemma_pick_contains(fen, p, side, hm, ms, 2, m);
    lemma_pick_contains(fen, p, side, hm, ms, 3, m);
    lemma_owned_contains(p, side, ms, m);
    if h.contains(m) {
        let i = choose|i: int| 0 <= i < h.len() && h[i] == m;
    }
    if hm == Some(m) && ms.contains(m) && owns_from(p, m, side) {
        assert(h[0] == m);
    }
}

/// Orders the legal moves of `color` in `fen`: the hash move `previous_best`
/// when it is one of them, then the moves that give check, then captures,
/// then the rest, each group in the generator's order.
pub fn categorize_moves(fen: &str, previous_best: Option<Mv>, color: Color2) -> (r: Vec<Mv>)
    ensures
        r@ == ordered_moves(fen@, color, previous_best),
        forall|i: int| 0 <= i < r@.len() ==> mv_in_range(#[trigger] r@[i]),
{
    let ms = legal_moves(fen);
    let p = placement(fen);
    let ghost f = fen@;
    let mut hash_found = false;
    let mut checks: Vec<Mv> = Vec::new();
    let mut captures: Vec<Mv> = Vec::new();
    let mut normal: Vec<Mv> = Vec::new();
    let mut i: usize = 0;
    while i < ms.len()
        invariant
            ms@ == fen_moves(f),
            p@ == fen_placement(f),
            f == fen@,
            p@.len() == 0 || p@.len() == 64,
            forall|j: int| 0 <= j < ms@.len() ==> mv_in_range(#[trigger] ms@[j]),
            i <= ms@.len(),
            hash_found == (hash_first(p@, color, previous_best, ms@.subrange(0, i as int)).len() == 1),
            checks@ == pick(f, p@, color, previous_best, ms@.subrange(0, i as int), 1),
            captures@ == pick(f, p@, color, previous_best, ms@.subrange(0, i as int), 2),
            normal@ == pick(f, p@, color, previous_best, ms@.subrange(0, i as int), 3),
            forall|j: int| 0 <= j < checks@.len() ==> mv_in_range(#[trigger] checks@[j]),
            forall|j: int| 0 <= j < captures@.len() ==> mv_in_range(#[trigger] captures@[j]),
            forall|j: int| 0 <= j < normal@.len() ==> mv_in_range(#[trigger] normal@[j]),
        decreases ms.len() - i,
    {
        let m = ms[i];
        let ghost pre = ms@.subrange(0, i as int);
        let ghost cur = ms@.subrange(0, i + 1);
        proof {
            assert(cur.drop_last() =~= pre);
            assert(cur.last() == m);
            lemma_push_contains(pre, m);
            assert(cur =~= pre.push(m));
        }
        let owned = p.len() == 64 && match color {
            Color2::White => 1 <= p[m.from as usize] && p[m.from as usize] <= 6,
            Color2::Black => 7 <= p[m.from as usize] && p[m.from as usize] <= 12,
        };
        let is_hash = match previous_best {
            Some(h) => h == m,
            None => false,
        };
        if owned && is_hash {
            hash_found = true;
        }
        if owned && !is_hash {
            let child = play(fen, m);
            let chk = in_check(&child);
            let cap = p.len() == 64 && match color {
                Color2::White => 7 <= p[m.to as usize] && p[m.to as usize] <= 12,
                Color2::Black => 1 <= p[m.to as usize] && p[m.to as usize] <= 6,
            };
            if chk {
                checks.push(m);
            } else if cap {
                captures.push(m);
            } else {
                normal.push(m);
            }
        }
        i = i + 1;
    }
    proof {
        assert(ms@.subrange(0, ms@.len() as int) =~= ms@);
    }
    let mut out: Vec<Mv> = Vec::new();
    if hash_found {
        match previous_best {
            Some(h) => {
                out.push(h);
            },
            None => {},
        }
    }
    proof {
        assert(out@ =~= hash_first(p@, color, previous_best, ms@));
    }
    out.append(&mut checks);
    out.append(&mut captures);
    out.append(&mut normal);
    out
}

proof fn lemma_push_contains(s: Seq<Mv>, x: Mv)
    ensures
        forall|y: Mv| s.push(x).contains(y) <==> (s.contains(y) || y == x),
{
    assert forall|y: Mv| s.push(x).contains(y) <==> (s.contains(y) || y == x) by {
        if s.push(x).contains(y) {
            let i = choose|i: int| 0 <= i < s.push(x).len() && s.push(x)[i] == y;
            if i < s.len() {
                assert(s[i] == y);
            }
        }
        if s.contains(y) {
            let i = choose|i: int| 0 <= i < s.len() && s[i] == y;
            assert(s.push(x)[i] == y);
        }
        assert(s.push(x)[s.len() as int] == x);
    }
}

} // verus!
