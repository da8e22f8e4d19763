use vstd::prelude::*;
use crate::oracle::random_key;
use crate::types::{is_piece_code, valid_placement, Color2};

verus! {

/// Random keys for Zobrist fingerprints: one per (piece code, square), at
/// `(code - 1) * 64 + square`, and one for black to move.
pub struct Zobrist {
    pub piece_keys: Vec<u64>,
    pub side_to_move_key: u64,
}

impl Zobrist {
    pub open spec fn wf(&self) -> bool {
        self.piece_keys@.len() == 768
    }

    /// The key that a square holding `code` contributes; nothing when empty.
    pub open spec fn key_of(&self, code: u8, sq: int) -> u64 {
        if code == 0 {
            0
        } else {
            self.piece_keys@[(code - 1) * 64 + sq]
        }
    }

    /// XOR of the keys of the first `n` squares of a placement.
    pub open spec fn fold_keys(&self, p: Seq<u8>, n: int) -> u64
        decreases n,
    {
        if n <= 0 {
            0
        } else {
            self.fold_keys(p, n - 1) ^ self.key_of(p[n - 1], n - 1)
        }
    }

    pub open spec fn side_key_of(&self, side: Color2) -> u64 {
        match side {
            Color2::White => 0,
            Color2::Black => self.side_to_move_key,
        }
    }

    /// The fingerprint of a placement with `side` to move.
    pub open spec fn fingerprint(&self, p: Seq<u8>, side: Color2) -> u64 {
        self.fold_keys(p, 64) ^ self.side_key_of(side)
    }

    /// Draws a fresh table of keys.
    pub fn new() -> (r: Zobrist)
        ensures
            r.wf(),
    {
        let mut piece_keys: Vec<u64> = Vec::new();
        let mut i: usize = 0;
        while i < 768
            invariant
                i <= 768,
                piece_keys@.len() == i,
            decreases 768 - i,
        {
            piece_keys.push(random_key());
            i = i + 1;
        }
        Zobrist { piece_keys, side_to_move_key: random_key() }
    }

    fn square_key(&self, code: u8, sq: usize) -> (r: u64)
        requires
            self.wf(),
            is_piece_code(code),
            sq < 64,
        ensures
            r == self.key_of(code, sq as int),
    {
        if code == 0 {
            0
        } else {
            self.piece_keys[(code as usize - 1) * 64 + sq]
        }
    }

    /// The fingerprint of a placement with `side` to move.
    pub fn hash_position(&self, p: &Vec<u8>, side: Color2) -> (r: u64)
        requires
            self.wf(),
            valid_placement(p@),
        ensures
            r == self.fingerprint(p@, side),
    {
        let mut hash: u64 = 0;
        let mut i: usize = 0;
        while i < 64
            invariant
                self.wf(),
                valid_placement(p@),
                i <= 64,
                hash == self.fold_keys(p@, i as int),
            decreases 64 - i,
        {
            hash = hash ^ self.square_key(p[i], i);
            i = i + 1;
        }
        match side {
            Color2::White => hash ^ 0,
            Color2::Black => hash ^ self.side_to_move_key,
        }
    }

    /// Moves the piece `piece` from `from_square` to `to_square` and passes the
    /// turn: XORs out the key at the origin, XORs in the key at the
    /// destination, and XORs the side-to-move key.
    pub fn update_hash(&self, hash: u64, from_square: usize, to_square: usize, piece: u8, side_to_move: Color2) -> (r: u64)
        requires
            self.wf(),
            from_square < 64,
            to_square < 64,
            1 <= piece <= 12,
        ensures
            r == ((hash ^ self.key_of(piece, from_square as int)) ^ self.key_of(piece, to_square as int))
                ^ self.side_to_move_key,
    {
        let mut new_hash = hash;
        new_hash = new_hash ^ self.square_key(piece, from_square);
        new_hash = new_hash ^ self.square_key(piece, to_square);
        new_hash = new_hash ^ self.side_to_move_key;
        new_hash
    }

    /// Replaces what square `sq` holds, `old_code`, by `new_code` in a
    /// fingerprint.
    pub fn replace_square(&self, hash: u64, sq: usize, old_code: u8, new_code: u8) -> (r: u64)
        requires
            self.wf(),
            sq < 64,
            is_piece_code(old_code),
            is_piece_code(new_code),
        ensures
            r == (hash ^ self.key_of(old_code, sq as int)) ^ self.key_of(new_code, sq as int),
    {
        (hash ^ self.square_key(old_code, sq)) ^ self.square_key(new_code, sq)
    }

    /// Passes the turn in a fingerprint.
    pub fn flip_side(&self, hash: u64) -> (r: u64)
        ensures
            r == hash ^ self.side_to_move_key,
    {
        hash ^ self.side_to_move_key
    }
}

proof fn lemma_xor_cancel(a: u64, x: u64, y: u64)
    ensures
        ((a ^ x) ^ x) ^ y == a ^ y,
{
    assert(((a ^ x) ^ x) ^ y == a ^ y) by (bit_vector);
}

proof fn lemma_xor_swap(a: u64, x: u64, y: u64, z: u64)
    ensures
        ((a ^ x) ^ y) ^ z == ((a ^ z) ^ x) ^ y,
{
    assert(((a ^ x) ^ y) ^ z == ((a ^ z) ^ x) ^ y) by (bit_vector);
}

proof fn lemma_xor_side(a: u64, s: u64, w: u64)
    ensures
        (a ^ w) ^ s == (a ^ s) ^ w,
        (a ^ s) ^ s == a,
        a ^ 0 == a,
{
    assert((a ^ w) ^ s == (a ^ s) ^ w) by (bit_vector);
    assert((a ^ s) ^ s == a) by (bit_vector);
    assert(a ^ 0 == a) by (bit_vector);
}

proof fn lemma_fold_update(z: &Zobrist, p: Seq<u8>, s: int, c: u8, n: int)
    requires
        p.len() == 64,
        0 <= s < n <= 64,
    ensures
        z.fold_keys(p.update(s, c), n) == (z.fold_keys(p, n) ^ z.key_of(p[s], s)) ^ z.key_of(c, s),
    decreases n,
{
    let q = p.update(s, c);
    if n == s + 1 {
        lemma_fold_prefix_same(z, p, q, s);
        lemma_xor_cancel(z.fold_keys(p, s), z.key_of(p[s], s), z.key_of(c, s));
    } else {
        lemma_fold_update(z, p, s, c, n - 1);
        lemma_xor_swap(z.fold_keys(p, n - 1), z.key_of(p[s], s), z.key_of(c, s), z.key_of(p[n - 1], n - 1));
    }
}

proof fn lemma_fold_prefix_same(z: &Zobrist, p: Seq<u8>, q: Seq<u8>, n: int)
    requires
        0 <= n <= p.len(),
        n <= q.len(),
        forall|i: int| 0 <= i < n ==> p[i] == q[i],
    ensures
        z.fold_keys(p, n) == z.fold_keys(q, n),
    decreases n,
{
    if n > 0 {
        lemma_fold_prefix_same(z, p, q, n - 1);
    }
}

/// Changing what one square holds changes the fingerprint exactly as
/// `replace_square` does: the full hash of the new placement equals the
/// incremental update of the old hash.
pub proof fn lemma_replace_square_matches_rehash(z: &Zobrist, p: Seq<u8>, side: Color2, sq: int, c: u8)
    requires
        z.wf(),
        valid_placement(p),
        0 <= sq < 64,
        is_piece_code(c),
    ensures
        z.fingerprint(p.update(sq, c), side) == (z.fingerprint(p, side) ^ z.key_of(p[sq], sq)) ^ z.key_of(c, sq),
{
    lemma_fold_update(z, p, sq, c, 64);
    let f = z.fold_keys(p, 64);
    let s = z.side_key_of(side);
    let x = z.key_of(p[sq], sq);
    let y = z.key_of(c, sq);
    assert(((f ^ x) ^ y) ^ s == ((f ^ s) ^ x) ^ y) by (bit_vector);
}

/// Passing the turn changes the fingerprint exactly as `flip_side` does.
pub proof fn lemma_flip_side_matches_rehash(z: &Zobrist, p: Seq<u8>, side: Color2)
    ensures
        z.fingerprint(p, side.opposite()) == z.fingerprint(p, side) ^ z.side_to_move_key,
{
    let f = z.fold_keys(p, 64);
    lemma_xor_side(f, z.side_to_move_key, 0);
}

/// For a move of `piece` from one square to an empty one, the full hash of
/// the resulting position equals `update_hash` applied to the hash of the
/// starting position.
pub proof fn lemma_update_hash_matches_rehash(z: &Zobrist, p: Seq<u8>, side: Color2, from: int, to: int, piece: u8)
    requires
        z.wf(),
        valid_placement(p),
        0 <= from < 64,
        0 <= to < 64,
        from != to,
        1 <= piece <= 12,
        p[from] == piece,
        p[to] == 0,
    ensures
        z.fingerprint(p.update(from, 0).update(to, piece), side.opposite())
            == ((z.fingerprint(p, side) ^ z.key_of(piece, from)) ^ z.key_of(piece, to)) ^ z.side_to_move_key,
{
    let p1 = p.update(from, 0);
    lemma_replace_square_matches_rehash(z, p, side, from, 0);
    lemma_replace_square_matches_rehash(z, p1, side, to, piece);
    lemma_flip_side_matches_rehash(z, p1.update(to, piece), side);
    let h = z.fingerprint(p, side);
    let x = z.key_of(piece, from);
    let y = z.key_of(piece, to);
    assert((h ^ x) ^ 0 == h ^ x) by (bit_vector);
    assert(((h ^ x) ^ 0) ^ y == (h ^ x) ^ y) by (bit_vector);
}

/// One elementary change of a position: a square takes a new content, or the
/// turn passes. A move is a few of the first followed by the second.
pub enum BoardChange {
    Put { sq: u8, code: u8 },
    Pass,
}

pub open spec fn change_ok(c: BoardChange) -> bool {
    match c {
        BoardChange::Put { sq, code } => sq < 64 && is_piece_code(code),
        BoardChange::Pass => true,
    }
}

/// The placement and side to move after a sequence of changes.
pub open spec fn after_changes(p: Seq<u8>, side: Color2, cs: Seq<BoardChange>) -> (Seq<u8>, Color2)
    decreases cs.len(),
{
    if cs.len() == 0 {
        (p, side)
    } else {
        let (q, s) = after_changes(p, side, cs.drop_last());
        match cs.last() {
            BoardChange::Put { sq, code } => (q.update(sq as int, code), s),
            BoardChange::Pass => (q, s.opposite()),
        }
    }
}

/// A fingerprint carried along a sequence of changes by `replace_square` and
/// `flip_side` alone.
pub open spec fn incremental_hash(z: &Zobrist, h: u64, p: Seq<u8>, side: Color2, cs: Seq<BoardChange>) -> u64
    decreases cs.len(),
{
    if cs.len() == 0 {
        h
    } else {
        let h1 = incremental_hash(z, h, p, side, cs.drop_last());
        let (q, _s) = after_changes(p, side, cs.drop_last());
        match cs.last() {
            BoardChange::Put { sq, code } => (h1 ^ z.key_of(q[sq as int], sq as int)) ^ z.key_of(code, sq as int),
            BoardChange::Pass => h1 ^ z.side_to_move_key,
        }
    }
}

proof fn lemma_after_changes_valid(p: Seq<u8>, side: Color2, cs: Seq<BoardChange>)
    requires
        valid_placement(p),
        forall|i: int| 0 <= i < cs.len() ==> change_ok(#[trigger] cs[i]),
    ensures
        valid_placement(after_changes(p, side, cs).0),
    decreases cs.len(),
{
    if cs.len() > 0 {
        assert forall|i: int| 0 <= i < cs.drop_last().len() implies change_ok(#[trigger] cs.drop_last()[i]) by {
            assert(cs.drop_last()[i] == cs[i]);
        }
        lemma_after_changes_valid(p, side, cs.drop_last());
        assert(change_ok(cs[cs.len() - 1]));
    }
}

/// Along any sequence of changes from the same root, the full hash of the
/// resulting position equals the incrementally updated hash.
pub proof fn lemma_incremental_matches_full(z: &Zobrist, p: Seq<u8>, side: Color2, cs: Seq<BoardChange>)
    requires
        z.wf(),
        valid_placement(p),
        forall|i: int| 0 <= i < cs.len() ==> change_ok(#[trigger] cs[i]),
    ensures
        z.fingerprint(after_changes(p, side, cs).0, after_changes(p, side, cs).1)
            == incremental_hash(z, z.fingerprint(p, side), p, side, cs),
    decreases cs.len(),
{
    if cs.len() > 0 {
        let rest = cs.drop_last();
        assert forall|i: int| 0 <= i < rest.len() implies change_ok(#[trigger] rest[i]) by {
            assert(rest[i] == cs[i]);
        }
        lemma_incremental_matches_full(z, p, side, rest);
        lemma_after_changes_valid(p, side, rest);
        let (q, s) = after_changes(p, side, rest);
        assert(change_ok(cs[cs.len() - 1]));
        match cs.last() {
            BoardChange::Put { sq, code } => {
                lemma_replace_square_matches_rehash(z, q, s, sq as int, code);
            },
            BoardChange::Pass => {
                lemma_flip_side_matches_rehash(z, q, s);
            },
        }
    }
}

} // verus!
