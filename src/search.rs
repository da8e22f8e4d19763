use vstd::prelude::*;
use crate::eval::{calculate_material, lemma_side_total_bound, side_score};
use crate::oracle::{elapsed_ms, fen_after, fen_placement, mv_in_range, now, placement, play};
use crate::ordering::{categorize_moves, lemma_ordered_same_moves, ordered_moves, side_moves};
use crate::tt::{flag_type, stored, transposition_table, Entry};
use crate::types::{valid_placement, Color2, GameStage, Mv};
use crate::zobrist::Zobrist;
use rayon::iter::{IntoParallelRefIterator, ParallelIterator};
use std::time::Instant;

verus! {

/// A score above every evaluation; its negation lies below every one.
pub const INF: i32 = 2147483647;

/// Largest magnitude of a static score: 64 squares of at most 1200 each.
pub open spec fn score_bound() -> int {
    76800
}

/// The static score of a position from `side`'s own point of view; 0 when
/// the text does not parse.
pub open spec fn leaf_value(fen: Seq<char>, side: Color2, stage: GameStage) -> int {
    let p = fen_placement(fen);
    if valid_placement(p) {
        side_score(p, side, stage)
    } else {
        0
    }
}

/// The negamax value of a position searched `depth` plies deep with `side`
/// to move: the static score at depth 0 or without moves, else the best of
/// the negated values of the children.
pub open spec fn negamax(fen: Seq<char>, depth: nat, side: Color2, stage: GameStage) -> int
    decreases depth, 1nat, 0nat,
{
    let ms = side_moves(fen, side);
    if depth == 0 || ms.len() == 0 {
        leaf_value(fen, side, stage)
    } else {
        best_child(fen, ms, (depth - 1) as nat, side, stage)
    }
}

/// The best negated child value over the moves `ms`; `-INF` for none.
pub open spec fn best_child(fen: Seq<char>, ms: Seq<Mv>, d: nat, side: Color2, stage: GameStage) -> int
    decreases d + 1, 0nat, ms.len(),
{
    if ms.len() == 0 {
        -INF as int
    } else if ms.len() == 1 {
        -negamax(fen_after(fen, ms.last()), d, side.opposite(), stage)
    } else {
        let rest = best_child(fen, ms.drop_last(), d, side, stage);
        let v = -negamax(fen_after(fen, ms.last()), d, side.opposite(), stage);
        if v > rest {
            v
        } else {
            rest
        }
    }
}

/// The value of playing `m` from `side`'s point of view.
pub open spec fn child_value(fen: Seq<char>, m: Mv, d: nat, side: Color2, stage: GameStage) -> int {
    -negamax(fen_after(fen, m), d, side.opposite(), stage)
}

/// The bound flag of a result `v` searched in the window `(a, b)`.
pub open spec fn flag_for(v: int, a: int, b: int) -> flag_type {
    if v <= a {
        flag_type::Upper
    } else if v >= b {
        flag_type::Lower
    } else {
        flag_type::Exact
    }
}

/// What a flag says of a result `v` and the true value `t`.
pub open spec fn flag_holds(f: flag_type, v: int, t: int) -> bool {
    match f {
        flag_type::Exact => v == t,
        flag_type::Lower => t >= v,
        flag_type::Upper => t <= v,
    }
}

/// Whether a stored entry `m[k]` ends the search of a node at `depth` in the
/// window `(alpha, beta)` at once: deep enough, and exact, or a lower bound
/// at or above `beta`, or an upper bound at or below `alpha`.
pub open spec fn tt_cutoff(m: Map<u64, Entry>, k: u64, depth: int, alpha: int, beta: int) -> bool {
    m.contains_key(k) && m[k].depth >= depth && (m[k].flag == flag_type::Exact || (m[k].flag
        == flag_type::Lower && m[k].score >= beta) || (m[k].flag == flag_type::Upper && m[k].score
        <= alpha))
}

/// Whether a search with the table on probes and stores at `fen`.
pub open spec fn probes(use_tt: bool, fen: Seq<char>) -> bool {
    use_tt && valid_placement(fen_placement(fen))
}

/// The table after a completed node stores its result over the table `m`
/// that its children left.
pub open spec fn stored_after_children(
    after: Map<u64, Entry>,
    cap: nat,
    k: u64,
    score: i32,
    depth: i32,
    flag: flag_type,
) -> bool {
    exists|m: Map<u64, Entry>, bm: Option<Mv>| after == stored(m, cap, k, Entry { score, depth, flag, best_move: bm })
}

/// Whether `elapsed` milliseconds spend a budget of `limit`.
pub fn time_up(elapsed: u64, limit: u64) -> (r: bool)
    ensures
        r == (elapsed >= limit),
{
    elapsed >= limit
}

/// Every stored score lies in `[-INF, INF]`.
pub open spec fn scores_in_range(tt: &transposition_table) -> bool {
    forall|k: u64| #[trigger] tt@.contains_key(k) ==> -INF <= tt@[k].score <= INF
}

/// The best child value bounds every child value and, for a non-empty list,
/// is the value of one of them.
pub proof fn lemma_best_child_char(fen: Seq<char>, ms: Seq<Mv>, d: nat, side: Color2, stage: GameStage)
    ensures
        forall|i: int| 0 <= i < ms.len() ==> child_value(fen, #[trigger] ms[i], d, side, stage) <= best_child(fen, ms, d, side, stage),
        ms.len() > 0 ==> exists|i: int| 0 <= i < ms.len() && child_value(fen, #[trigger] ms[i], d, side, stage) == best_child(fen, ms, d, side, stage),
    decreases ms.len(),
{
    if ms.len() > 0 {
        lemma_best_child_char(fen, ms.drop_last(), d, side, stage);
        let bc = best_child(fen, ms, d, side, stage);
        assert forall|i: int| 0 <= i < ms.len() implies child_value(fen, #[trigger] ms[i], d, side, stage) <= bc by {
            if i < ms.len() - 1 {
                assert(ms.drop_last()[i] == ms[i]);
            }
        }
        if ms.len() > 1 && bc == best_child(fen, ms.drop_last(), d, side, stage) {
            let j = choose|j: int| 0 <= j < ms.drop_last().len() && child_value(fen, #[trigger] ms.drop_last()[j], d, side, stage) == best_child(fen, ms.drop_last(), d, side, stage);
            assert(ms.drop_last()[j] == ms[j]);
        } else {
            assert(child_value(fen, ms[ms.len() - 1], d, side, stage) == bc);
        }
    }
}

/// Every negamax value lies within the static score bound.
pub proof fn lemma_negamax_bound(fen: Seq<char>, depth: nat, side: Color2, stage: GameStage)
    ensures
        -score_bound() <= negamax(fen, depth, side, stage) <= score_bound(),
    decreases depth,
{
    let ms = side_moves(fen, side);
    if depth == 0 || ms.len() == 0 {
        let p = fen_placement(fen);
        if valid_placement(p) {
            lemma_side_total_bound(p, 64, side, stage);
        }
    } else {
        let d = (depth - 1) as nat;
        lemma_best_child_char(fen, ms, d, side, stage);
        let i = choose|i: int| 0 <= i < ms.len() && child_value(fen, #[trigger] ms[i], d, side, stage) == best_child(fen, ms, d, side, stage);
        lemma_negamax_bound(fen_after(fen, ms[i]), d, side.opposite(), stage);
    }
}

/// Time budget and switches of one search.
pub struct SearchContext {
    pub start: Instant,
    pub limit_ms: u64,
    pub stage: GameStage,
    pub use_tt: bool,
}

/// The alpha-beta engine and its iterative-deepening driver.
pub struct AlphaBeta;

impl AlphaBeta {
    /// Whether the time budget of `ctx` is spent.
    fn out_of_time(ctx: &SearchContext) -> bool {
        time_up(elapsed_ms(&ctx.start), ctx.limit_ms)
    }

    /// The static score of `fen` from `side`'s point of view.
    pub fn leaf_score(fen: &str, side: Color2, stage: GameStage) -> (r: i32)
        ensures
            r == leaf_value(fen@, side, stage),
    {
        let p = placement(fen);
        if p.len() == 64 {
            let (w, b) = calculate_material(&p, stage);
            match side {
                Color2::White => w,
                Color2::Black => b,
            }
        } else {
            0
        }
    }

    /// Negamax alpha-beta search of `fen` to `depth` with `side` to move in the
    /// window `(alpha, beta)`. Returns the score and whether the search ran to
    /// the end within the time budget. A complete search without the table is
    /// exact inside the window and a bound outside it, as its flag says.
    pub fn alpha_beta_search(
        fen: &str,
        depth: i32,
        alpha: i32,
        beta: i32,
        side: Color2,
        ctx: &SearchContext,
        tt: &mut transposition_table,
        zob: &Zobrist,
    ) -> (r: (i32, bool))
        requires
            depth >= 0,
            -INF <= alpha < beta <= INF,
            old(tt).wf(),
            scores_in_range(old(tt)),
            zob.wf(),
        ensures
            -INF <= r.0 <= INF,
            final(tt).wf(),
            scores_in_range(final(tt)),
            final(tt).cap() == old(tt).cap(),
            !ctx.use_tt ==> final(tt)@ == old(tt)@,
            !ctx.use_tt && r.1 ==> flag_holds(
                flag_for(r.0 as int, alpha as int, beta as int),
                r.0 as int,
                negamax(fen@, depth as nat, side, ctx.stage),
            ),
            !ctx.use_tt && r.1 && alpha == -INF && beta == INF ==> r.0 == negamax(fen@, depth as nat, side, ctx.stage),
            r.1 && probes(ctx.use_tt, fen@) && tt_cutoff(old(tt)@, zob.fingerprint(fen_placement(fen@), side), depth as int, alpha as int, beta as int)
                ==> r.0 == old(tt)@[zob.fingerprint(fen_placement(fen@), side)].score && final(tt)@ == old(tt)@,
            r.1 && !(probes(ctx.use_tt, fen@) && tt_cutoff(old(tt)@, zob.fingerprint(fen_placement(fen@), side), depth as int, alpha as int, beta as int))
                && (depth == 0 || side_moves(fen@, side).len() == 0)
                ==> r.0 == leaf_value(fen@, side, ctx.stage) && final(tt)@ == old(tt)@,
            r.1 && probes(ctx.use_tt, fen@) && !tt_cutoff(old(tt)@, zob.fingerprint(fen_placement(fen@), side), depth as int, alpha as int, beta as int)
                && depth >= 1 && side_moves(fen@, side).len() > 0
                ==> stored_after_children(final(tt)@, old(tt).cap(), zob.fingerprint(fen_placement(fen@), side), r.0, depth,
                    flag_for(r.0 as int, alpha as int, beta as int)),
        decreases depth,
    {
        let ghost t = negamax(fen@, depth as nat, side, ctx.stage);
        proof {
            lemma_negamax_bound(fen@, depth as nat, side, ctx.stage);
        }
        if Self::out_of_time(ctx) {
            return (alpha, false);
        }
        let a0 = alpha;
        let b0 = beta;
        let mut alpha = alpha;
        let mut beta = beta;
        let p = placement(fen);
        let mut key: u64 = 0;
        let mut hash_move: Option<Mv> = None;
        if ctx.use_tt && p.len() == 64 {
            key = zob.hash_position(&p, side);
            match tt.get(key) {
                Some(e) => {
                    if e.depth >= depth {
                        match e.flag {
                            flag_type::Exact => {
                                return (e.score, true);
                            },
                            flag_type::Lower => {
                                if e.score > alpha {
                                    alpha = e.score;
                                }
                            },
                            flag_type::Upper => {
                                if e.score < beta {
                                    beta = e.score;
                                }
                            },
                        }
                        if alpha >= beta {
                            return (e.score, true);
                        }
                    }
                    hash_move = e.best_move;
                },
                None => {},
            }
        }
        if depth == 0 {
            return (Self::leaf_score(fen, side, ctx.stage), true);
        }
        let moves = categorize_moves(fen, hash_move, side);
        if moves.len() == 0 {
            let v = Self::leaf_score(fen, side, ctx.stage);
            proof {
                if side_moves(fen@, side).len() > 0 {
                    assert(moves@.len() > 0) by {
                        lemma_ordered_same_moves(fen@, side, hash_move, side_moves(fen@, side)[0]);
                        assert(side_moves(fen@, side).contains(side_moves(fen@, side)[0]));
                        assert(!moves@.contains(side_moves(fen@, side)[0]));
                    }
                }
            }
            return (v, true);
        }
        let ghost d = (depth - 1) as nat;
        let ghost stage = ctx.stage;
        let a1 = alpha;
        let b1 = beta;
        let mut best: i32 = -INF;
        let mut best_move: Option<Mv> = None;
        let mut complete = true;
        let mut cut = false;
        let mut i: usize = 0;
        while i < moves.len()
            invariant
                moves@ == ordered_moves(fen@, side, hash_move),
                forall|j: int| 0 <= j < moves@.len() ==> mv_in_range(#[trigger] moves@[j]),
                depth >= 1,
                d == depth - 1,
                stage == ctx.stage,
                -INF <= a1 < b1 <= INF,
                !ctx.use_tt ==> a1 == a0 && b1 == b0,
                beta == b1,
                -INF <= best <= INF,
                alpha == if best > a1 { best } else { a1 },
                i <= moves@.len(),
                cut ==> best >= b1,
                !cut ==> best < b1,
                tt.wf(),
                scores_in_range(tt),
                tt.cap() == old(tt).cap(),
                !ctx.use_tt ==> tt@ == old(tt)@,
                zob.wf(),
                (complete && !ctx.use_tt && !cut) ==> forall|j: int| 0 <= j < i ==> child_value(fen@, #[trigger] moves@[j], d, side, stage) <= best,
                (complete && !ctx.use_tt && !cut && best > a1) ==> exists|j: int| 0 <= j < i && child_value(fen@, #[trigger] moves@[j], d, side, stage) == best,
                (complete && !ctx.use_tt && cut) ==> exists|j: int| 0 <= j < moves@.len() && child_value(fen@, #[trigger] moves@[j], d, side, stage) >= best,
                cut ==> i < moves@.len(),
            ensures
                (complete && !cut) ==> i == moves@.len(),
            decreases moves@.len() - i, if cut { 0int } else { 1int },
        {
            if cut {
                break;
            }
            let m = moves[i];
            let child = play(fen, m);
            let (s, c) = Self::alpha_beta_search(&child, depth - 1, -beta, -alpha, side.other(), ctx, tt, zob);
            let score = -s;
            if !c {
                complete = false;
            }
            proof {
                if complete && !ctx.use_tt {
                    assert(child_value(fen@, moves@[i as int], d, side, stage) == -negamax(child@, d, side.opposite(), stage));
                }
            }
            if score > best {
                best = score;
                best_move = Some(m);
            }
            if best > alpha {
                alpha = best;
            }
            if alpha >= beta {
                cut = true;
            } else {
                if Self::out_of_time(ctx) {
                    complete = false;
                }
                i = i + 1;
                if !complete {
                    break;
                }
            }
        }
        proof {
            lemma_ordered_same_moves(fen@, side, hash_move, moves@[0]);
            assert(moves@.contains(moves@[0]));
            if complete && !ctx.use_tt {
                lemma_best_child_char(fen@, side_moves(fen@, side), d, side, stage);
                let sm = side_moves(fen@, side);
                assert(sm.len() > 0) by {
                    lemma_ordered_same_moves(fen@, side, hash_move, moves@[0]);
                    assert(moves@.contains(moves@[0]));
                }
                assert(t == best_child(fen@, sm, d, side, stage));
                if cut {
                    let j = choose|j: int| 0 <= j < moves@.len() && child_value(fen@, #[trigger] moves@[j], d, side, stage) >= best;
                    lemma_ordered_same_moves(fen@, side, hash_move, moves@[j]);
                    assert(moves@.contains(moves@[j]));
                    let k = choose|k: int| 0 <= k < sm.len() && sm[k] == moves@[j];
                    assert(child_value(fen@, sm[k], d, side, stage) <= t);
                } else {
                    assert(i == moves@.len());
                    assert forall|k: int| 0 <= k < sm.len() implies child_value(fen@, #[trigger] sm[k], d, side, stage) <= best by {
                        lemma_ordered_same_moves(fen@, side, hash_move, sm[k]);
                        assert(sm.contains(sm[k]));
                        let j = choose|j: int| 0 <= j < moves@.len() && moves@[j] == sm[k];
                        assert(child_value(fen@, moves@[j], d, side, stage) <= best);
                    }
                    let k = choose|k: int| 0 <= k < sm.len() && child_value(fen@, #[trigger] sm[k], d, side, stage) == t;
                    if best > a1 {
                        let j = choose|j: int| 0 <= j < i && child_value(fen@, #[trigger] moves@[j], d, side, stage) == best;
                        lemma_ordered_same_moves(fen@, side, hash_move, moves@[j]);
                        assert(moves@.contains(moves@[j]));
                        let k2 = choose|k2: int| 0 <= k2 < sm.len() && sm[k2] == moves@[j];
                        assert(child_value(fen@, sm[k2], d, side, stage) <= t);
                    }
                }
            }
        }
        if ctx.use_tt && complete && p.len() == 64 {
            let flag = if best <= a0 {
                flag_type::Upper
            } else if best >= b0 {
                flag_type::Lower
            } else {
                flag_type::Exact
            };
            let ghost before = tt@;
            tt.store(key, Entry { score: best, depth, flag, best_move });
            assert(tt@ == stored(before, old(tt).cap(), key, Entry { score: best, depth, flag, best_move }));
        }
        (best, complete)
    }

    /// Plays the root move `m` and searches the child with a full window and a
    /// table of its own; the score is from `side`'s point of view.
    pub fn root_child_score(fen: &str, m: Mv, depth: i32, side: Color2, ctx: &SearchContext, zob: &Zobrist) -> (r: (
        i32,
        bool,
    ))
        requires
            depth >= 1,
            mv_in_range(m),
            zob.wf(),
        ensures
            -INF <= r.0 <= INF,
            !ctx.use_tt && r.1 ==> r.0 == child_value(fen@, m, (depth - 1) as nat, side, ctx.stage),
            r.1 && (depth == 1 || side_moves(fen_after(fen@, m), side.opposite()).len() == 0) ==> r.0
                == -leaf_value(fen_after(fen@, m), side.opposite(), ctx.stage),
    {
        let child = play(fen, m);
        let mut tt = transposition_table::new();
        proof {
            lemma_negamax_bound(child@, (depth - 1) as nat, side.opposite(), ctx.stage);
        }
        let (s, c) = Self::alpha_beta_search(&child, depth - 1, -INF, INF, side.other(), ctx, &mut tt, zob);
        (-s, c)
    }

    /// One iteration at the root: searches each ordered root move to
    /// `depth - 1` with a full window and keeps the first move of the highest
    /// score. Returns that move (none when `side` has no legal move), its
    /// score, and whether the iteration finished within the time budget. A
    /// finished iteration without the table scores the root at its negamax value.
    pub fn iterative_deepening(
        fen: &str,
        depth: i32,
        side: Color2,
        previous_best: Option<Mv>,
        ctx: &SearchContext,
        tt: &mut transposition_table,
        zob: &Zobrist,
    ) -> (r: (Option<Mv>, i32, bool))
        requires
            depth >= 1,
            old(tt).wf(),
            scores_in_range(old(tt)),
            zob.wf(),
        ensures
            final(tt).wf(),
            scores_in_range(final(tt)),
            final(tt).cap() == old(tt).cap(),
            r.0 is Some <==> side_moves(fen@, side).len() > 0,
            r.0 matches Some(m) ==> side_moves(fen@, side).contains(m) && mv_in_range(m),
            r.0 matches Some(m) ==> (!ctx.use_tt && r.2 ==> r.1 == negamax(fen@, depth as nat, side, ctx.stage)
                && child_value(fen@, m, (depth - 1) as nat, side, ctx.stage) == r.1),
    {
        let moves = categorize_moves(fen, previous_best, side);
        let ghost sm = side_moves(fen@, side);
        let ghost d = (depth - 1) as nat;
        let ghost stage = ctx.stage;
        if moves.len() == 0 {
            proof {
                if sm.len() > 0 {
                    lemma_ordered_same_moves(fen@, side, previous_best, sm[0]);
                    assert(sm.contains(sm[0]));
                    assert(!moves@.contains(sm[0]));
                }
            }
            return (None, 0, true);
        }
        proof {
            lemma_ordered_same_moves(fen@, side, previous_best, moves@[0]);
            assert(moves@.contains(moves@[0]));
        }
        let scores = par_root_scores(fen, &moves, depth, side, ctx, zob);
        let mut best_move = moves[0];
        let mut best: i32 = -INF;
        let mut complete = !Self::out_of_time(ctx);
        let mut i: usize = 0;
        while i < scores.len()
            invariant
                moves@ == ordered_moves(fen@, side, previous_best),
                scores@.len() == moves@.len(),
                forall|j: int| 0 <= j < scores@.len() ==> -INF <= (#[trigger] scores@[j]).0 <= INF,
                forall|j: int| 0 <= j < scores@.len() ==> (!ctx.use_tt && (#[trigger] scores@[j]).1 ==> scores@[j].0 == child_value(fen@, moves@[j], d, side, stage)),
                moves@.len() > 0,
                d == depth - 1,
                stage == ctx.stage,
                i <= moves@.len(),
                -INF <= best <= INF,
                moves@.contains(best_move),
                (complete && !ctx.use_tt) ==> forall|j: int| 0 <= j < i ==> child_value(fen@, #[trigger] moves@[j], d, side, stage) <= best,
                (complete && !ctx.use_tt && i > 0) ==> child_value(fen@, best_move, d, side, stage) == best,
                i == 0 ==> best == -INF,
            decreases scores@.len() - i,
        {
            let (score, c) = scores[i];
            if !c {
                complete = false;
            }
            proof {
                if !ctx.use_tt && complete {
                    lemma_negamax_bound(fen_after(fen@, moves@[i as int]), d, side.opposite(), stage);
                }
            }
            if score > best {
                best = score;
                best_move = moves[i];
                proof {
                    assert(moves@.contains(moves@[i as int]));
                }
            }
            i = i + 1;
        }
        proof {
            lemma_ordered_same_moves(fen@, side, previous_best, best_move);
            if complete && !ctx.use_tt {
                lemma_best_child_char(fen@, sm, d, side, stage);
                assert forall|k: int| 0 <= k < sm.len() implies child_value(fen@, #[trigger] sm[k], d, side, stage) <= best by {
                    lemma_ordered_same_moves(fen@, side, previous_best, sm[k]);
                    assert(sm.contains(sm[k]));
                    let j = choose|j: int| 0 <= j < moves@.len() && moves@[j] == sm[k];
                    assert(child_value(fen@, moves@[j], d, side, stage) <= best);
                }
                let k = choose|k: int| 0 <= k < sm.len() && sm[k] == best_move;
                assert(child_value(fen@, sm[k], d, side, stage) <= best_child(fen@, sm, d, side, stage));
                let k2 = choose|k2: int| 0 <= k2 < sm.len() && child_value(fen@, #[trigger] sm[k2], d, side, stage) == best_child(fen@, sm, d, side, stage);
            }
        }
        if ctx.use_tt && complete {
            let p = placement(fen);
            if p.len() == 64 {
                let key = zob.hash_position(&p, side);
                tt.store(key, Entry { score: best, depth, flag: flag_type::Exact, best_move: Some(best_move) });
            }
        }
        (Some(best_move), best, complete)
    }

    /// Deepens the search from depth 1 while the `time_limit` in milliseconds
    /// lasts and the game is on, up to depth 64. Returns the move of the
    /// deepest finished iteration and that depth, or the first ordered legal
    /// move and depth 0 when none finished; no move when `color` has none.
    /// Without the table, the move reaches the negamax value of that depth.
    pub fn start_alpha_beta_search(
        fen: &str,
        time_limit: i32,
        game_on: bool,
        color: Color2,
        stage: GameStage,
        use_tt: bool,
        tt: &mut transposition_table,
        zob: &Zobrist,
    ) -> (r: (Option<Mv>, i32))
        requires
            old(tt).wf(),
            scores_in_range(old(tt)),
            zob.wf(),
        ensures
            r.0 is Some <==> side_moves(fen@, color).len() > 0,
            r.0 matches Some(m) ==> side_moves(fen@, color).contains(m) && mv_in_range(m),
            0 <= r.1 <= 64,
            !game_on ==> r.1 == 0,
            r.0 is Some && r.1 == 0 ==> r.0 == Some(ordered_moves(fen@, color, None)[0]),
            r.0 matches Some(m) ==> (!use_tt && r.1 >= 1 ==> child_value(fen@, m, (r.1 - 1) as nat, color, stage)
                == negamax(fen@, r.1 as nat, color, stage)),
    {
        let start = now();
        let limit_ms: u64 = if time_limit > 0 { time_limit as u64 } else { 0 };
        let ctx = SearchContext { start, limit_ms, stage, use_tt };
        let moves = categorize_moves(fen, None, color);
        if moves.len() == 0 {
            proof {
                let sm = side_moves(fen@, color);
                if sm.len() > 0 {
                    lemma_ordered_same_moves(fen@, color, None, sm[0]);
                    assert(sm.contains(sm[0]));
                    assert(!moves@.contains(sm[0]));
                }
            }
            return (None, 0);
        }
        let mut best = moves[0];
        proof {
            lemma_ordered_same_moves(fen@, color, None, best);
            assert(moves@.contains(moves@[0]));
        }
        let mut done: i32 = 0;
        let mut depth: i32 = 1;
        while depth <= 64 && game_on
            invariant
                side_moves(fen@, color).contains(best),
                side_moves(fen@, color).len() > 0,
                mv_in_range(best),
                tt.wf(),
                scores_in_range(tt),
                zob.wf(),
                1 <= depth <= 65,
                done == depth - 1,
                ctx.use_tt == use_tt,
                ctx.stage == stage,
                moves@ == ordered_moves(fen@, color, None),
                moves@.len() > 0,
                !game_on ==> done == 0,
                done == 0 ==> best == moves@[0],
                !use_tt && done >= 1 ==> child_value(fen@, best, (done - 1) as nat, color, stage) == negamax(fen@, done as nat, color, stage),
            ensures
                0 <= done <= 64,
                !game_on ==> done == 0,
                done == 0 ==> best == moves@[0],
                !use_tt && done >= 1 ==> child_value(fen@, best, (done - 1) as nat, color, stage) == negamax(fen@, done as nat, color, stage),
            decreases 65 - depth,
        {
            if Self::out_of_time(&ctx) {
                break;
            }
            let (m, _score, complete) = Self::iterative_deepening(fen, depth, color, Some(best), &ctx, tt, zob);
            if !complete {
                break;
            }
            match m {
                Some(mm) => {
                    best = mm;
                    done = depth;
                },
                None => {
                    break;
                },
            }
            depth = depth + 1;
        }
        (Some(best), done)
    }
}

/// Relies on rayon's `par_iter().map(..).collect()`: one result per move, in
/// the order of `moves`, each the value `root_child_score` returns for it.
#[verifier::external_body]
fn par_root_scores(fen: &str, moves: &Vec<Mv>, depth: i32, side: Color2, ctx: &SearchContext, zob: &Zobrist) -> (r: Vec<(i32, bool)>)
    requires
        depth >= 1,
        forall|j: int| 0 <= j < moves@.len() ==> mv_in_range(#[trigger] moves@[j]),
        zob.wf(),
    ensures
        r@.len() == moves@.len(),
        forall|j: int| 0 <= j < r@.len() ==> -INF <= (#[trigger] r@[j]).0 <= INF,
        forall|j: int| 0 <= j < r@.len() ==> (!ctx.use_tt && (#[trigger] r@[j]).1 ==> r@[j].0 == child_value(fen@, moves@[j], (depth - 1) as nat, side, ctx.stage)),
{
    moves.par_iter().map(|m| AlphaBeta::root_child_score(fen, *m, depth, side, ctx, zob)).collect()
}

} // verus!
