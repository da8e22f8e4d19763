use chessbot::api::{
    castling_from_standard, castling_to_standard, determine_time, evaluate, find_best_move, update_position,
    EngineError,
};
use chessbot::ordering::categorize_moves;
use chessbot::search::{AlphaBeta, SearchContext, INF};
use chessbot::tt::{flag_type, transposition_table, Entry};
use chessbot::types::{Color2, GameStage, Mv};
use chessbot::zobrist::Zobrist;
use std::time::Instant;

const START: &str = "rnbqkbnr/pppppppp/8/8/8/8/PPPPPPPP/RNBQKBNR w - - 0 1";

fn is_legal_text(fen: &str, mv: &str) -> bool {
    update_position(fen, mv).is_ok()
}

fn ctx(limit_ms: u64, stage: GameStage, use_tt: bool) -> SearchContext {
    SearchContext { start: Instant::now(), limit_ms, stage, use_tt }
}

fn reference_negamax(fen: &str, depth: i32, side: Color2, stage: GameStage) -> i32 {
    let moves = categorize_moves(fen, None, side);
    if depth == 0 || moves.is_empty() {
        return AlphaBeta::leaf_score(fen, side, stage);
    }
    let mut best = -INF;
    for m in moves {
        let text = mv_text(m);
        let child = update_position(fen, &text).unwrap();
        let v = -reference_negamax(&child, depth - 1, side.other(), stage);
        if v > best {
            best = v;
        }
    }
    best
}

fn mv_text(m: Mv) -> String {
    let sq = |s: u8| format!("{}{}", (b'a' + s % 8) as char, s / 8 + 1);
    let promo = match m.promotion {
        1 => "n",
        2 => "b",
        3 => "r",
        4 => "q",
        _ => "",
    };
    format!("{}{}{}", sq(m.from), sq(m.to), promo)
}

#[test]
fn side_literals() {
    assert_eq!(Color2::from_text("white"), Some(Color2::White));
    assert_eq!(Color2::from_text("black"), Some(Color2::Black));
    assert_eq!(Color2::from_text("purple"), None);
    assert_eq!(Color2::from_text("White"), None);
    assert_eq!(Color2::White.text(), "white");
    assert_eq!(Color2::Black.other(), Color2::White);
}

#[test]
fn evaluate_start_position() {
    assert_eq!(evaluate(START, GameStage::Opening), Some((69, 69)));
    assert_eq!(evaluate(START, GameStage::Middlegame), Some((69, 69)));
    assert_eq!(evaluate(START, GameStage::Endgame), Some((61, 61)));
    assert_eq!(evaluate("not a fen", GameStage::Opening), None);
}

#[test]
fn evaluate_is_repeatable() {
    let fen = "r1bqkbnr/pppp1ppp/2n5/4p3/4P3/5N2/PPPP1PPP/RNBQKB1R w - - 2 3";
    assert_eq!(evaluate(fen, GameStage::Middlegame), evaluate(fen, GameStage::Middlegame));
}

#[test]
fn evaluate_lone_pieces() {
    // White king e1 (safety 1, center 1), black king e8, white knight d4
    // (knight table 3, times 3, plus 3).
    let fen = "4k3/8/8/8/3N4/8/8/4K3 w - - 0 1";
    assert_eq!(evaluate(fen, GameStage::Opening), Some((13, 1)));
    assert_eq!(evaluate(fen, GameStage::Endgame), Some((13, 1)));
}

#[test]
fn time_manager_rules() {
    assert_eq!(determine_time((10, 10), 60000, false, Color2::White, GameStage::Opening), 0);
    assert_eq!(determine_time((10, 10), 5000, true, Color2::White, GameStage::Opening), 200);
    assert_eq!(determine_time((5, 10), 60000, true, Color2::White, GameStage::Opening), 750);
    assert_eq!(determine_time((10, 5), 60000, true, Color2::Black, GameStage::Opening), 750);
    assert_eq!(determine_time((10, 5), 60000, true, Color2::White, GameStage::Endgame), 750);
    assert_eq!(determine_time((10, 5), 60000, true, Color2::White, GameStage::Middlegame), 500);
}

#[test]
fn update_position_plays_move() {
    let r = update_position(START, "e2e4").unwrap();
    assert!(r.starts_with("rnbqkbnr/pppppppp/8/8/4P3/8/PPPP1PPP/RNBQKBNR b"));
    assert!(is_legal_text(&r, "e7e5"));
    assert_eq!(update_position(&r, "e7e5"), update_position(&r.clone(), "e7e5"));
}

#[test]
fn update_position_errors() {
    assert_eq!(update_position("garbage", "e2e4"), Err(EngineError::BadFen));
    assert_eq!(update_position(START, "zz"), Err(EngineError::MalformedMove));
    assert_eq!(update_position(START, "e2e5"), Err(EngineError::IllegalMove));
}

#[test]
fn game_over_returns_end() {
    assert_eq!(find_best_move(START, 60000, false, "white", GameStage::Opening), Ok("END".to_string()));
    assert_eq!(find_best_move(START, 0, true, "white", GameStage::Opening), Ok("END".to_string()));
}

#[test]
fn find_best_move_errors() {
    assert_eq!(find_best_move(START, 60000, true, "green", GameStage::Opening), Err(EngineError::InvalidSide));
    assert_eq!(find_best_move("nonsense", 60000, true, "white", GameStage::Opening), Err(EngineError::BadFen));
}

#[test]
fn no_legal_move_returns_end() {
    // Black is checkmated.
    let fen = "R5k1/5ppp/8/8/8/8/5PPP/6K1 b - - 1 1";
    assert_eq!(find_best_move(fen, 60000, true, "black", GameStage::Middlegame), Ok("END".to_string()));
}

#[test]
fn start_position_within_budget() {
    let t = Instant::now();
    let mv = find_best_move(START, 60000, true, "white", GameStage::Opening).unwrap();
    assert!(t.elapsed().as_millis() <= 600);
    assert!(is_legal_text(START, &mv));
}

#[test]
fn panic_mode_within_budget() {
    let t = Instant::now();
    let mv = find_best_move(START, 5000, true, "white", GameStage::Opening).unwrap();
    assert!(t.elapsed().as_millis() <= 250);
    assert!(is_legal_text(START, &mv));
}

#[test]
fn forced_recapture() {
    let fen = "k7/8/8/8/8/8/1q6/K7 w - - 0 1";
    assert_eq!(find_best_move(fen, 60000, true, "white", GameStage::Endgame), Ok("a1b2".to_string()));
    let mut tt = transposition_table::new();
    let zob = Zobrist::new();
    for depth in 1..4 {
        let (m, _, _) = AlphaBeta::iterative_deepening(fen, depth, Color2::White, None, &ctx(10000, GameStage::Endgame, false), &mut tt, &zob);
        assert_eq!(m, Some(Mv { from: 0, to: 9, promotion: 0 }));
    }
}

#[test]
fn rook_endgame_progress() {
    let fen = "8/8/8/4k3/8/8/8/R3K3 w - - 0 1";
    let mut tt = transposition_table::new();
    let zob = Zobrist::new();
    let (m, _, done) = AlphaBeta::iterative_deepening(fen, 4, Color2::White, None, &ctx(60000, GameStage::Endgame, true), &mut tt, &zob);
    assert!(done);
    let mv = mv_text(m.unwrap());
    let after = update_position(fen, &mv).unwrap();
    let before_count = categorize_moves(&fen.replace(" w ", " b "), None, Color2::Black).len();
    let after_count = categorize_moves(&after, None, Color2::Black).len();
    assert!(after_count < before_count);
}

#[test]
fn alpha_beta_full_window_matches_negamax() {
    let fens = [
        "6k1/5ppp/8/8/8/8/5PPP/R5K1 w - - 0 1",
        "k7/8/8/3q4/8/2N5/8/K7 w - - 0 1",
        "r1bqkbnr/pppp1ppp/2n5/4p3/4P3/5N2/PPPP1PPP/RNBQKB1R w - - 2 3",
    ];
    for fen in fens {
        for depth in 0..3 {
            let mut tt = transposition_table::new();
            let zob = Zobrist::new();
            let (v, done) = AlphaBeta::alpha_beta_search(fen, depth, -INF, INF, Color2::White, &ctx(60000, GameStage::Middlegame, false), &mut tt, &zob);
            assert!(done);
            assert_eq!(v, reference_negamax(fen, depth, Color2::White, GameStage::Middlegame));
            assert_eq!(tt.len(), 0);
        }
    }
}

#[test]
fn alpha_beta_window_bounds() {
    let fen = "k7/8/8/3q4/8/2N5/8/K7 w - - 0 1";
    let truth = reference_negamax(fen, 2, Color2::White, GameStage::Middlegame);
    let windows = [(truth - 5, truth + 5), (truth + 1, truth + 10), (truth - 10, truth - 1), (truth, truth + 1)];
    for (a, b) in windows {
        let mut tt = transposition_table::new();
        let zob = Zobrist::new();
        let (v, done) = AlphaBeta::alpha_beta_search(fen, 2, a, b, Color2::White, &ctx(60000, GameStage::Middlegame, false), &mut tt, &zob);
        assert!(done);
        if v <= a {
            assert!(truth <= v);
        } else if v >= b {
            assert!(truth >= v);
        } else {
            assert_eq!(v, truth);
        }
    }
}

#[test]
fn ordering_puts_hash_move_then_checks_then_captures() {
    let fen = "k7/8/8/3q4/8/2N5/8/K7 w - - 0 1";
    let plain = categorize_moves(fen, None, Color2::White);
    // Knight takes queen is the only capture; no move gives check.
    let capture = Mv { from: 18, to: 35, promotion: 0 };
    assert_eq!(plain[0], capture);
    let hashed = categorize_moves(fen, Some(Mv { from: 0, to: 1, promotion: 0 }), Color2::White);
    assert_eq!(hashed[0], Mv { from: 0, to: 1, promotion: 0 });
    assert_eq!(hashed[1], capture);
    assert_eq!(hashed.len(), plain.len());
    assert!(categorize_moves(fen, None, Color2::Black).is_empty());
    // Rook to h8 is the only check.
    let checking = categorize_moves("k7/8/8/8/8/8/8/K6R w - - 0 1", None, Color2::White);
    assert_eq!(checking[0], Mv { from: 7, to: 63, promotion: 0 });
}

#[test]
fn table_replacement_policy() {
    let mut tt = transposition_table::new();
    let e = |score: i32, depth: i32, flag: flag_type| Entry { score, depth, flag, best_move: None };
    tt.store(7, e(1, 3, flag_type::Lower));
    assert_eq!(tt.get(7).unwrap().score, 1);
    tt.store(7, e(2, 2, flag_type::Exact));
    assert_eq!(tt.get(7).unwrap().score, 1);
    tt.store(7, e(3, 3, flag_type::Exact));
    assert_eq!(tt.get(7).unwrap().score, 3);
    tt.store(7, e(4, 3, flag_type::Upper));
    assert_eq!(tt.get(7).unwrap().score, 3);
    tt.store(7, e(5, 3, flag_type::Exact));
    assert_eq!(tt.get(7).unwrap().score, 5);
    tt.store(7, e(6, 4, flag_type::Upper));
    assert_eq!(tt.get(7).unwrap().score, 6);
    assert!(tt.get(8).is_none());
}

#[test]
fn table_capacity_is_kept() {
    let mut tt = transposition_table::with_capacity(2);
    let e = Entry { score: 0, depth: 1, flag: flag_type::Exact, best_move: None };
    tt.store(1, e);
    tt.store(2, e);
    tt.store(3, e);
    assert_eq!(tt.len(), 2);
    assert!(tt.get(3).is_none());
    tt.store(2, Entry { score: 9, depth: 2, flag: flag_type::Exact, best_move: None });
    assert_eq!(tt.len(), 2);
    assert_eq!(tt.get(2).unwrap().score, 9);
}

#[test]
fn zobrist_incremental_matches_full() {
    let z = Zobrist::new();
    let mut p = vec![0u8; 64];
    p[4] = 6;
    p[60] = 12;
    p[12] = 1;
    let h = z.hash_position(&p, Color2::White);
    let mut q = p.clone();
    q[12] = 0;
    q[20] = 1;
    assert_eq!(z.hash_position(&q, Color2::Black), z.update_hash(h, 12, 20, 1, Color2::White));
    assert_ne!(h, z.hash_position(&q, Color2::White));
    let mut r = q.clone();
    r[20] = 0;
    r[28] = 1;
    let h2 = z.update_hash(z.update_hash(h, 12, 20, 1, Color2::White), 20, 28, 1, Color2::Black);
    assert_eq!(z.hash_position(&r, Color2::White), h2);
    let mut s = p.clone();
    s[30] = 5;
    assert_eq!(z.hash_position(&s, Color2::White), z.replace_square(h, 30, 0, 5));
    assert_eq!(z.hash_position(&p, Color2::Black), z.flip_side(h));
    assert_eq!(z.piece_keys.len(), 768);
}

#[test]
fn castling_in_standard_text() {
    let fen = "r3k2r/8/8/8/8/8/8/R3K2R w KQkq - 0 1";
    assert_eq!(update_position(fen, "e1g1"), Ok("r3k2r/8/8/8/8/8/8/R4RK1 b kq - 1 1".to_string()));
    let mut p = vec![0u8; 64];
    p[4] = 6;
    p[7] = 4;
    p[0] = 4;
    p[60] = 12;
    p[56] = 10;
    assert_eq!(castling_to_standard(&p, Mv { from: 4, to: 7, promotion: 0 }), Mv { from: 4, to: 6, promotion: 0 });
    assert_eq!(castling_to_standard(&p, Mv { from: 4, to: 0, promotion: 0 }), Mv { from: 4, to: 2, promotion: 0 });
    assert_eq!(castling_to_standard(&p, Mv { from: 60, to: 56, promotion: 0 }), Mv { from: 60, to: 58, promotion: 0 });
    assert_eq!(castling_from_standard(&p, Mv { from: 4, to: 6, promotion: 0 }), Mv { from: 4, to: 7, promotion: 0 });
    assert_eq!(castling_from_standard(&p, Mv { from: 4, to: 5, promotion: 0 }), Mv { from: 4, to: 5, promotion: 0 });
}

#[test]
fn colour_swap_swaps_scores() {
    let fen = "7k/8/8/8/8/8/8/N3K3 w - - 0 1";
    let swapped = "n3k3/8/8/8/8/8/8/7K w - - 0 1";
    assert_eq!(evaluate(fen, GameStage::Middlegame), Some((1, -1)));
    assert_eq!(evaluate(swapped, GameStage::Middlegame), Some((-1, 1)));
    let pos = "r1bqkbnr/pppp1ppp/2n5/4p3/4P3/5N2/PPPP1PPP/RNBQKB1R w - - 2 3";
    let mirrored = "rnbqkb1r/pppp1ppp/5n2/4p3/4P3/2N5/PPPP1PPP/R1BQKBNR w - - 2 3";
    let (w, b) = evaluate(pos, GameStage::Endgame).unwrap();
    assert_eq!(evaluate(mirrored, GameStage::Endgame), Some((b, w)));
}

#[test]
fn driver_falls_back_to_first_ordered_move() {
    let fen = "k7/8/8/3q4/8/2N5/8/K7 w - - 0 1";
    let first = categorize_moves(fen, None, Color2::White)[0];
    let mut tt = transposition_table::new();
    let zob = Zobrist::new();
    assert_eq!(AlphaBeta::start_alpha_beta_search(fen, 0, true, Color2::White, GameStage::Middlegame, false, &mut tt, &zob), (Some(first), 0));
    assert_eq!(AlphaBeta::start_alpha_beta_search(fen, 60000, false, Color2::White, GameStage::Middlegame, false, &mut tt, &zob), (Some(first), 0));
    let (m, d) = AlphaBeta::start_alpha_beta_search(fen, 300, true, Color2::White, GameStage::Middlegame, false, &mut tt, &zob);
    assert!(d >= 1);
    assert_eq!(m, Some(Mv { from: 18, to: 35, promotion: 0 }));
}

#[test]
fn table_cutoff_returns_stored_score() {
    let fen = "k7/8/8/3q4/8/2N5/8/K7 w - - 0 1";
    let zob = Zobrist::new();
    let mut p = vec![0u8; 64];
    p[0] = 6;
    p[18] = 2;
    p[35] = 11;
    p[56] = 12;
    let key = zob.hash_position(&p, Color2::White);
    let mut tt = transposition_table::new();
    tt.store(key, Entry { score: 42, depth: 5, flag: flag_type::Exact, best_move: None });
    let (v, done) = AlphaBeta::alpha_beta_search(fen, 3, -INF, INF, Color2::White, &ctx(60000, GameStage::Middlegame, true), &mut tt, &zob);
    assert_eq!((v, done), (42, true));
    assert_eq!(tt.len(), 1);
    let mut fresh = transposition_table::new();
    let (v2, _) = AlphaBeta::alpha_beta_search(fen, 2, -INF, INF, Color2::White, &ctx(60000, GameStage::Middlegame, true), &mut fresh, &zob);
    let e = fresh.get(key).unwrap();
    assert_eq!((e.score, e.depth, e.flag), (v2, 2, flag_type::Exact));
}
