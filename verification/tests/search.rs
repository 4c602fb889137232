use wizardbot_engine::context::Context;
use wizardbot_engine::double::rate;
use wizardbot_engine::eval::{classical_evaluate, evaluate, MATE_SCORE};
use wizardbot_engine::movegen::{compute_checking_squares, generate_legal_moves};
use wizardbot_engine::position::{Move, MoveFlag, MoveList, PieceType, Position};
use wizardbot_engine::search::deepening::{RootScore, RoundResult, FIRST_WINDOW};
use wizardbot_engine::search::helpers::{
    is_insufficient_material, score_from_tt, score_to_tt, terminal_score,
};
use wizardbot_engine::search::iterative_deepening::{
    gather, is_outside, judge_round, pick_root_moves, seed_repetitions, start_window, widen_window,
};
use wizardbot_engine::search::negamax::negamax;
use wizardbot_engine::search::ordering::{score_move, MoveOrderer};
use wizardbot_engine::search::quiescence::quiescence;
use wizardbot_engine::search::report::{extract_pv, DepthInfo};
use wizardbot_engine::search::thread_state::must_stop;
use wizardbot_engine::search::timing::{sum_spent, Spent};
use wizardbot_engine::search::{
    iterative_deepening, Bound, SearchLimits, SearchState, Signals, ThreadLocalSearch,
    TranspositionTable,
};
use wizardbot_engine::single::mix;

const LATER: u64 = u64::MAX;

fn set_up<'a>(ctx: &'a Context, fen: &str) -> Position<'a> {
    let pos = Position::from_fen(ctx, fen).unwrap();
    assert!(pos.is_playable(), "{}", fen);
    pos
}

fn moves_of(pos: &Position) -> MoveList {
    let mut list = MoveList::new();
    generate_legal_moves(pos, &mut list);
    list
}

fn fresh<'s>(signals: &'s Signals) -> SearchState<'s> {
    let mut state = SearchState::new(signals);
    state.local.deadline_ms = LATER;
    state
}

fn best(fen: &str, depth: i32) -> (String, i32) {
    let ctx = Context::new(None);
    let signals = Signals::new();
    let mut pos = set_up(&ctx, fen);
    let key = pos.zobrist_key;
    let mut state = SearchState::new(&signals);
    let token = signals.next_token();
    let limits = SearchLimits { max_depth: depth, deadline_ms: LATER };
    let found = iterative_deepening(&mut pos, &mut state, limits, token, &Vec::new());
    assert_eq!(pos.zobrist_key, key);
    assert!(!found.stopped);
    assert_eq!(found.depth, depth);
    assert_eq!(found.lines.len(), depth as usize);
    (found.best_move.to_uci(), found.score)
}

#[test]
fn mates_in_one_are_found() {
    assert_eq!(best("6k1/5ppp/8/8/8/8/8/4R2K w - - 0 1", 4), (String::from("e1e8"), MATE_SCORE - 1));
    assert_eq!(best("k7/8/8/8/8/8/1R6/2R3K1 w - - 0 1", 3), (String::from("c1a1"), MATE_SCORE - 1));
}

#[test]
fn hanging_queen_is_taken() {
    let (m, score) = best("4k3/8/8/3q4/4P3/8/8/4K3 w - - 0 1", 4);
    assert_eq!(m, "e4d5");
    assert!(score > 0);
}

#[test]
fn no_legal_move_gives_the_null_move() {
    let ctx = Context::new(None);
    let signals = Signals::new();
    let mut pos = set_up(&ctx, "7k/5Q2/6K1/8/8/8/8/8 b - - 0 1");
    let mut state = SearchState::new(&signals);
    let token = signals.next_token();
    let limits = SearchLimits { max_depth: 3, deadline_ms: LATER };
    let found = iterative_deepening(&mut pos, &mut state, limits, token, &Vec::new());
    assert!(found.best_move.is_null());
    assert!(found.lines.is_empty());
}

#[test]
fn past_deadline_gives_the_first_move() {
    let ctx = Context::new(None);
    let signals = Signals::new();
    let mut pos = Position::startpos(&ctx);
    let first = moves_of(&pos).as_slice()[0];
    let mut state = SearchState::new(&signals);
    let token = signals.next_token();
    let limits = SearchLimits { max_depth: 5, deadline_ms: 0 };
    let found = iterative_deepening(&mut pos, &mut state, limits, token, &Vec::new());
    assert_eq!(found.best_move, first);
    assert_eq!(found.depth, 0);
}

#[test]
fn old_token_ends_the_search() {
    let ctx = Context::new(None);
    let signals = Signals::new();
    let mut pos = Position::startpos(&ctx);
    let mut state = SearchState::new(&signals);
    let token = signals.next_token();
    let _ = signals.next_token();
    let limits = SearchLimits { max_depth: 5, deadline_ms: LATER };
    let found = iterative_deepening(&mut pos, &mut state, limits, token, &Vec::new());
    assert_eq!(found.depth, 0);
}

#[test]
fn book_moves_are_preferred_at_the_root() {
    let ctx = Context::new(None);
    let signals = Signals::new();
    let mut pos = Position::startpos(&ctx);
    let mut state = SearchState::new(&signals);
    let token = signals.next_token();
    let limits = SearchLimits { max_depth: 2, deadline_ms: LATER };
    let book = vec![String::from("a2a3")];
    let found = iterative_deepening(&mut pos, &mut state, limits, token, &book);
    assert_eq!(found.best_move.to_uci(), "a2a3");
    let list = moves_of(&pos);
    assert_eq!(pick_root_moves(&list, &vec![String::from("x")]).len(), 20);
    assert_eq!(pick_root_moves(&list, &vec![String::from("e2e4"), String::from("d2d4")]).len(), 2);
}

#[test]
fn search_is_reproducible() {
    let fen = "r3k2r/p1ppqpb1/bn2pnp1/3PN3/1p2P3/2N2Q1p/PPPBBPPP/R3K2R w KQkq - 0 1";
    assert_eq!(best(fen, 3), best(fen, 3));
}

#[test]
fn negamax_scores_finished_games() {
    let ctx = Context::new(None);
    let signals = Signals::new();
    let mut state = fresh(&signals);
    let null = Move::null();
    let mut mated = set_up(&ctx, "R5k1/5ppp/8/8/8/8/8/7K b - - 0 1");
    let s = negamax(&mut mated, &mut state, 3, -MATE_SCORE, MATE_SCORE, 4, null, null, 0);
    assert_eq!(s, -(MATE_SCORE - 4));
    let mut stale = set_up(&ctx, "7k/5Q2/6K1/8/8/8/8/8 b - - 0 1");
    let s = negamax(&mut stale, &mut state, 3, -MATE_SCORE, MATE_SCORE, 2, null, null, 0);
    assert_eq!(s, 0);
    let mut bare = set_up(&ctx, "8/8/4k3/8/8/4K3/8/8 w - - 0 1");
    let s = negamax(&mut bare, &mut state, 3, -MATE_SCORE, MATE_SCORE, 2, null, null, 0);
    assert_eq!(s, 0);
    let mut fifty = set_up(&ctx, "8/8/4k3/8/8/4K3/R7/8 w - - 100 80");
    let s = negamax(&mut fifty, &mut state, 3, -MATE_SCORE, MATE_SCORE, 2, null, null, 0);
    assert_eq!(s, 0);
}

#[test]
fn quiescence_stands_pat_or_takes() {
    let ctx = Context::new(None);
    let signals = Signals::new();
    let mut state = fresh(&signals);
    let mut quiet = set_up(&ctx, "4k3/8/8/8/8/8/PPPP4/4K3 w - - 0 1");
    let stand = evaluate(&quiet, None);
    let s = quiescence(&mut quiet, &mut state, -MATE_SCORE, MATE_SCORE, 6, true, 0);
    assert_eq!(s, stand);
    let mut hanging = set_up(&ctx, "4k3/8/8/3q4/4P3/8/8/4K3 w - - 0 1");
    let s = quiescence(&mut hanging, &mut state, -MATE_SCORE, MATE_SCORE, 6, true, 0);
    assert!(s > evaluate(&hanging, None));
    assert!(state.nodes() > 1);
}

#[test]
fn insufficient_material_is_recognised() {
    let ctx = Context::new(None);
    for (fen, expected) in [
        ("8/8/4k3/8/8/4K3/8/8 w - - 0 1", true),
        ("8/8/4k3/8/8/4K3/8/6B1 w - - 0 1", true),
        ("8/8/4k3/8/8/4K3/8/6N1 w - - 0 1", true),
        ("8/8/4k3/8/8/4K3/8/6R1 w - - 0 1", false),
        ("8/8/4k3/2b5/8/4K3/8/6B1 w - - 0 1", true),
        ("8/8/4k3/3b4/8/4K3/8/6B1 w - - 0 1", false),
        ("8/8/4k3/2n5/8/4K3/8/6N1 w - - 0 1", false),
    ] {
        assert_eq!(is_insufficient_material(&set_up(&ctx, fen)), expected, "{}", fen);
    }
}

#[test]
fn repetitions_are_draws() {
    let ctx = Context::new(None);
    let signals = Signals::new();
    let mut state = fresh(&signals);
    let pos = set_up(&ctx, "8/8/4k3/8/8/4K3/R7/8 w - - 6 40");
    assert_eq!(terminal_score(&pos, &state, 1, true), None);
    state.push_rep(pos.zobrist_key);
    state.push_rep(1);
    assert_eq!(terminal_score(&pos, &state, 1, true), None);
    state.push_rep(pos.zobrist_key);
    assert_eq!(terminal_score(&pos, &state, 1, true), Some(0));
    assert!(!state.is_search_repetition(pos.zobrist_key, 2));
    state.pop_rep();
    assert!(!state.is_search_repetition(pos.zobrist_key, 6));
}

#[test]
fn mate_scores_survive_the_table() {
    for score in [0, 35, -900, MATE_SCORE - 7, -(MATE_SCORE - 12)] {
        for ply in [0, 1, 40] {
            assert_eq!(score_from_tt(score_to_tt(score, ply), ply), score);
        }
    }
    assert_eq!(score_to_tt(MATE_SCORE - 7, 3), MATE_SCORE - 4);
    assert_eq!(score_to_tt(-(MATE_SCORE - 7), 3), -(MATE_SCORE - 4));
}

#[test]
fn table_gives_back_what_was_stored() {
    let mut tt = TranspositionTable::new(1);
    assert_eq!(tt.buckets.len(), 16384);
    assert!(tt.probe(77).is_none());
    let m = Move::new(12, 28, MoveFlag::DoublePawnPush, PieceType::Pawn, PieceType::NoPiece);
    tt.store(77, 5, 30, Bound::Exact, m);
    let e = tt.probe(77).unwrap();
    assert_eq!((e.depth, e.score, e.bound, e.best_move), (5, 30, Bound::Exact, m));
    // A shallower bound does not replace a deeper entry of the same generation.
    tt.store(77, 3, 10, Bound::Lower, m);
    assert_eq!(tt.probe(77).unwrap().depth, 5);
    tt.new_generation();
    tt.store(77, 3, 10, Bound::Lower, m);
    assert_eq!(tt.probe(77).unwrap().depth, 3);
}

#[test]
fn full_bucket_loses_its_shallowest_entry() {
    let mut tt = TranspositionTable::new(0);
    let n = tt.buckets.len() as u64;
    assert_eq!(n, 4096);
    let null = Move::null();
    for (i, depth) in [7, 2, 9, 4].into_iter().enumerate() {
        tt.store(3 + n * i as u64, depth, 0, Bound::Exact, null);
    }
    tt.store(3 + n * 9, 1, 5, Bound::Exact, null);
    assert!(tt.probe(3 + n).is_none());
    assert!(tt.probe(3).is_some());
    assert_eq!(tt.probe(3 + n * 9).unwrap().score, 5);
}

#[test]
fn orderer_hands_out_moves_by_score() {
    let ctx = Context::new(None);
    let pos = set_up(&ctx, "r3k2r/p1ppqpb1/bn2pnp1/3PN3/1p2P3/2N2Q1p/PPPBBPPP/R3K2R w KQkq - 0 1");
    let mut list = moves_of(&pos);
    let all = list.as_slice().to_vec();
    let local = ThreadLocalSearch::new();
    let checking = compute_checking_squares(&pos, pos.side_to_move);
    let tt_move = all[20];
    let killers = [all[5], all[6]];
    let score = |m: Move| {
        score_move(&pos, m, tt_move, &killers, Move::null(), &local.history, &checking)
    };
    assert_eq!(score(tt_move), 1_000_000);
    let mut orderer =
        MoveOrderer::new(&pos, &list, tt_move, &killers, Move::null(), &local.history, &checking);
    let mut last = i32::MAX;
    let mut seen = Vec::new();
    while let Some((i, m)) = orderer.next_move(&mut list) {
        assert_eq!(i, seen.len());
        assert_eq!(list.as_slice()[i], m);
        assert_eq!(&list.as_slice()[..i], &seen[..]);
        assert!(score(m) <= last);
        last = score(m);
        seen.push(m);
    }
    assert_eq!(seen[0], tt_move);
    assert_eq!(seen.len(), all.len());
    for m in all {
        assert!(seen.contains(&m));
    }
}

#[test]
fn ordering_scores() {
    let ctx = Context::new(None);
    let pos = set_up(&ctx, "k7/3r4/8/8/8/8/8/K2Q4 w - - 0 1");
    let list = moves_of(&pos);
    let find = |t: &str| list.as_slice().iter().copied().find(|m| m.to_uci() == t).unwrap();
    let mut local = ThreadLocalSearch::new();
    local.history[3][2] = 17;
    let checking = compute_checking_squares(&pos, pos.side_to_move);
    let null = Move::null();
    let killers = [find("d1e1"), find("d1f1")];
    let score = |m: Move| {
        score_move(&pos, m, null, &killers, find("d1b1"), &local.history, &checking)
    };
    assert_eq!(score(find("d1d7")), 500_500);
    assert_eq!(score(find("d1e1")), 90_000);
    assert_eq!(score(find("d1f1")), 89_000);
    assert_eq!(score(find("d1b1")), 88_000);
    assert_eq!(score(find("d1a4")), 50_000);
    assert_eq!(score(find("d1c1")), 17);
}

#[test]
fn windows_widen() {
    assert_eq!(start_window(2, 10), (-MATE_SCORE, MATE_SCORE));
    assert_eq!(start_window(3, 10), (-40, 60));
    assert_eq!(start_window(9, MATE_SCORE - 5), (-MATE_SCORE, MATE_SCORE));
    assert_eq!(FIRST_WINDOW, 50);
    assert_eq!(widen_window(50, 10), (200, -190, 210));
    assert_eq!(widen_window(800, 10), (3200, -MATE_SCORE, MATE_SCORE));
    assert!(is_outside(3, 10, 60, 50, 60, 60));
    assert!(is_outside(3, 10, -40, 50, -40, 60));
    assert!(!is_outside(3, 10, 20, 50, 20, 60));
    assert!(!is_outside(2, 10, 60, 50, 60, 60));
}

#[test]
fn stopped_moves_do_not_count() {
    let a = Move::new(0, 1, MoveFlag::Quiet, PieceType::Rook, PieceType::NoPiece);
    let b = Move::new(0, 2, MoveFlag::Quiet, PieceType::Rook, PieceType::NoPiece);
    let c = Move::new(0, 3, MoveFlag::Quiet, PieceType::Rook, PieceType::NoPiece);
    let results = vec![
        RootScore { m: a, score: 20, stopped: false },
        RootScore { m: b, score: 900, stopped: true },
        RootScore { m: c, score: 20, stopped: false },
    ];
    let g = gather(&results, c, b, -50);
    assert_eq!((g.best_move, g.best_score, g.alpha), (a, 20, 20));
    assert!(g.valid && g.any_stopped && g.incumbent_starved);
    let g = gather(&vec![RootScore { m: b, score: 9, stopped: true }], c, a, -50);
    assert!(!g.valid && g.any_stopped && !g.incumbent_starved);
    assert_eq!(g.best_move, c);
}

#[test]
fn repetition_seed_goes_back_to_the_last_irreversible_move() {
    let ctx = Context::new(None);
    let mut pos = Position::startpos(&ctx);
    let mut keys = vec![pos.zobrist_key];
    for text in ["e2e4", "e7e5", "g1f3", "g8f6"] {
        let m = moves_of(&pos).as_slice().iter().copied().find(|m| m.to_uci() == text).unwrap();
        pos.make_move(m);
        keys.push(pos.zobrist_key);
    }
    assert_eq!(seed_repetitions(&pos), keys[3..].to_vec());
}

#[test]
fn expected_line_follows_the_table() {
    let ctx = Context::new(None);
    let signals = Signals::new();
    let mut state = fresh(&signals);
    let pos = Position::startpos(&ctx);
    let e4 = moves_of(&pos).as_slice().iter().copied().find(|m| m.to_uci() == "e2e4").unwrap();
    let mut walk = pos.duplicate();
    walk.make_move(e4);
    let e5 = moves_of(&walk).as_slice().iter().copied().find(|m| m.to_uci() == "e7e5").unwrap();
    assert_eq!(extract_pv(&pos, &state.shared, e4, 4), vec![e4]);
    state.shared.store(walk.zobrist_key, 3, 0, Bound::Lower, e5);
    assert_eq!(extract_pv(&pos, &state.shared, e4, 4), vec![e4]);
    state.shared.store(walk.zobrist_key, 3, 0, Bound::Exact, e5);
    assert_eq!(extract_pv(&pos, &state.shared, e4, 4), vec![e4, e5]);
    assert_eq!(extract_pv(&pos, &state.shared, e4, 1), vec![e4]);
    assert!(extract_pv(&pos, &state.shared, Move::null(), 4).is_empty());
}

#[test]
fn info_lines_read_as_the_protocol_wants() {
    let m = Move::new(12, 28, MoveFlag::DoublePawnPush, PieceType::Pawn, PieceType::NoPiece);
    let n = Move::new(52, 36, MoveFlag::DoublePawnPush, PieceType::Pawn, PieceType::NoPiece);
    let spent = Spent { bookns: 1, ttns: 22, singns: 0, evalns: 333, probcutns: 4 };
    let end = " bookns 1 ttns 22 singns 0 evalns 333 probcutns 4";
    let info = DepthInfo { depth: 4, score: -31, nodes: 5000, elapsed_ms: 20, pv: vec![m, n], spent };
    assert_eq!(info.text(), format!("info depth 4 score cp -31 nodes 5000 nps 250000 time 20 pv e2e4 e7e5{}", end));
    let info = DepthInfo { depth: 6, score: MATE_SCORE - 3, nodes: 7, elapsed_ms: 1, pv: vec![m], spent };
    assert_eq!(info.text(), format!("info depth 6 score mate 2 nodes 7 nps 7000 time 1 pv e2e4{}", end));
    let info = DepthInfo { depth: 6, score: -MATE_SCORE + 2, nodes: 7, elapsed_ms: 1, pv: vec![m], spent };
    assert_eq!(info.text(), format!("info depth 6 score mate -1 nodes 7 nps 7000 time 1 pv e2e4{}", end));
    let info = DepthInfo { depth: 1, score: -MATE_SCORE, nodes: 0, elapsed_ms: 3, pv: vec![], spent };
    assert_eq!(info.text(), format!("info depth 1 score cp -32768 nodes 0 nps 0 time 3 pv (none){}", end));
}

#[test]
fn stopping_has_four_causes() {
    assert!(!must_stop(false, false, 4, 4, 10, 11));
    assert!(must_stop(true, false, 4, 4, 10, 11));
    assert!(must_stop(false, true, 4, 4, 10, 11));
    assert!(must_stop(false, false, 4, 5, 10, 11));
    assert!(must_stop(false, false, 4, 4, 11, 11));
}

#[test]
fn clock_is_looked_at_on_the_first_node_only_every_so_often() {
    let signals = Signals::new();
    let mut state = SearchState::new(&signals);
    state.local.go_token = signals.current_token();
    state.local.deadline_ms = LATER;
    for _ in 0..4094 {
        assert!(!state.visit());
    }
    state.local.deadline_ms = 0;
    assert!(!state.visit());
    assert_eq!(state.nodes(), 4095);
    assert!(!state.time_up());
    assert!(state.visit());
    assert_eq!(state.nodes(), 4096);
    assert!(state.visit());
    let mut state = SearchState::new(&signals);
    state.local.deadline_ms = 0;
    assert!(state.visit());
}

#[test]
fn stopped_search_gives_static_scores() {
    let ctx = Context::new(None);
    let signals = Signals::new();
    let mut pos = set_up(&ctx, "4k3/8/8/3q4/4P3/8/8/4K3 w - - 0 1");
    let stand = evaluate(&pos, None);
    let mut state = fresh(&signals);
    state.local.stopped = true;
    let null = Move::null();
    assert_eq!(negamax(&mut pos, &mut state, 5, -MATE_SCORE, MATE_SCORE, 1, null, null, 0), stand);
    assert_eq!(state.nodes(), 1);
    assert_eq!(quiescence(&mut pos, &mut state, -MATE_SCORE, MATE_SCORE, 6, true, 1), stand);
    assert_eq!(state.nodes(), 2);
    assert!(state.shared.probe(pos.zobrist_key).is_none());
}

#[test]
fn round_is_judged_by_its_searches_and_the_clock() {
    let g = RoundResult {
        best_move: Move::null(),
        best_score: 0,
        alpha: 0,
        valid: true,
        any_stopped: false,
        incumbent_starved: false,
    };
    let v = judge_round(&g, false, false);
    assert!(v.trusted && !v.stopped);
    let v = judge_round(&g, false, true);
    assert!(v.trusted && v.stopped);
    let v = judge_round(&g, true, false);
    assert!(v.trusted && v.stopped);
    let v = judge_round(&RoundResult { any_stopped: true, ..g }, false, false);
    assert!(v.trusted && v.stopped);
    let v = judge_round(&RoundResult { any_stopped: true, incumbent_starved: true, ..g }, false, false);
    assert!(!v.trusted && v.stopped);
    let v = judge_round(&RoundResult { valid: false, ..g }, false, false);
    assert!(!v.trusted && !v.stopped);
}

#[test]
fn mixing_agrees_with_single_precision() {
    let mut x: u64 = 88172645463325252;
    for i in 0..200_000u32 {
        x ^= x << 13;
        x ^= x >> 7;
        x ^= x << 17;
        let (a, b) = if i % 2 == 0 {
            ((x >> 32) as i32, x as i32)
        } else {
            ((x >> 32) as i32 % 200_001, x as i32 % 200_001)
        };
        let expected = ((a as f32) * 0.2695 + (b as f32) * 0.7305) as i32;
        assert_eq!(mix(a, b), expected, "{} {}", a, b);
    }
    assert_eq!(mix(400, 100), 180);
    assert_eq!(mix(i32::MIN, i32::MIN), ((i32::MIN as f32) * 0.2695 + (i32::MIN as f32) * 0.7305) as i32);
    assert_eq!(mix(i32::MAX, i32::MAX), ((i32::MAX as f32) * 0.2695 + (i32::MAX as f32) * 0.7305) as i32);
}

#[test]
fn classical_score_changes_sign_with_the_turn() {
    let ctx = Context::new(None);
    let white = set_up(&ctx, "4k3/8/8/8/8/8/PPPP4/4K3 w - - 0 1");
    let black = set_up(&ctx, "4k3/8/8/8/8/8/PPPP4/4K3 b - - 0 1");
    assert_eq!(classical_evaluate(&white), -classical_evaluate(&black));
    // Four pawns in an ending: 94 each, and their places on the second rank.
    let kings = -50 + 50 - 30 + 20;
    assert_eq!(kings, -10);
    assert!(classical_evaluate(&white) > 4 * 94);
}

#[test]
fn storing_leaves_other_buckets_alone() {
    let mut tt = TranspositionTable::new(1);
    let m = Move::new(1, 18, MoveFlag::Quiet, PieceType::Knight, PieceType::NoPiece);
    tt.store(5, 4, 11, Bound::Upper, m);
    for key in 6..40u64 {
        tt.store(key, 9, 0, Bound::Exact, Move::null());
    }
    let e = tt.probe(5).unwrap();
    assert_eq!((e.depth, e.score, e.bound, e.best_move), (4, 11, Bound::Upper, m));
}

#[test]
fn rates_agree_with_double_precision() {
    let expected = |n: u64, ms: u64| (n as f64 / (ms as f64 / 1000.0)) as u64;
    assert_eq!(rate(17, 17), 999);
    assert_eq!(rate(5000, 20), 250_000);
    assert_eq!(rate(0, 3), 0);
    let mut x: u64 = 88172645463325252;
    for i in 0..20_000u32 {
        x ^= x << 13;
        x ^= x >> 7;
        x ^= x << 17;
        let n = x >> (i % 64);
        x ^= x << 13;
        x ^= x >> 7;
        x ^= x << 17;
        let ms = (x >> ((i / 64) % 64)).max(1);
        assert_eq!(rate(n, ms), expected(n, ms), "{} {}", n, ms);
    }
    for n in 1..300u64 {
        for ms in 1..60u64 {
            assert_eq!(rate(n, ms), expected(n, ms), "{} {}", n, ms);
        }
    }
}

#[test]
fn times_are_added_up_over_the_root_moves() {
    let mut locals = vec![ThreadLocalSearch::new(), ThreadLocalSearch::new()];
    locals[0].time_in_tt_probe_ns = 5;
    locals[1].time_in_tt_probe_ns = 7;
    locals[1].time_in_probcut_ns = u64::MAX;
    locals[0].time_in_probcut_ns = 3;
    locals[0].time_in_static_eval_ns = 11;
    locals[1].time_in_singular_ext_ns = 13;
    let s = sum_spent(2, &locals);
    assert_eq!(s, Spent { bookns: 2, ttns: 12, singns: 13, evalns: 11, probcutns: 2 });
}

#[test]
fn searches_take_time() {
    let ctx = Context::new(None);
    let signals = Signals::new();
    let mut pos = set_up(&ctx, "r3k2r/p1ppqpb1/bn2pnp1/3PN3/1p2P3/2N2Q1p/PPPBBPPP/R3K2R w KQkq - 0 1");
    let mut state = fresh(&signals);
    let null = Move::null();
    negamax(&mut pos, &mut state, 4, -MATE_SCORE, MATE_SCORE, 1, null, null, 0);
    assert!(state.local.time_in_static_eval_ns > 0);
}

#[test]
fn search_leaves_the_table_that_it_filled() {
    let ctx = Context::new(None);
    let signals = Signals::new();
    let mut pos = Position::startpos(&ctx);
    let mut state = SearchState::new(&signals);
    let token = signals.next_token();
    let limits = SearchLimits { max_depth: 3, deadline_ms: LATER };
    let found = iterative_deepening(&mut pos, &mut state, limits, token, &Vec::new());
    assert_eq!(state.shared.tt.generation, 0);
    assert_eq!(state.nodes(), 0);
    assert!(state.shared.nodes_aggregate > 20);
    pos.make_move(found.best_move);
    assert!(state.shared.probe(pos.zobrist_key).is_some());
}
