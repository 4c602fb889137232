use wizardbot_engine::bitboard::sq;
use wizardbot_engine::context::Context;
use wizardbot_engine::movegen::{
    compute_checking_squares, generate_legal_moves, gives_check, is_in_check, perft, see,
};
use wizardbot_engine::position::{Move, MoveList, Position};
use wizardbot_engine::zobrist::compute_full;

fn moves_of(pos: &Position) -> Vec<Move> {
    let mut list = MoveList::new();
    generate_legal_moves(pos, &mut list);
    list.as_slice().to_vec()
}

fn set_up<'a>(ctx: &'a Context, fen: &str) -> Position<'a> {
    let pos = Position::from_fen(ctx, fen).unwrap();
    assert!(pos.is_playable());
    pos
}

#[test]
fn see_simple_undefended_capture() {
    let ctx = Context::new(None);
    let pos = set_up(&ctx, "k7/3r4/8/8/8/8/8/K2Q4 w - - 0 1");
    let m = moves_of(&pos)
        .into_iter()
        .find(|m| m.from_sq() == sq(0, 3) && m.to_sq() == sq(6, 3))
        .expect("Qd1xd7 should be a legal move");
    assert_eq!(see(&pos, m), 500);
}

#[test]
fn see_losing_queen_for_rook_pair() {
    let ctx = Context::new(None);
    let pos = set_up(&ctx, "k2r4/3r4/8/8/8/8/8/K2Q4 w - - 0 1");
    let m = moves_of(&pos)
        .into_iter()
        .find(|m| m.from_sq() == sq(0, 3) && m.to_sq() == sq(6, 3))
        .expect("Qd1xd7 should be a legal move");
    assert_eq!(see(&pos, m), -400);
}

#[test]
fn see_noncapture_is_zero() {
    let ctx = Context::new(None);
    let pos = Position::startpos(&ctx);
    let quiet = moves_of(&pos).into_iter().find(|m| !m.flag().is_capture()).unwrap();
    assert_eq!(see(&pos, quiet), 0);
}

#[test]
fn gives_check_discovered_check_matches_handoff_position() {
    let ctx = Context::new(None);
    let mut pos = set_up(&ctx, "4k3/6K1/2r4p/3N4/1p1R4/1P4PP/8/8 w - - 9 79");
    let nf6 = moves_of(&pos)
        .into_iter()
        .find(|m| m.from_sq() == sq(4, 3) && m.to_sq() == sq(5, 5))
        .expect("Nd5-f6 should be a legal move");
    let checking = compute_checking_squares(&pos, pos.side_to_move);
    assert!(gives_check(&pos, nf6, &checking));
    pos.make_move(nf6);
    assert!(is_in_check(&pos, pos.side_to_move));
}

#[test]
fn gives_check_direct_knight_check() {
    let ctx = Context::new(None);
    let mut pos = set_up(&ctx, "4k3/8/8/4n3/8/8/8/4K3 b - - 0 1");
    let nd3 = moves_of(&pos)
        .into_iter()
        .find(|m| m.from_sq() == sq(4, 4) && m.to_sq() == sq(2, 3))
        .expect("Ne5-d3 should be a legal move");
    let checking = compute_checking_squares(&pos, pos.side_to_move);
    assert!(gives_check(&pos, nd3, &checking));
    pos.make_move(nd3);
    assert!(is_in_check(&pos, pos.side_to_move));
}

#[test]
fn gives_check_quiet_non_checking_move_is_false() {
    let ctx = Context::new(None);
    let pos = Position::startpos(&ctx);
    let quiet = moves_of(&pos).into_iter().find(|m| !m.flag().is_capture()).unwrap();
    let checking = compute_checking_squares(&pos, pos.side_to_move);
    assert!(!gives_check(&pos, quiet, &checking));
}

#[test]
fn perft_startpos() {
    let ctx = Context::new(None);
    let mut pos = Position::startpos(&ctx);
    assert_eq!(perft(&mut pos, 1), 20);
    assert_eq!(perft(&mut pos, 2), 400);
    assert_eq!(perft(&mut pos, 3), 8902);
    assert_eq!(perft(&mut pos, 4), 197281);
}

#[test]
fn perft_kiwipete() {
    let ctx = Context::new(None);
    let mut pos = set_up(
        &ctx,
        "r3k2r/p1ppqpb1/bn2pnp1/3PN3/1p2P3/2N2Q1p/PPPBBPPP/R3K2R w KQkq - 0 1",
    );
    assert_eq!(perft(&mut pos, 1), 48);
    assert_eq!(perft(&mut pos, 2), 2039);
    assert_eq!(perft(&mut pos, 3), 97862);
}

#[test]
fn perft_position3() {
    let ctx = Context::new(None);
    let mut pos = set_up(&ctx, "8/2p5/3p4/KP5r/1R3p1k/8/4P1P1/8 w - - 0 1");
    assert_eq!(perft(&mut pos, 1), 14);
    assert_eq!(perft(&mut pos, 2), 191);
    assert_eq!(perft(&mut pos, 3), 2812);
    assert_eq!(perft(&mut pos, 4), 43238);
}

#[test]
fn perft_position4() {
    let ctx = Context::new(None);
    let mut pos = set_up(
        &ctx,
        "r3k2r/Pppp1ppp/1b3nbN/nP6/BBP1P3/q4N2/Pp1P2PP/R2Q1RK1 w kq - 0 1",
    );
    assert_eq!(perft(&mut pos, 1), 6);
    assert_eq!(perft(&mut pos, 2), 264);
    assert_eq!(perft(&mut pos, 3), 9467);
}

#[test]
fn perft_position5() {
    let ctx = Context::new(None);
    let mut pos = set_up(&ctx, "rnbq1k1r/pp1Pbppp/2p5/8/2B5/8/PPP1NnPP/RNBQK2R w KQ - 1 8");
    assert_eq!(perft(&mut pos, 1), 44);
    assert_eq!(perft(&mut pos, 2), 1486);
    assert_eq!(perft(&mut pos, 3), 62379);
}

#[test]
fn zobrist_roundtrip() {
    let ctx = Context::new(None);
    let mut pos = Position::startpos(&ctx);
    for m in moves_of(&pos) {
        let before = pos.zobrist_key;
        pos.make_move(m);
        let recomputed = compute_full(&pos);
        assert_eq!(pos.zobrist_key, recomputed, "mismatch after {:?}", m.to_uci());
        pos.unmake_move(m);
        assert_eq!(pos.zobrist_key, before);
    }
}
