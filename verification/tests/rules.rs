use wizardbot_engine::bitboard::{bit, sq};
use wizardbot_engine::context::Context;
use wizardbot_engine::exchange::see;
use wizardbot_engine::fen::FenError;
use wizardbot_engine::movegen::{
    attackers_of, compute_checking_squares, generate_legal_moves, generate_qsearch_captures,
    gives_check, is_in_check, perft,
};
use wizardbot_engine::position::{
    piece_value, Color, Move, MoveFlag, MoveList, PieceType, Position,
};
use wizardbot_engine::zobrist::{castling_key, compute_full, ep_file_key, piece_key, side_key};

const START: &str = "rnbqkbnr/pppppppp/8/8/8/8/PPPPPPPP/RNBQKBNR w KQkq - 0 1";

const POSITIONS: [&str; 8] = [
    START,
    "r3k2r/p1ppqpb1/bn2pnp1/3PN3/1p2P3/2N2Q1p/PPPBBPPP/R3K2R w KQkq - 0 1",
    "8/2p5/3p4/KP5r/1R3p1k/8/4P1P1/8 w - - 0 1",
    "r3k2r/Pppp1ppp/1b3nbN/nP6/BBP1P3/q4N2/Pp1P2PP/R2Q1RK1 w kq - 0 1",
    "rnbq1k1r/pp1Pbppp/2p5/8/2B5/8/PPP1NnPP/RNBQK2R w KQ - 1 8",
    "rnbqkbnr/ppp1p1pp/8/3pPp2/8/8/PPPP1PPP/RNBQKBNR w KQkq f6 0 4",
    "8/1P6/2k5/8/8/2K5/6p1/8 w - - 0 1",
    "r3k2r/8/8/8/8/8/8/R3K2R b KQkq - 3 9",
];

fn set_up<'a>(ctx: &'a Context, fen: &str) -> Position<'a> {
    let pos = Position::from_fen(ctx, fen).unwrap();
    assert!(pos.is_playable(), "{}", fen);
    pos
}

fn moves_of(pos: &Position) -> Vec<Move> {
    let mut list = MoveList::new();
    generate_legal_moves(pos, &mut list);
    list.as_slice().to_vec()
}

fn texts_of(pos: &Position) -> Vec<String> {
    moves_of(pos).iter().map(|m| m.to_uci()).collect()
}

#[test]
fn start_position_is_the_one_in_text() {
    let ctx = Context::new(None);
    let a = Position::startpos(&ctx);
    let b = set_up(&ctx, START);
    assert_eq!(a.mailbox, b.mailbox);
    assert_eq!(a.pieces, b.pieces);
    assert_eq!(a.occ, b.occ);
    assert_eq!(a.occ_all, b.occ_all);
    assert_eq!(a.king_square, b.king_square);
    assert_eq!(a.castling_rights, b.castling_rights);
    assert_eq!(a.ep_square, b.ep_square);
    assert_eq!(a.halfmove_clock, b.halfmove_clock);
    assert_eq!(a.fullmove_number, b.fullmove_number);
    assert_eq!(a.zobrist_key, b.zobrist_key);
}

#[test]
fn pawn_that_gives_check_can_be_taken_en_passant() {
    let ctx = Context::new(None);
    let pos = set_up(&ctx, "4k3/8/8/3pP3/4K3/8/8/8 w - d6 0 1");
    assert!(is_in_check(&pos, Color::White));
    assert!(texts_of(&pos).contains(&String::from("e5d6")));
}

#[test]
fn en_passant_that_uncovers_a_rook_is_not_legal() {
    let ctx = Context::new(None);
    let pos = set_up(&ctx, "4k3/8/8/K2pP2r/8/8/8/8 w - d6 0 1");
    assert!(!texts_of(&pos).contains(&String::from("e5d6")));
}

#[test]
fn senseless_en_passant_square_gives_no_capture() {
    let ctx = Context::new(None);
    let pos = set_up(&ctx, "rnb1kbnr/pppp1ppp/8/4p3/2P5/8/PP1P1PPP/RNBQKBNR b KQkq c6 0 1");
    assert!(moves_of(&pos).iter().all(|m| m.flag() != MoveFlag::EpCapture));
    assert!(texts_of(&pos).contains(&String::from("b7c6")) == false);
}

#[test]
fn start_position_has_twenty_moves_for_either_side() {
    let ctx = Context::new(None);
    assert_eq!(moves_of(&set_up(&ctx, START)).len(), 20);
    let black = "rnbqkbnr/pppppppp/8/8/8/8/PPPPPPPP/RNBQKBNR b KQkq - 0 1";
    assert_eq!(moves_of(&set_up(&ctx, black)).len(), 20);
}

#[test]
fn moves_are_listed_in_order() {
    let ctx = Context::new(None);
    let pos = set_up(&ctx, "r3k2r/8/8/8/8/8/6P1/R3K2R w KQ - 0 1");
    let texts = texts_of(&pos);
    assert_eq!(&texts[..5], &["e1d1", "e1f1", "e1d2", "e1e2", "e1f2"]);
    assert_eq!(&texts[5..7], &["g2g3", "g2g4"]);
    assert_eq!(&texts[texts.len() - 2..], &["e1g1", "e1c1"]);
}

#[test]
fn promotions_come_queen_first() {
    let ctx = Context::new(None);
    let pos = set_up(&ctx, "8/1P6/2k5/8/8/2K5/6p1/8 w - - 0 1");
    let texts = texts_of(&pos);
    let at = texts.iter().position(|t| t.len() == 5).unwrap();
    assert_eq!(&texts[at..at + 4], &["b7b8q", "b7b8r", "b7b8b", "b7b8n"]);
}

#[test]
fn making_and_taking_back_restores_everything() {
    let ctx = Context::new(None);
    for fen in POSITIONS {
        let mut pos = set_up(&ctx, fen);
        let before = pos.duplicate();
        for m in moves_of(&before) {
            pos.make_move(m);
            assert!(pos.is_playable(), "{} after {}", fen, m.to_uci());
            pos.unmake_move(m);
            assert_eq!(pos.pieces, before.pieces);
            assert_eq!(pos.occ, before.occ);
            assert_eq!(pos.occ_all, before.occ_all);
            assert_eq!(pos.mailbox, before.mailbox);
            assert_eq!(pos.side_to_move, before.side_to_move);
            assert_eq!(pos.castling_rights, before.castling_rights);
            assert_eq!(pos.ep_square, before.ep_square);
            assert_eq!(pos.halfmove_clock, before.halfmove_clock);
            assert_eq!(pos.fullmove_number, before.fullmove_number);
            assert_eq!(pos.king_square, before.king_square);
            assert_eq!(pos.zobrist_key, before.zobrist_key);
            assert_eq!(pos.undo_stack.len(), before.undo_stack.len());
        }
    }
}

#[test]
fn passing_and_taking_back_restores_everything() {
    let ctx = Context::new(None);
    let mut pos = set_up(&ctx, "rnbqkbnr/ppp1p1pp/8/3pPp2/8/8/PPPP1PPP/RNBQKBNR w KQkq f6 0 4");
    let key = pos.zobrist_key;
    let ep = pos.make_null_move();
    assert_eq!(ep, Some(45));
    assert_eq!(pos.ep_square, None);
    assert_eq!(pos.side_to_move, Color::Black);
    assert_eq!(pos.zobrist_key, compute_full(&pos));
    pos.unmake_null_move(ep);
    assert_eq!(pos.ep_square, Some(45));
    assert_eq!(pos.side_to_move, Color::White);
    assert_eq!(pos.zobrist_key, key);
}

#[test]
fn check_test_agrees_with_making_the_move() {
    let ctx = Context::new(None);
    for fen in POSITIONS {
        let mut pos = set_up(&ctx, fen);
        let checking = compute_checking_squares(&pos, pos.side_to_move);
        for m in moves_of(&pos) {
            let expected = gives_check(&pos, m, &checking);
            pos.make_move(m);
            assert_eq!(expected, is_in_check(&pos, pos.side_to_move), "{} {}", fen, m.to_uci());
            pos.unmake_move(m);
        }
    }
}

#[test]
fn castling_rook_gives_check() {
    let ctx = Context::new(None);
    let pos = set_up(&ctx, "5k2/8/8/8/8/8/8/4K2R w K - 0 1");
    let checking = compute_checking_squares(&pos, Color::White);
    let castle = moves_of(&pos).into_iter().find(|m| m.to_uci() == "e1g1").unwrap();
    assert_eq!(castle.flag(), MoveFlag::KingCastle);
    assert!(gives_check(&pos, castle, &checking));
}

#[test]
fn quiescence_captures_hold_every_legal_capture() {
    let ctx = Context::new(None);
    for fen in POSITIONS {
        let mut pos = set_up(&ctx, fen);
        let mut list = MoveList::new();
        generate_qsearch_captures(&mut pos, &mut list);
        for m in moves_of(&pos) {
            if m.flag().is_capture() {
                assert!(list.as_slice().contains(&m), "{} {}", fen, m.to_uci());
            }
        }
        for m in list.as_slice() {
            assert!(m.flag().is_capture());
        }
    }
}

#[test]
fn exchange_goes_on_while_it_pays() {
    let ctx = Context::new(None);
    // The bishop takes a rook; bishop, pawn and bishop follow on d5.
    let pos = set_up(&ctx, "k7/8/4b1b1/3r4/4P3/5B2/8/K7 w - - 0 1");
    let m = moves_of(&pos).into_iter().find(|m| m.to_uci() == "e4d5").unwrap();
    assert_eq!(see(&pos, m), 500);
    let pos = set_up(&ctx, "k7/8/2b1b3/3r4/2P5/5B2/8/K7 w - - 0 1");
    let m = moves_of(&pos).into_iter().find(|m| m.to_uci() == "f3d5").unwrap();
    assert_eq!(see(&pos, m), 400);
}

#[test]
fn en_passant_exchange_counts_a_pawn() {
    let ctx = Context::new(None);
    let pos = set_up(&ctx, "4k3/8/8/3pP3/8/8/8/4K3 w - d6 0 1");
    let m = moves_of(&pos).into_iter().find(|m| m.flag() == MoveFlag::EpCapture).unwrap();
    assert_eq!(see(&pos, m), 100);
}

#[test]
fn keys_are_those_of_the_generator() {
    fn next(state: &mut u64) -> u64 {
        *state = state.wrapping_add(0x9E37_79B9_7F4A_7C15);
        let mut z = *state;
        z = (z ^ (z >> 30)).wrapping_mul(0xBF58476D1CE4E5B9);
        z = (z ^ (z >> 27)).wrapping_mul(0x94D049BB133111EB);
        z ^ (z >> 31)
    }
    let ctx = Context::new(None);
    let mut state = 0x5EED_C0DE_F00D_1234u64;
    let kinds = [
        PieceType::Pawn,
        PieceType::Knight,
        PieceType::Bishop,
        PieceType::Rook,
        PieceType::Queen,
        PieceType::King,
    ];
    for color in [Color::White, Color::Black] {
        for kind in kinds {
            for s in 0..64u8 {
                assert_eq!(piece_key(&ctx.zobrist, color, kind, s), next(&mut state));
            }
        }
    }
    assert_eq!(side_key(&ctx.zobrist), next(&mut state));
    for rights in 0..16u8 {
        let k = next(&mut state);
        assert_eq!(castling_key(&ctx.zobrist, rights), k);
        assert_eq!(castling_key(&ctx.zobrist, rights | 0x30), k);
    }
    for file in 0..8u8 {
        let k = next(&mut state);
        assert_eq!(ep_file_key(&ctx.zobrist, file), k);
        assert_eq!(ep_file_key(&ctx.zobrist, file + 8), k);
    }
}

#[test]
fn attackers_look_through_removed_pieces() {
    let ctx = Context::new(None);
    let pos = set_up(&ctx, "k7/8/8/8/r1P4K/8/8/8 b - - 0 1");
    let h4 = sq(3, 7);
    assert_eq!(attackers_of(&pos, Color::Black, h4, pos.occ_all), 0);
    let without = pos.occ_all & !bit(sq(3, 2));
    assert_eq!(attackers_of(&pos, Color::Black, h4, without), bit(sq(3, 0)));
}

#[test]
fn perft_of_no_moves_is_one() {
    let ctx = Context::new(None);
    let mut pos = Position::startpos(&ctx);
    assert_eq!(perft(&mut pos, 0), 1);
    let mut mated = set_up(&ctx, "7k/6Q1/6K1/8/8/8/8/8 b - - 0 1");
    assert_eq!(perft(&mut mated, 3), 0);
}

#[test]
fn ill_formed_position_texts_are_refused() {
    let ctx = Context::new(None);
    let e = Position::from_fen(&ctx, "8/8/8/8 w -").err().unwrap();
    assert_eq!(e, FenError::TooFewFields);
    assert_eq!(e.message(), "FEN needs at least 4 fields");
    let e = Position::from_fen(&ctx, "8/8/8/8/8/8/8 w - -").err().unwrap();
    assert_eq!(e, FenError::WrongRankCount);
    assert_eq!(e.message(), "FEN board must have 8 ranks");
    let e = Position::from_fen(&ctx, "x7/8/8/8/8/8/8/8 w - -").err().unwrap();
    assert_eq!(e, FenError::BadPiece('x'));
    assert_eq!(e.message(), "bad piece char x");
    let e = Position::from_fen(&ctx, "8k/8/8/8/8/8/8/8 w - -").err().unwrap();
    assert_eq!(e, FenError::OffBoard);
}

#[test]
fn position_text_fields_are_read() {
    let ctx = Context::new(None);
    let pos = Position::from_fen(&ctx, "4k3/8/8/8/4P3/8/8/4K3 b Kq e3 +7 12").unwrap();
    assert_eq!(pos.side_to_move, Color::Black);
    assert_eq!(pos.castling_rights, 9);
    assert_eq!(pos.ep_square, Some(20));
    assert_eq!(pos.halfmove_clock, 7);
    assert_eq!(pos.fullmove_number, 12);
    assert_eq!(pos.king_square, [4, 60]);
    let pos = Position::from_fen(&ctx, "4k3/8/8/8/8/8/8/4K3 w - e x 70000").unwrap();
    assert_eq!(pos.ep_square, None);
    assert_eq!(pos.halfmove_clock, 0);
    assert_eq!(pos.fullmove_number, 1);
}

#[test]
fn positions_without_sense_are_not_playable() {
    let ctx = Context::new(None);
    // No black king; two white kings; the side that just moved is in check.
    for fen in [
        "8/8/8/8/8/8/8/4K3 w - - 0 1",
        "4k3/8/8/8/8/8/8/K3K3 w - - 0 1",
        "4k3/4R3/8/8/8/8/8/4K3 w - - 0 1",
        "8/8/8/3k4/3K4/8/8/8 w - - 0 1",
    ] {
        assert!(!Position::from_fen(&ctx, fen).unwrap().is_playable(), "{}", fen);
    }
}

#[test]
fn book_key_is_the_front_of_the_text_and_reads_back() {
    let ctx = Context::new(None);
    for fen in POSITIONS {
        let pos = set_up(&ctx, fen);
        let key = pos.book_key();
        let front: Vec<&str> = fen.split_whitespace().take(4).collect();
        assert_eq!(key, front.join(" "));
        let again = Position::from_fen(&ctx, &key).unwrap();
        assert_eq!(again.mailbox, pos.mailbox);
        assert_eq!(again.side_to_move, pos.side_to_move);
        assert_eq!(again.castling_rights, pos.castling_rights);
        assert_eq!(again.ep_square, pos.ep_square);
        assert_eq!(again.halfmove_clock, 0);
        assert_eq!(again.fullmove_number, 1);
    }
}

#[test]
fn half_moves_are_counted() {
    let ctx = Context::new(None);
    let mut pos = Position::startpos(&ctx);
    assert_eq!(pos.ply(), 0);
    let m = moves_of(&pos)[0];
    pos.make_move(m);
    assert_eq!(pos.ply(), 1);
    let pos = set_up(&ctx, "4k3/8/8/8/8/8/8/4K3 w - - 0 9");
    assert_eq!(pos.ply(), 16);
}

#[test]
fn officers_are_told_from_pawns() {
    let ctx = Context::new(None);
    let pos = set_up(&ctx, "4k3/pppp4/8/8/8/8/8/4KN2 w - - 0 1");
    assert!(pos.non_pawn_king_material(Color::White));
    assert!(!pos.non_pawn_king_material(Color::Black));
}

#[test]
fn moves_pack_and_unpack() {
    let m = Move::new(52, 61, MoveFlag::PromoCaptureN, PieceType::Pawn, PieceType::Bishop);
    assert_eq!(m.from_sq(), 52);
    assert_eq!(m.to_sq(), 61);
    assert_eq!(m.flag(), MoveFlag::PromoCaptureN);
    assert_eq!(m.piece(), PieceType::Pawn);
    assert_eq!(m.captured(), PieceType::Bishop);
    assert_eq!(m.to_uci(), "e7f8n");
    assert!(!m.is_null());
    assert!(Move::null().is_null());
}

#[test]
fn legal_moves_are_written_apart() {
    let ctx = Context::new(None);
    for fen in POSITIONS {
        let texts = texts_of(&set_up(&ctx, fen));
        for (i, a) in texts.iter().enumerate() {
            assert!(!texts[..i].contains(a), "{} {}", fen, a);
        }
    }
}

#[test]
fn exchange_stays_within_what_is_at_stake() {
    let ctx = Context::new(None);
    for fen in POSITIONS {
        let pos = set_up(&ctx, fen);
        for m in moves_of(&pos) {
            if m.flag().is_capture() {
                let v = see(&pos, m);
                assert!(v >= piece_value(m.captured()) - piece_value(m.piece()), "{} {}", fen, m.to_uci());
                assert!(v <= piece_value(m.captured()), "{} {}", fen, m.to_uci());
            }
        }
    }
}

#[test]
fn quiescence_captures_are_sound() {
    let ctx = Context::new(None);
    for fen in POSITIONS {
        let mut pos = set_up(&ctx, fen);
        let legal = moves_of(&pos);
        let mut list = MoveList::new();
        generate_qsearch_captures(&mut pos, &mut list);
        let all = list.as_slice();
        for (i, m) in all.iter().enumerate() {
            assert!(!all[..i].contains(m), "{} {}", fen, m.to_uci());
            assert_eq!(pos.piece_at(m.from_sq()), Some((pos.side_to_move, m.piece())));
            if m.piece() == PieceType::King {
                assert!(legal.contains(m), "{} {}", fen, m.to_uci());
            }
            if m.flag().is_promotion() {
                let same = |n: &&Move| n.from_sq() == m.from_sq() && n.to_sq() == m.to_sq();
                assert_eq!(all.iter().filter(same).count(), 4);
            }
        }
    }
}
