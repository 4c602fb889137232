use wizardbot_engine::context::Context;
use wizardbot_engine::eval::evaluate;
use wizardbot_engine::movegen::generate_legal_moves;
use wizardbot_engine::nnue::accum::compute_accumulator;
use wizardbot_engine::nnue::inference::{Network, NnueEvaluator};
use wizardbot_engine::nnue::layers::AffineLayer;
use wizardbot_engine::nnue::position::{Position as NnuePosition, BLACK, WHITE};
use wizardbot_engine::nnue::transformer::FeatureTransformer;
use wizardbot_engine::position::{MoveList, Position};

/// A network with weights that follow a simple pattern.
fn patterned_network() -> NnueEvaluator {
    let mut feature_transformer = FeatureTransformer::new_zeroed();
    for (i, b) in feature_transformer.biases.iter_mut().enumerate() {
        *b = (i % 61) as i16;
    }
    for (i, w) in feature_transformer.weights.iter_mut().enumerate() {
        *w = (i % 37) as i16 - 18;
    }
    for (i, w) in feature_transformer.psqt_weights.iter_mut().enumerate() {
        *w = (i % 1009) as i32 - 504;
    }
    let mut networks = Vec::new();
    for k in 0..8usize {
        let mut net = Network::new_zeroed();
        for (i, w) in net.fc_0.weights.iter_mut().enumerate() {
            *w = ((i * 7 + k) % 11) as i8 - 5;
        }
        for (i, w) in net.fc_1.weights.iter_mut().enumerate() {
            *w = ((i * 5 + k) % 13) as i8 - 6;
        }
        for (i, w) in net.fc_2.weights.iter_mut().enumerate() {
            *w = ((i * 3 + k) % 17) as i8 - 8;
        }
        networks.push(net);
    }
    NnueEvaluator { feature_transformer, networks, description: String::from("pattern") }
}

fn assert_round_trip(fen: &str) {
    let ctx = Context::new(Some(patterned_network()));
    let mut pos = Position::from_fen(&ctx, fen).expect("valid FEN");
    assert!(pos.is_playable());
    let mut list = MoveList::new();
    generate_legal_moves(&pos, &mut list);
    for &m in list.as_slice() {
        let before_white = pos.nnue_accum[0].accumulation;
        let before_white_psqt = pos.nnue_accum[0].psqt_accumulation;
        let before_black = pos.nnue_accum[1].accumulation;
        let before_black_psqt = pos.nnue_accum[1].psqt_accumulation;
        pos.make_move(m);
        assert!(pos.is_consistent(), "accumulators out of step after {} on {}", m.to_uci(), fen);
        pos.unmake_move(m);
        assert_eq!(pos.nnue_accum[0].accumulation, before_white, "{} on {}", m.to_uci(), fen);
        assert_eq!(
            pos.nnue_accum[0].psqt_accumulation, before_white_psqt,
            "{} on {}",
            m.to_uci(),
            fen
        );
        assert_eq!(pos.nnue_accum[1].accumulation, before_black, "{} on {}", m.to_uci(), fen);
        assert_eq!(
            pos.nnue_accum[1].psqt_accumulation, before_black_psqt,
            "{} on {}",
            m.to_uci(),
            fen
        );
    }
}

#[test]
fn round_trip_startpos() {
    assert_round_trip("rnbqkbnr/pppppppp/8/8/8/8/PPPPPPPP/RNBQKBNR w KQkq - 0 1");
}

#[test]
fn round_trip_castling_rights_available() {
    assert_round_trip("r3k2r/pppq1ppp/2n1bn2/2bpp3/2BPP3/2N1BN2/PPPQ1PPP/R3K2R w KQkq - 4 8");
}

#[test]
fn round_trip_en_passant_available() {
    assert_round_trip("rnbqkbnr/ppp1p1pp/8/3pPp2/8/8/PPPP1PPP/RNBQKBNR w KQkq f6 0 4");
}

#[test]
fn round_trip_promotion_available() {
    assert_round_trip("8/1P6/2k5/8/8/2K5/6p1/8 w - - 0 1");
}

#[test]
fn round_trip_king_in_center() {
    assert_round_trip("8/8/4k3/8/4K3/8/8/8 w - - 0 1");
}

const VALIDATION_FENS: [&str; 10] = [
    "rnbqkbnr/pppppppp/8/8/8/8/PPPPPPPP/RNBQKBNR w KQkq - 0 1",
    "r1bqkbnr/1ppp1ppp/p1n5/1B2p3/4P3/5N2/PPPP1PPP/RNBQK2R w KQkq - 0 4",
    "r2q1rk1/1p1nbppp/p2pbn2/4p3/4P3/1NN1B3/PPPQBPPP/R4RK1 w - - 8 11",
    "4k3/1p6/8/8/3Q4/8/6P1/K7 w - - 0 1",
    "4k3/2p5/8/8/3R4/8/6P1/7K w - - 0 1",
    "k7/6p1/8/3q4/8/8/1P6/4K3 b - - 0 1",
    "7k/6p1/8/3r4/8/8/2P5/4K3 b - - 0 1",
    "4k2r/pp3ppp/8/8/8/8/PP3PPP/R3K3 w - - 0 1",
    "4k3/8/8/8/4P3/8/8/4K3 w - - 0 1",
    "rnbq1rk1/p1p1bpp1/1p2pn1p/3p4/2PP3B/2N1PN2/PP3PPP/R2QKB1R w KQ - 0 8",
];

const VALIDATION_SCORES: [(i32, &str); 10] = [
    (85, "startpos"),
    (102, "early_opening"),
    (46, "middlegame"),
    (2565, "king_a1"),
    (2567, "king_h1"),
    (2565, "king_a8"),
    (2567, "king_h8"),
    (75, "queenless_endgame"),
    (4, "sparse_endgame"),
    (183, "many_pieces_pos"),
];

#[test]
fn nnue_validation_10_fens() {
    let evaluator = patterned_network();
    println!("{:25} {:>10} {:>12} {:>10}", "FEN case", "expected", "nnue_eval", "delta");
    for (fen, (expected, name)) in VALIDATION_FENS.iter().zip(VALIDATION_SCORES) {
        let pos = NnuePosition::from_fen(fen).expect("bad fen");
        let val = evaluator.evaluate(&pos);
        println!("{:25} {:>10} {:>12} {:>10}", name, expected, val, val - expected);
    }
}

#[test]
fn both_evaluation_paths_agree() {
    let direct = patterned_network();
    let ctx = Context::new(Some(patterned_network()));
    for fen in VALIDATION_FENS {
        let raw = direct.evaluate(&NnuePosition::from_fen(fen).unwrap());
        let pos = Position::from_fen(&ctx, fen).unwrap();
        assert_eq!(evaluate(&pos, None), raw * 100 / 328, "{}", fen);
    }
}

/// One layer, row by row, the rows padded to a multiple of 32.
fn affine(layer: &AffineLayer, input: &[u8], rows: usize) -> Vec<i64> {
    let width = (input.len() + 31) / 32 * 32;
    (0..rows)
        .map(|r| {
            let mut sum = layer.biases[r] as i64;
            for (i, x) in input.iter().enumerate() {
                sum += layer.weights[r * width + i] as i64 * *x as i64;
            }
            sum
        })
        .collect()
}

fn clipped(v: &[i64]) -> Vec<u8> {
    v.iter().map(|x| (x >> 6).clamp(0, 127) as u8).collect()
}

#[test]
fn network_output_is_the_layers_one_after_the_other() {
    let evaluator = patterned_network();
    for fen in VALIDATION_FENS {
        let pos = NnuePosition::from_fen(fen).unwrap();
        let white = compute_accumulator(&evaluator.feature_transformer, &pos, WHITE);
        let black = compute_accumulator(&evaluator.feature_transformer, &pos, BLACK);
        let (us, them) =
            if pos.side_to_move == WHITE { (&white, &black) } else { (&black, &white) };
        let bucket = (pos.count_all_pieces() as usize - 1) / 4;
        let psqt =
            (us.psqt_accumulation[bucket] as i64 - them.psqt_accumulation[bucket] as i64) / 2;
        let mut features = Vec::new();
        for acc in [us, them] {
            for j in 0..768 {
                let a = acc.accumulation[j].clamp(0, 127) as i32;
                let b = acc.accumulation[j + 768].clamp(0, 127) as i32;
                features.push((a * b / 128) as u8);
            }
        }
        let net = &evaluator.networks[bucket];
        let first = affine(&net.fc_0, &features, 16);
        let mut middle: Vec<u8> =
            first[..15].iter().map(|x| ((x * x) >> 19).min(127) as u8).collect();
        middle.extend(clipped(&first[..15]));
        let second = clipped(&affine(&net.fc_1, &middle, 32));
        let last = affine(&net.fc_2, &second, 1)[0] + first[15] * 9600 / (127 * 64);
        assert_eq!(evaluator.evaluate(&pos) as i64, (psqt + last) / 16, "{}", fen);
    }
}

#[test]
fn colour_flip_keeps_the_score() {
    let evaluator = patterned_network();
    let score = |fen: &str| evaluator.evaluate(&NnuePosition::from_fen(fen).unwrap());
    for (a, b) in [
        ("4k3/1p6/8/8/3Q4/8/6P1/K7 w - - 0 1", "k7/6p1/8/3q4/8/8/1P6/4K3 b - - 0 1"),
        ("4k3/2p5/8/8/3R4/8/6P1/7K w - - 0 1", "7k/6p1/8/3r4/8/8/2P5/4K3 b - - 0 1"),
        (
            "r1bqkbnr/1ppp1ppp/p1n5/1B2p3/4P3/5N2/PPPP1PPP/RNBQK2R w KQkq - 0 4",
            "rnbqk2r/pppp1ppp/5n2/4p3/1b2P3/P1N5/1PPP1PPP/R1BQKBNR b KQkq - 0 4",
        ),
    ] {
        assert_eq!(score(a), score(b), "{}", a);
    }
}

#[test]
fn passing_leaves_the_accumulators_alone() {
    let ctx = Context::new(None);
    let mut pos = Position::startpos(&ctx);
    pos.nnue_accum[0].accumulation[5] = 77;
    let ep = pos.make_null_move();
    assert_eq!(pos.nnue_accum[0].accumulation[5], 77);
    pos.unmake_null_move(ep);
    assert_eq!(pos.nnue_accum[0].accumulation[5], 77);
}
