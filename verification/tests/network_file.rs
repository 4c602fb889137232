use wizardbot_engine::nnue::accum::{apply_feature, compute_accumulator};
use wizardbot_engine::nnue::features::{append_active_indices, make_index};
use wizardbot_engine::nnue::inference::{LoadError, Network, NnueEvaluator};
use wizardbot_engine::nnue::layers::{
    ceil_to_multiple, clipped_relu, clipped_relu_hash_value, sqr_clipped_relu, AffineLayer,
};
use wizardbot_engine::nnue::loader::{
    read_component_header, read_header, ReadError, Reader, LEB128_MAGIC_STRING, VERSION,
};
use wizardbot_engine::nnue::position::{FenError, Position, BLACK, B_KING, WHITE, W_PAWN};
use wizardbot_engine::nnue::transformer::FeatureTransformer;

fn push_u32(out: &mut Vec<u8>, x: u32) {
    out.extend_from_slice(&x.to_le_bytes());
}

fn push_tensor(out: &mut Vec<u8>, bytes: &[u8]) {
    out.extend_from_slice(&LEB128_MAGIC_STRING);
    push_u32(out, bytes.len() as u32);
    out.extend_from_slice(bytes);
}

fn header_bytes(hash: u32, description: &[u8]) -> Vec<u8> {
    let mut out = Vec::new();
    push_u32(&mut out, VERSION);
    push_u32(&mut out, hash);
    push_u32(&mut out, description.len() as u32);
    out.extend_from_slice(description);
    out
}

/// A file whose weights are all zero but for the first bias of the last stack's
/// output.
fn whole_file() -> Vec<u8> {
    let mut out = header_bytes(NnueEvaluator::combined_hash_value(), b"plain");
    push_u32(&mut out, FeatureTransformer::hash_value());
    push_tensor(&mut out, &vec![0u8; 1536]);
    push_tensor(&mut out, &vec![0u8; 1536 * 22528]);
    push_tensor(&mut out, &vec![0u8; 8 * 22528]);
    for i in 0..8usize {
        push_u32(&mut out, Network::hash_value());
        let mut stack = vec![0u8; 25828];
        if i == 7 {
            // After the first two layers stands the bias of the third.
            stack[64 + 24576 + 128 + 1024] = 160;
        }
        out.extend_from_slice(&stack);
    }
    out
}

fn refused(data: &[u8]) -> LoadError {
    match NnueEvaluator::load_from_bytes(data) {
        Ok(_) => panic!("accepted"),
        Err(e) => e,
    }
}

#[test]
fn whole_file_loads_and_is_used() {
    let mut data = whole_file();
    let net = match NnueEvaluator::load_from_bytes(&data) {
        Ok(net) => net,
        Err(e) => panic!("{}", e.message()),
    };
    assert_eq!(net.description, "plain");
    let full = Position::from_fen("rnbqkbnr/pppppppp/8/8/8/8/PPPPPPPP/RNBQKBNR w KQkq - 0 1").unwrap();
    assert_eq!(net.evaluate(&full), 10);
    let bare = Position::from_fen("4k3/8/8/8/8/8/8/4K3 w - - 0 1").unwrap();
    assert_eq!(net.evaluate(&bare), 0);
    data.push(0);
    data.push(0);
    let e = refused(&data);
    assert_eq!(e, LoadError::TrailingBytes(2));
    assert_eq!(e.message(), "trailing 2 unread bytes after parsing all NNUE parameters");
    data.truncate(data.len() - 3);
    let e = refused(&data);
    assert_eq!(
        e,
        LoadError::NetworkParameters(7, ReadError::UnexpectedEof { expected: 1, remaining: 0 })
    );
    assert_eq!(e.message(), "network[7] parameters: expected 1 bytes, only 0 remain");
    data.truncate(data.len() - 25827 - 4);
    push_u32(&mut data, 1);
    let wanted = Network::hash_value();
    let e = refused(&data);
    assert_eq!(e, LoadError::NetworkHeader(7, ReadError::ComponentHash { found: 1, wanted }));
    assert_eq!(
        e.message(),
        format!("network[7] header: component hash mismatch: file has 0x00000001, expected {:#010x}", wanted)
    );
}

#[test]
fn front_of_the_file_is_checked() {
    let e = refused(&[]);
    assert_eq!(e, LoadError::Header(ReadError::UnexpectedEof { expected: 4, remaining: 0 }));
    assert_eq!(e.message(), "bad NNUE header: expected 4 bytes, only 0 remain");
    let mut data = header_bytes(1, b"");
    let e = refused(&data);
    let expected = NnueEvaluator::combined_hash_value();
    assert_eq!(e, LoadError::HashMismatch { found: 1, expected });
    assert_eq!(
        e.message(),
        format!(
            "top-level NNUE hash mismatch: file has 0x00000001, expected {:#010x} \
             (FeatureTransformer::hash_value()={:#010x}, Network::hash_value()={:#010x})",
            expected,
            FeatureTransformer::hash_value(),
            Network::hash_value()
        )
    );
    data[0] = 0;
    let e = refused(&data);
    assert_eq!(e, LoadError::Header(ReadError::BadVersion { found: 0x7AF32F00 }));
    assert_eq!(e.message(), "bad NNUE header: bad NNUE version: got 0x7af32f00, expected 0x7af32f20");
    let mut data = header_bytes(expected, b"");
    push_u32(&mut data, 9);
    assert!(matches!(refused(&data), LoadError::TransformerHeader(ReadError::ComponentHash { .. })));
    let mut data = header_bytes(expected, b"");
    push_u32(&mut data, FeatureTransformer::hash_value());
    data.extend_from_slice(b"COMPRESSED_LEB129");
    let e = refused(&data);
    assert_eq!(e, LoadError::TransformerParameters(ReadError::MissingMagic));
    assert_eq!(
        e.message(),
        "feature transformer parameters: missing COMPRESSED_LEB128 magic string before tensor"
    );
}

#[test]
fn hashes() {
    assert_eq!(FeatureTransformer::hash_value(), 0x7f234cb8 ^ 3072);
    assert_eq!(AffineLayer::hash_value(16, 0x12345678), {
        let h = 0xCC03DAE4u32.wrapping_add(16);
        h ^ (0x12345678u32 >> 1) ^ (0x12345678u32 << 31)
    });
    assert_eq!(clipped_relu_hash_value(0xffff_ffff), 0x538D24C7u32.wrapping_sub(1));
    assert_eq!(
        NnueEvaluator::combined_hash_value(),
        FeatureTransformer::hash_value() ^ Network::hash_value()
    );
}

#[test]
fn fixed_width_numbers_are_little_endian() {
    let data = [1u8, 2, 3, 0x84, 0xfe, 0xff, 0xff, 0xff, 0xff, 0xff, 0x80];
    let mut r = Reader::new(&data);
    assert_eq!(r.read_u32_le(), Ok(0x84030201));
    assert_eq!(r.read_i16_le(), Ok(-2));
    assert_eq!(r.read_i32_le(), Ok(-1));
    assert_eq!(r.remaining(), 1);
    assert_eq!(r.read_i16_le(), Err(ReadError::UnexpectedEof { expected: 2, remaining: 1 }));
    assert_eq!(r.read_i8_le(), Ok(-128));
    assert!(r.at_eof());
}

#[test]
fn tensors_are_signed_leb128() {
    let mut data = Vec::new();
    push_tensor(&mut data, &[0x00, 0x3f, 0x40, 0x7f, 0x80, 0x01, 0xff, 0x7e, 0x80, 0x80, 0x02]);
    push_tensor(&mut data, &[0xc0, 0xbb, 0x78, 0x7f]);
    let mut r = Reader::new(&data);
    let mut out = [0i16; 7];
    assert_eq!(r.read_leb128_i16(&mut out), Ok(()));
    assert_eq!(out, [0, 63, -64, -1, 128, -129, -32768]);
    let mut out = [0i32; 2];
    assert_eq!(r.read_leb128_i32(&mut out), Ok(()));
    assert_eq!(out, [-123456, -1]);
    assert!(r.at_eof());
}

#[test]
fn description_is_read_as_text() {
    let mut data = header_bytes(5, "caf\u{e9}".as_bytes());
    let h = read_header(&mut Reader::new(&data)).unwrap();
    assert_eq!((h.hash_value, h.description.as_str()), (5, "caf\u{e9}"));
    let end = data.len() - 1;
    data[end] = b'!';
    let h = read_header(&mut Reader::new(&data)).unwrap();
    assert_eq!(h.description, "caf\u{fffd}!");
    let mut r = Reader::new(b"ab");
    assert_eq!(r.read_string(3), Err(ReadError::UnexpectedEof { expected: 3, remaining: 2 }));
    assert_eq!(r.read_string(2), Ok(String::from("ab")));
    let mut r = Reader::new(&[7, 0, 0, 0]);
    assert_eq!(
        read_component_header(&mut r, 8),
        Err(ReadError::ComponentHash { found: 7, wanted: 8 })
    );
}

#[test]
fn activations_are_clipped() {
    assert_eq!(clipped_relu(&[-5, 63, 64, 128, 8128, 100_000], 6), vec![0, 0, 1, 2, 127, 127]);
    assert_eq!(sqr_clipped_relu(&[0, 1000, -1000, 8128, -30_000], 6), vec![0, 1, 1, 126, 127]);
}

#[test]
fn affine_layer_multiplies_and_adds() {
    let mut layer = AffineLayer::new_zeroed(3, 2);
    assert_eq!(ceil_to_multiple(3, 32), 32);
    assert_eq!(layer.weights.len(), 64);
    layer.biases[0] = 10;
    layer.biases[1] = -10;
    layer.weights[0] = 2;
    layer.weights[2] = -3;
    layer.weights[32 + 1] = 100;
    assert_eq!(layer.propagate(&[5, 6, 7]), vec![10 + 10 - 21, -10 + 600]);
}

#[test]
fn features_are_numbered() {
    // A white pawn on a2 for white with the king on e1.
    let a = make_index(WHITE, 8, W_PAWN, 4);
    // The mirrored board gives black the same number.
    let b = make_index(BLACK, 48, 9, 60);
    assert_eq!(a, b);
    assert_eq!(a, 8 + 31 * 704);
    // With the king on a1 the board is mirrored.
    assert_eq!(make_index(WHITE, 8, W_PAWN, 0), 15 + 28 * 704);
    assert_ne!(make_index(WHITE, 60, B_KING, 4), a);
    let pos = Position::from_fen("rnbqkbnr/pppppppp/8/8/8/8/PPPPPPPP/RNBQKBNR w KQkq - 0 1").unwrap();
    let mut active = Vec::new();
    append_active_indices(&pos, WHITE, &mut active);
    assert_eq!(active.len(), 32);
    let mut black = Vec::new();
    append_active_indices(&pos, BLACK, &mut black);
    active.sort();
    black.sort();
    assert_eq!(active, black);
}

#[test]
fn adding_and_removing_a_feature_cancels_out() {
    let mut ft = FeatureTransformer::new_zeroed();
    for (i, w) in ft.weights.iter_mut().take(1536 * 4).enumerate() {
        *w = (i * 31 % 65536) as u16 as i16;
    }
    for (i, w) in ft.psqt_weights.iter_mut().take(32).enumerate() {
        *w = i32::MAX - i as i32;
    }
    let pos = Position::from_fen("4k3/8/8/8/8/8/8/4K3 w - - 0 1").unwrap();
    let start = compute_accumulator(&ft, &pos, WHITE);
    let mut a = compute_accumulator(&ft, &pos, WHITE);
    apply_feature(&mut a, &ft, 3, true);
    apply_feature(&mut a, &ft, 3, true);
    assert_ne!(a.accumulation, start.accumulation);
    apply_feature(&mut a, &ft, 3, false);
    apply_feature(&mut a, &ft, 3, false);
    assert_eq!(a.accumulation, start.accumulation);
    assert_eq!(a.psqt_accumulation, start.psqt_accumulation);
}

#[test]
fn ill_formed_boards_are_refused() {
    for (fen, e, text) in [
        ("8", FenError::TooFewFields, "FEN needs at least board + side-to-move: 8"),
        ("8/8 w", FenError::WrongRankCount, "FEN board must have 8 ranks: 8/8 w"),
        ("8k/8/8/8/8/8/8/8 w", FenError::RankOverflow, "FEN rank overflow: 8k/8/8/8/8/8/8/8 w"),
        ("x7/8/8/8/8/8/8/8 w", FenError::BadPiece('x'), "bad piece char 'x' in FEN: x7/8/8/8/8/8/8/8 w"),
        ("7/8/8/8/8/8/8/8 w", FenError::BadRankLength, "FEN rank does not sum to 8 files: 7/8/8/8/8/8/8/8 w"),
        ("8/8/8/8/8/8/8/8 x", FenError::BadSide, "bad side-to-move field 'x' in FEN: 8/8/8/8/8/8/8/8 x"),
        ("8/8/8/8/8/8/8/K7 b", FenError::MissingKing, "FEN missing a king: 8/8/8/8/8/8/8/K7 b"),
    ] {
        match Position::from_fen(fen) {
            Ok(_) => panic!("accepted {}", fen),
            Err(found) => {
                assert_eq!(found, e);
                assert_eq!(found.message(fen), text);
            }
        }
    }
    let pos = Position::from_fen("k7/8/8/8/8/8/8/K7 b").unwrap();
    assert_eq!(pos.side_to_move, BLACK);
    assert_eq!(pos.king_square(WHITE), 0);
    assert_eq!(pos.king_square(BLACK), 56);
    assert_eq!(pos.piece_on(56), B_KING);
    assert_eq!(pos.occupied_squares(), vec![0, 56]);
    assert_eq!(pos.count_all_pieces(), 2);
}

#[test]
fn wrong_frames_leave_the_numbers_alone() {
    let mut data = b"COMPRESSED_LEB129".to_vec();
    data.extend_from_slice(&[1, 0, 0, 0, 5]);
    let mut out = [7i32, 8];
    let mut r = Reader::new(&data);
    assert_eq!(r.read_leb128_i32(&mut out), Err(ReadError::MissingMagic));
    assert_eq!(out, [7, 8]);
    assert_eq!(r.remaining(), 5);
    let mut r = Reader::new(&data[..10]);
    assert_eq!(
        r.read_leb128_i32(&mut out),
        Err(ReadError::UnexpectedEof { expected: 17, remaining: 10 })
    );
    assert_eq!(out, [7, 8]);
    assert_eq!(r.remaining(), 10);
    let mut r = Reader::new(&[7, 0, 0, 0, 9]);
    assert!(read_component_header(&mut r, 8).is_err());
    assert_eq!(r.remaining(), 1);
    let mut r = Reader::new(&[7, 0, 0]);
    assert!(read_component_header(&mut r, 7).is_err());
    assert_eq!(r.remaining(), 3);
    let data = [0x20, 0x2F, 0xF3, 0x7A, 0x78, 0x56, 0x34, 0x12, 2, 0, 0, 0, b'o', b'k', 0xFF];
    let mut r = Reader::new(&data);
    let h = read_header(&mut r).ok().unwrap();
    assert_eq!((h.hash_value, h.description.as_str()), (0x12345678, "ok"));
    assert_eq!(r.remaining(), 1);
}

#[test]
fn what_was_read_before_an_error_stays() {
    let mut data = Vec::new();
    push_tensor(&mut data, &[1, 2, 0x83]);
    let mut out = [9i16; 4];
    let mut r = Reader::new(&data);
    assert_eq!(
        r.read_leb128_i16(&mut out),
        Err(ReadError::UnexpectedEof { expected: 1, remaining: 0 })
    );
    assert_eq!(out, [1, 2, 9, 9]);
    assert!(r.at_eof());
    let mut layer = AffineLayer::new_zeroed(3, 2);
    let mut r = Reader::new(&[5, 0, 0, 0, 6, 0, 0]);
    assert_eq!(
        layer.read_parameters(&mut r),
        Err(ReadError::UnexpectedEof { expected: 4, remaining: 3 })
    );
    assert_eq!(layer.biases, vec![5, 0]);
    assert_eq!(r.remaining(), 3);
    let mut r = Reader::new(&[5, 0, 0, 0, 6, 0, 0, 0, 7, 8]);
    assert_eq!(
        layer.read_parameters(&mut r),
        Err(ReadError::UnexpectedEof { expected: 1, remaining: 0 })
    );
    assert_eq!(layer.biases, vec![5, 6]);
    assert_eq!(&layer.weights[..3], &[7, 8, 0]);
    let data = header_bytes(5, b"abc");
    let mut r = Reader::new(&data[..13]);
    assert!(read_header(&mut r).is_err());
    assert_eq!(r.remaining(), 1);
    let mut r = Reader::new(&data[..6]);
    assert!(read_header(&mut r).is_err());
    assert_eq!(r.remaining(), 2);
}
