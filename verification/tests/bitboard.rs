use wizardbot_engine::bitboard::{
    bishop_attacks, bit, knight_attacks, popcount, ray_between, rook_attacks,
    sliding_attacks_ray_scan, sq, AttackTables, Bitboard, ALL, BISHOP_DIRS, EMPTY, ROOK_DIRS,
};

#[test]
fn knight_center() {
    let tables = AttackTables::new();
    let s = sq(3, 3);
    assert_eq!(popcount(knight_attacks(&tables, s)), 8);
}

#[test]
fn rook_open_board() {
    let tables = AttackTables::new();
    let s = sq(0, 0);
    let attacks = rook_attacks(&tables, s, EMPTY);
    assert_eq!(popcount(attacks), 14);
}

#[test]
fn rook_blocked() {
    let tables = AttackTables::new();
    let s = sq(0, 0);
    let occ = bit(sq(0, 3)) | bit(sq(3, 0));
    let attacks = rook_attacks(&tables, s, occ);
    assert!(attacks & bit(sq(0, 3)) != 0);
    assert!(attacks & bit(sq(0, 4)) == 0);
    assert!(attacks & bit(sq(3, 0)) != 0);
    assert!(attacks & bit(sq(4, 0)) == 0);
}

#[test]
fn ray_between_works() {
    let tables = AttackTables::new();
    let a = sq(0, 0);
    let b = sq(0, 4);
    let between = ray_between(&tables, a, b);
    assert_eq!(between, bit(sq(0, 1)) | bit(sq(0, 2)) | bit(sq(0, 3)));
}

#[test]
fn magic_matches_ray_scan_reference() {
    let tables = AttackTables::new();
    let mut occs: Vec<Bitboard> = vec![EMPTY, ALL];
    let mut x: u64 = 0x2545_F491_4F6C_DD1D;
    for _ in 0..2000 {
        x ^= x << 13;
        x ^= x >> 7;
        x ^= x << 17;
        occs.push(x);
    }
    for s in 0..64u8 {
        for &occ in &occs {
            assert_eq!(
                rook_attacks(&tables, s, occ),
                sliding_attacks_ray_scan(&tables.rays, s, occ, &ROOK_DIRS),
                "rook magic mismatch on square {s}, occ {occ:#018x}"
            );
            assert_eq!(
                bishop_attacks(&tables, s, occ),
                sliding_attacks_ray_scan(&tables.rays, s, occ, &BISHOP_DIRS),
                "bishop magic mismatch on square {s}, occ {occ:#018x}"
            );
        }
    }
}
