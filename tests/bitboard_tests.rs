use chess_core::bitboard::{
    alligned, attacks_bb, between_bb, bishop_attacks_bb, distance, get_pawn_attacks_bb,
    get_pseudo_attacks, init, init_popcnt, init_square_distance, least_significant_square_bb,
    line_bb, more_than_one, pawn_attacks_bb, pop_lsb, pretty, rook_attacks_bb, shift,
    shift_twice, sliding_attack, Magic,
};
use chess_core::types::{Bitboard, Color, Direction, PieceType, Square};

fn sq(n: i32) -> Square {
    Square::new_from_n(n)
}

#[test]
fn test_init_bitboards() {
    let t = init();
    let res = attacks_bb(&t, PieceType::Rook, Square::SqE4, 0xFFFFFFFF00FFFFFF);
    let res1 = sliding_attack(PieceType::Rook, Square::SqE4, 0xFFFFFFFF00FFFFFF);
    println!("{}", pretty(res));
    println!("{}", pretty(res1));
    println!("{}", pretty(0xFFFFFFFF00FFFFFF));
    assert_eq!(res, res1);
}

#[test]
fn bbtables_test_more_than_one() {
    assert!(!more_than_one(4));
    assert!(!more_than_one(2));
    assert!(!more_than_one(1));
    assert!(more_than_one(5));
    assert!(more_than_one(7));
    assert!(more_than_one(9));
}

#[test]
fn test_sliding_attack() {
    let a = sliding_attack(PieceType::Rook, Square::SqE4, 0x8000000);
    let b = sliding_attack(PieceType::Bishop, Square::SqD4, 0x70000);
    let c = sliding_attack(PieceType::Rook, Square::SqH8, 0);
    let d = sliding_attack(PieceType::Bishop, Square::SqA1, 0);
    let e = sliding_attack(PieceType::Bishop, Square::SqE4, 0);
    let f = sliding_attack(PieceType::Rook, Square::SqE4, 0);
    // A blocker on d4 stops the rook on e4 going west, d4 included.
    assert!(a & Square::SqD4.bb() != 0);
    assert_eq!(a & Square::SqC4.bb(), 0);
    // Blockers on c3, d3, e3: the bishop on d4 reaches c3 and e3 and no further.
    assert!(b & Square::SqC3.bb() != 0);
    assert!(b & Square::SqE3.bb() != 0);
    assert_eq!(b & Square::SqB2.bb(), 0);
    assert_eq!(c.count_ones(), 14);
    assert_eq!(d, 0x8040201008040200);
    assert_eq!(e.count_ones(), 13);
    assert_eq!(e & Square::SqH8.bb(), 0);
    assert_eq!(f.count_ones(), 14);
}

#[test]
fn count_bishop_attacks() {
    let popcnt = init_popcnt();
    let dist = init_square_distance();
    assert_eq!(popcnt.len(), 65536);
    assert_eq!(dist.len(), 4096);
    let mut total = 0;
    for i in Square::SqA1 as usize..Square::SqH8 as usize {
        let sq = Square::new_from_n(i as i32);
        let m = sliding_attack(PieceType::Bishop, sq, 0);
        let mut b: Bitboard = 0;
        loop {
            total += 1;
            b = (b.wrapping_sub(m)) & m;
            if b == 0 {
                break;
            }
        }
    }
    println!("{}", total);
    assert!(total > 64);
}

#[test]
fn test_rook_magics() {
    let t = init();
    for i in 0..64 {
        let sq = Square::new_from_n(i as i32);
        let mut blocker: Bitboard = !0;
        let mut empty_tested = false;
        while !empty_tested {
            empty_tested = blocker == 0;
            let block: Bitboard = blocker & !sq.bb();
            let magic: Bitboard = attacks_bb(&t, PieceType::Rook, sq, block);
            let manual: Bitboard = sliding_attack(PieceType::Rook, sq, block);
            assert_eq!(magic, manual);
            blocker >>= 8;
        }
    }
}

#[test]
fn test_bishop_magics() {
    let t = init();
    for i in 0..64 {
        let sq = Square::new_from_n(i as i32);
        let mut empty_tested = false;
        let mut blocker: Bitboard = !0;
        while !empty_tested {
            empty_tested = blocker == 0;
            let block: Bitboard = blocker & !sq.bb();
            let magic: Bitboard = attacks_bb(&t, PieceType::Bishop, sq, block);
            let manual: Bitboard = sliding_attack(PieceType::Bishop, sq, block);
            assert_eq!(magic, manual);
            blocker >>= 8;
        }
    }
}

#[test]
fn bitboard_test_more_than_one() {
    assert!(!more_than_one(4));
    assert!(!more_than_one(2));
    assert!(!more_than_one(1));
    assert!(more_than_one(5));
    assert!(more_than_one(7));
    assert!(more_than_one(9));
}

#[test]
fn rook_blocked_on_a4() {
    let t = init();
    let occ = Square::SqA4.bb();
    let att = rook_attacks_bb(&t, Square::SqA1, occ);
    for s in [Square::SqA2, Square::SqA3, Square::SqA4] {
        assert!(att & s.bb() != 0);
    }
    for s in [Square::SqA5, Square::SqA6, Square::SqA7, Square::SqA8] {
        assert_eq!(att & s.bb(), 0);
    }
}

#[test]
fn magic_lookup_matches_ray_cast_on_every_subset() {
    let t = init();
    for i in 0..64 {
        let s = sq(i);
        for rook in [true, false] {
            let pt = if rook { PieceType::Rook } else { PieceType::Bishop };
            let full = sliding_attack(pt, s, 0);
            // Pseudo-random occupancies over the whole board.
            let mut x: u64 = 0x9E3779B97F4A7C15 ^ (i as u64);
            for _ in 0..64 {
                x ^= x << 13;
                x ^= x >> 7;
                x ^= x << 17;
                let occ = x & !s.bb();
                let looked = if rook { rook_attacks_bb(&t, s, occ) } else { bishop_attacks_bb(&t, s, occ) };
                assert_eq!(looked, sliding_attack(pt, s, occ));
            }
            assert_eq!(attacks_bb(&t, pt, s, 0), full);
        }
    }
}

#[test]
fn shifts_mask_the_edges() {
    assert_eq!(shift(Square::SqH1.bb(), Direction::East), 0);
    assert_eq!(shift(Square::SqA1.bb(), Direction::West), 0);
    assert_eq!(shift(Square::SqA1.bb(), Direction::NorthEast), Square::SqB2.bb());
    assert_eq!(shift(Square::SqA8.bb(), Direction::North), 0);
    assert_eq!(shift_twice(Square::SqA2.bb(), Direction::North), Square::SqA4.bb());
    assert_eq!(shift_twice(Square::SqA2.bb(), Direction::East), 0);
}

#[test]
fn pawn_attacks_by_color() {
    let t = init();
    assert_eq!(pawn_attacks_bb(Square::SqE4.bb(), Color::White), Square::SqD5.bb() | Square::SqF5.bb());
    assert_eq!(get_pawn_attacks_bb(&t, Color::Black, Square::SqA5), Square::SqB4.bb());
}

#[test]
fn geometry_tables() {
    let t = init();
    assert_eq!(distance(Square::SqA1, Square::SqH8), 7);
    assert_eq!(distance(Square::SqB1, Square::SqC3), 2);
    assert_eq!(t.square_distance(Square::SqA1, Square::SqB3), 2);
    assert_eq!(get_pseudo_attacks(&t, PieceType::Knight, Square::SqA1), Square::SqB3.bb() | Square::SqC2.bb());
    assert_eq!(get_pseudo_attacks(&t, PieceType::King, Square::SqA1).count_ones(), 3);
    assert_eq!(get_pseudo_attacks(&t, PieceType::Queen, Square::SqD4).count_ones(), 27);
    assert!(alligned(&t, Square::SqA1, Square::SqC3, Square::SqH8));
    assert!(!alligned(&t, Square::SqA1, Square::SqC3, Square::SqH7));
    assert_eq!(line_bb(&t, Square::SqA1, Square::SqB3), 0);
    assert_eq!(between_bb(&t, Square::SqA1, Square::SqA4), Square::SqA2.bb() | Square::SqA3.bb());
    assert_eq!(between_bb(&t, Square::SqA4, Square::SqA1), Square::SqA2.bb() | Square::SqA3.bb());
    assert_eq!(between_bb(&t, Square::SqA1, Square::SqB2), 0);
    assert_eq!(between_bb(&t, Square::SqA1, Square::SqB3), 0);
    assert_eq!(between_bb(&t, Square::SqC1, Square::SqF4), Square::SqD2.bb() | Square::SqE3.bb());
}

#[test]
fn lowest_bit_helpers() {
    let mut b: Bitboard = Square::SqC3.bb() | Square::SqF7.bb();
    assert_eq!(least_significant_square_bb(b), Square::SqC3.bb());
    assert_eq!(pop_lsb(&mut b), Square::SqC3);
    assert_eq!(pop_lsb(&mut b), Square::SqF7);
    assert_eq!(b, 0);
}

#[test]
fn magic_default_and_pretty() {
    let _m = Magic::default();
    let text = pretty(Square::SqA1.bb());
    assert_eq!(text.len(), 626);
    assert_eq!(text.lines().count(), 18);
    assert_eq!(text.matches('X').count(), 1);
    assert!(text.contains("| X |   "));
    assert!(text.ends_with("  a   b   c   d   e   f   g   h\n"));
}
