use chess_core::types::{
    is_file_valid, is_rank_valid, is_valid_move_type, make_black_piece, make_key, make_piece,
    make_square, make_white_piece, mate_in, mated_in, pawn_push, Bitboard, Bound, CastlingRights,
    Color, Direction, File, Move, MoveType, Piece, PieceType, Rank, Square, MAX_PLY, VALUE_MATE,
};

#[test]
fn test_square_add_direction() {
    assert_eq!(Square::SqA1 + Direction::North, Square::SqA2);
}

#[test]
fn test_square_sub_direction() {
    assert_eq!(Square::SqA2 - Direction::North, Square::SqA1);
    assert_eq!(Square::SqA1 - Direction::South, Square::SqA2);
}

#[test]
fn test_square_add_assign_direction() {
    let mut square = Square::SqA1;
    square += Direction::North;
    assert_eq!(square, Square::SqA2);
}

#[test]
fn test_square_sub_assign_direction() {
    let mut square = Square::SqA2;
    square -= Direction::North;
    assert_eq!(square, Square::SqA1);
}

#[test]
fn test_direction_add_direction() {
    assert_eq!(Direction::North + Direction::East, Direction::NorthEast);
    assert_eq!(Direction::South + Direction::West, Direction::SouthWest);
}

#[test]
fn test_direction_sub_direction() {
    assert_eq!(Direction::North - Direction::East, Direction::NorthWest);
    assert_eq!(Direction::South - Direction::West, Direction::SouthEast);
}

#[test]
fn test_color_not() {
    assert_eq!(!Color::White, Color::Black);
    assert_eq!(!Color::Black, Color::White);
}

#[test]
fn test_piece_not() {
    assert_eq!(!Piece::WPawn, Piece::BPawn);
    assert_eq!(!Piece::BQueen, Piece::WQueen);
}

#[test]
fn test_bitboard_operations() {
    let bitboard: Bitboard = 0xFF;
    assert_eq!(bitboard & Square::SqA1, 0x01);
    assert_eq!(bitboard | Square::SqA1, 0xFF);
    assert_eq!(bitboard ^ Square::SqA1, 0xFE);
}

#[test]
fn test_make_square() {
    assert_eq!(make_square(File::FileA as usize, Rank::Rank1 as usize), Square::SqA1);
    assert_eq!(make_square(File::FileH as usize, Rank::Rank8 as usize), Square::SqH8);
}

#[test]
fn test_make_piece() {
    assert_eq!(make_piece(Color::White, PieceType::Queen), Piece::WQueen);
    assert_eq!(make_piece(Color::Black, PieceType::Knight), Piece::BKnight);
}

#[test]
fn test_move_creation() {
    let mv = Move::new(0b110110011011);
    assert_eq!(mv.raw(), 0b110110011011);
    assert_eq!(mv.from_sq(), Square::new_from_n(0b110110));
    assert_eq!(mv.to_sq(), Square::new_from_n(0b011011));
}

#[test]
fn test_move_type() {
    // 11 << 14 keeps only its low two bits in the 16-bit record: flag 3, castling.
    let mv = Move::new(11 << 14);
    assert_eq!(mv.type_of(), MoveType::Castling);
    assert_eq!(Move::new(1 << 14).type_of(), MoveType::Promotion);
    assert_eq!(Move::new(2 << 14).type_of(), MoveType::EnPassant);
    assert_eq!(Move::new(12).type_of(), MoveType::Normal);
}

#[test]
fn test_move_promotion_type() {
    let mv = Move::new(0x3000);
    assert_eq!(mv.promotion_type(), PieceType::Queen);
}

#[test]
fn test_move_is_ok() {
    let mv = Move::new(0x1234);
    assert!(mv.is_ok());
    assert!(!Move::null().is_ok());
    assert!(!Move::none().is_ok());
}

#[test]
fn test_square_flip_rank() {
    assert_eq!(Square::SqA1.flip_rank(), Square::SqA8);
    assert_eq!(Square::SqH1.flip_rank(), Square::SqH8);
}

#[test]
fn test_square_flip_file() {
    assert_eq!(Square::SqA1.flip_file(), Square::SqH1);
    assert_eq!(Square::SqA8.flip_file(), Square::SqH8);
}

#[test]
fn test_square_file_of() {
    assert_eq!(Square::SqA1.file_of(), File::FileA);
    assert_eq!(Square::SqH8.file_of(), File::FileH);
}

#[test]
fn test_square_rank_of() {
    assert_eq!(Square::SqA1.rank_of(), Rank::Rank1);
    assert_eq!(Square::SqH8.rank_of(), Rank::Rank8);
}

#[test]
fn test_square_relative_rank() {
    assert_eq!(Square::SqA1.relative_rank(Color::White), Rank::Rank1);
    assert_eq!(Square::SqA1.relative_rank(Color::Black), Rank::Rank8);
}

#[test]
fn test_square_bb() {
    assert_eq!(Square::SqA1.bb(), 1);
    assert_eq!(Square::SqH8.bb(), 1 << 63);
}

#[test]
fn test_square_rank_bb() {
    assert_eq!(Square::SqA1.rank_bb(), 0xFF);
    assert_eq!(Square::SqA8.rank_bb(), 0xFF << 56);
}

#[test]
fn test_square_file_bb() {
    assert_eq!(Square::SqA1.file_bb(), 0x0101010101010101);
    assert_eq!(Square::SqH1.file_bb(), 0x8080808080808080);
}

#[test]
fn test_square_rank_distance_from() {
    assert_eq!(Square::SqA1.rank_distance_from(Square::SqA2), 1);
    assert_eq!(Square::SqA1.rank_distance_from(Square::SqA8), 7);
}

#[test]
fn test_square_file_distance_from() {
    assert_eq!(Square::SqA1.file_distance_from(Square::SqB1), 1);
    assert_eq!(Square::SqA1.file_distance_from(Square::SqH1), 7);
}

#[test]
fn test_castling_rights_bitand_color() {
    assert_eq!(CastlingRights::AnyCastling & Color::White, CastlingRights::WhiteCastling);
    assert_eq!(CastlingRights::AnyCastling & Color::Black, CastlingRights::BlackCastling);
}

#[test]
fn test_color_bitand_castling_rights() {
    assert_eq!(Color::White & CastlingRights::AnyCastling, CastlingRights::WhiteCastling);
    assert_eq!(Color::Black & CastlingRights::AnyCastling, CastlingRights::BlackCastling);
}

#[test]
fn test_mate_in() {
    assert_eq!(mate_in(1), VALUE_MATE - 1);
    assert_eq!(mate_in(MAX_PLY), VALUE_MATE - MAX_PLY);
}

#[test]
fn test_mated_in() {
    assert_eq!(mated_in(1), -VALUE_MATE + 1);
    assert_eq!(mated_in(MAX_PLY), -VALUE_MATE + MAX_PLY);
}

#[test]
fn test_make_key() {
    assert_eq!(make_key(0), 1442695040888963407);
    assert_eq!(make_key(1), 7806831264735756412);
}

#[test]
fn test_pawn_push() {
    assert_eq!(pawn_push(Color::White), Direction::North);
    assert_eq!(pawn_push(Color::Black), Direction::South);
}

#[test]
fn test_piece_type_of() {
    assert_eq!(Piece::WPawn.type_of(), PieceType::Pawn);
    assert_eq!(Piece::WQueen.type_of(), PieceType::Queen);
    assert_eq!(Piece::BKing.type_of(), PieceType::King);
}

#[test]
fn test_piece_color() {
    assert_eq!(Piece::WPawn.color(), Color::White);
    assert_eq!(Piece::BQueen.color(), Color::Black);
}

#[test]
fn test_square_new_from_n() {
    assert_eq!(Square::new_from_n(0), Square::SqA1);
    assert_eq!(Square::new_from_n(1), Square::SqB1);
    assert_eq!(Square::new_from_n(63), Square::SqH8);
    assert_eq!(Square::new_from_n(64), Square::SqNone);
}

#[test]
fn test_square_is_square_valid() {
    assert!(Square::is_square_valid(0));
    assert!(Square::is_square_valid(63));
    assert!(!Square::is_square_valid(64));
}

#[test]
fn test_is_valid_move_type() {
    assert!(is_valid_move_type(0));
    assert!(is_valid_move_type(1 << 14));
    assert!(is_valid_move_type(2 << 14));
    assert!(is_valid_move_type(3 << 14));
    assert!(!is_valid_move_type(4 << 9));
}

#[test]
fn test_is_file_valid() {
    assert!(is_file_valid(File::FileA as i32));
    assert!(is_file_valid(File::FileH as i32));
    assert!(!is_file_valid(File::FileH as i32 + 1));
}

#[test]
fn test_is_rank_valid() {
    assert!(is_rank_valid(Rank::Rank1 as i32));
    assert!(is_rank_valid(Rank::Rank8 as i32));
    assert!(!is_rank_valid(Rank::Rank8 as i32 + 1));
}

#[test]
fn test_make_white_piece() {
    assert_eq!(make_white_piece(PieceType::Pawn), Piece::WPawn);
    assert_eq!(make_white_piece(PieceType::Knight), Piece::WKnight);
}

#[test]
fn test_make_black_piece() {
    assert_eq!(make_black_piece(PieceType::Pawn), Piece::BPawn);
    assert_eq!(make_black_piece(PieceType::Knight), Piece::BKnight);
}

#[test]
fn test_square_add_direction_overflow() {
    assert_eq!(Square::SqH8 + Direction::North, Square::SqNone);
    assert_eq!(Square::SqA1 + Direction::South, Square::SqNone);
}

#[test]
fn test_square_sub_direction_underflow() {
    assert_eq!(Square::SqA1 - Direction::North, Square::SqNone);
    assert_eq!(Square::SqH8 - Direction::South, Square::SqNone);
}

#[test]
fn test_square_add_assign_direction_overflow() {
    let mut square = Square::SqH8;
    square += Direction::North;
    assert_eq!(square, Square::SqNone);
}

#[test]
fn test_square_sub_assign_direction_underflow() {
    let mut square = Square::SqA1;
    square -= Direction::North;
    assert_eq!(square, Square::SqNone);
}

#[test]
fn test_piece_type_values() {
    assert_eq!(PieceType::Pawn as i32, 1);
    assert_eq!(PieceType::Knight as i32, 2);
    assert_eq!(PieceType::Bishop as i32, 3);
    assert_eq!(PieceType::Rook as i32, 4);
    assert_eq!(PieceType::Queen as i32, 5);
    assert_eq!(PieceType::King as i32, 6);
}

#[test]
fn test_piece_values() {
    assert_eq!(Piece::WPawn.index() as i32, 1);
    assert_eq!(Piece::WKnight.index() as i32, 2);
    assert_eq!(Piece::WBishop.index() as i32, 3);
    assert_eq!(Piece::WRook.index() as i32, 4);
    assert_eq!(Piece::WQueen.index() as i32, 5);
    assert_eq!(Piece::WKing.index() as i32, 6);
    assert_eq!(Piece::BPawn.index() as i32, 9);
    assert_eq!(Piece::BKnight.index() as i32, 10);
    assert_eq!(Piece::BBishop.index() as i32, 11);
    assert_eq!(Piece::BRook.index() as i32, 12);
    assert_eq!(Piece::BQueen.index() as i32, 13);
    assert_eq!(Piece::BKing.index() as i32, 14);
}

#[test]
fn test_direction_values() {
    assert_eq!(Direction::North.to_num(), 8);
    assert_eq!(Direction::East.to_num(), 1);
    assert_eq!(Direction::South.to_num(), -8);
    assert_eq!(Direction::West.to_num(), -1);
    assert_eq!(Direction::NorthWest.to_num(), 7);
    assert_eq!(Direction::NorthEast.to_num(), 9);
    assert_eq!(Direction::SouthEast.to_num(), -7);
    assert_eq!(Direction::SouthWest.to_num(), -9);
}

#[test]
fn test_file_values() {
    assert_eq!(File::FileA as i32, 0);
    assert_eq!(File::FileB as i32, 1);
    assert_eq!(File::FileC as i32, 2);
    assert_eq!(File::FileD as i32, 3);
    assert_eq!(File::FileE as i32, 4);
    assert_eq!(File::FileF as i32, 5);
    assert_eq!(File::FileG as i32, 6);
    assert_eq!(File::FileH as i32, 7);
}

#[test]
fn test_rank_values() {
    assert_eq!(Rank::Rank1 as i32, 0);
    assert_eq!(Rank::Rank2 as i32, 1);
    assert_eq!(Rank::Rank3 as i32, 2);
    assert_eq!(Rank::Rank4 as i32, 3);
    assert_eq!(Rank::Rank5 as i32, 4);
    assert_eq!(Rank::Rank6 as i32, 5);
    assert_eq!(Rank::Rank7 as i32, 6);
    assert_eq!(Rank::Rank8 as i32, 7);
}

#[test]
fn test_square_values() {
    assert_eq!(Square::SqA1 as i32, 0);
    assert_eq!(Square::SqH8 as i32, 63);
    assert_eq!(Square::SqNone as i32, 64);
}

#[test]
fn test_move_type_values() {
    assert_eq!(MoveType::Normal.bits() as i32, 0);
    assert_eq!(MoveType::Promotion.bits() as i32, 1 << 14);
    assert_eq!(MoveType::EnPassant.bits() as i32, 2 << 14);
    assert_eq!(MoveType::Castling.bits() as i32, 3 << 14);
}

#[test]
fn test_castling_rights_values() {
    assert_eq!(CastlingRights::NoCastling.bits(), 0);
    assert_eq!(CastlingRights::WhiteOO.bits(), 1);
    assert_eq!(CastlingRights::WhiteOOO.bits(), 2);
    assert_eq!(CastlingRights::BlackOO.bits(), 4);
    assert_eq!(CastlingRights::BlackOOO.bits(), 8);
    assert_eq!(CastlingRights::KingSide.bits(), 5);
    assert_eq!(CastlingRights::QueenSide.bits(), 10);
    assert_eq!(CastlingRights::WhiteCastling.bits(), 3);
    assert_eq!(CastlingRights::BlackCastling.bits(), 12);
    assert_eq!(CastlingRights::AnyCastling.bits(), 15);
}

#[test]
fn test_bound_values() {
    assert_eq!(Bound::BoundNone as i32, 0);
    assert_eq!(Bound::BoundUpper as i32, 1);
    assert_eq!(Bound::BoundLower as i32, 2);
    assert_eq!(Bound::BoundExact as i32, 3);
}

#[test]
fn castling_rights_from_bits_round_trip() {
    for n in [0, 1, 2, 3, 4, 5, 8, 10, 12, 15, 16] {
        assert_eq!(CastlingRights::new_from_n(n).bits(), n);
    }
}

#[test]
fn move_make_packs_fields() {
    let m = Move::make(MoveType::Promotion, Square::SqG7, Square::SqH8, PieceType::Rook);
    assert_eq!(m.from_sq(), Square::SqG7);
    assert_eq!(m.to_sq(), Square::SqH8);
    assert_eq!(m.type_of(), MoveType::Promotion);
    assert_eq!(m.promotion_type(), PieceType::Rook);
    assert_eq!(m.from_to(), (54 << 6) + 63);
}

#[test]
fn direction_from_num_round_trip() {
    for d in [-9, -8, -7, -1, 1, 7, 8, 9] {
        assert_eq!(Direction::from_num(d).to_num(), d);
    }
    assert_eq!(Direction::North * 2, 16);
}

#[test]
fn square_relative_square_mirrors_for_black() {
    assert_eq!(Square::SqG1.relative_square(Color::Black), Square::SqG8);
    assert_eq!(Square::SqG1.relative_square(Color::White), Square::SqG1);
}
