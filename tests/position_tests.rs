use chess_core::bitboard::{init, pretty, BitboardTables};
use chess_core::movegen::{generate, perft, GenType, MoveList};
use chess_core::position::{init_cuckoo, Position, H1, H2};
use chess_core::types::{Color, Move, MoveType, Piece, PieceType, Square};
use chess_core::zobrist::{init_zobrist, Zobrist};

fn start_position(t: &BitboardTables, z: &Zobrist) -> Position {
    let mut p = Position::default();
    let back = [
        PieceType::Rook,
        PieceType::Knight,
        PieceType::Bishop,
        PieceType::Queen,
        PieceType::King,
        PieceType::Bishop,
        PieceType::Knight,
        PieceType::Rook,
    ];
    for f in 0..8 {
        p.put_piece(chess_core::types::make_piece(Color::White, back[f]), Square::new_from_n(f as i32));
        p.put_piece(Piece::WPawn, Square::new_from_n(8 + f as i32));
        p.put_piece(Piece::BPawn, Square::new_from_n(48 + f as i32));
        p.put_piece(chess_core::types::make_piece(Color::Black, back[f]), Square::new_from_n(56 + f as i32));
    }
    p.set_castling_right(t, Color::White, Square::SqH1);
    p.set_castling_right(t, Color::White, Square::SqA1);
    p.set_castling_right(t, Color::Black, Square::SqH8);
    p.set_castling_right(t, Color::Black, Square::SqA8);
    p.set_state(t, z);
    p
}

fn mv(from: Square, to: Square) -> Move {
    Move::new_from_to_sq(from, to)
}

fn snapshot(p: &Position) -> (Vec<Piece>, Vec<u64>, u64, u64) {
    let board: Vec<Piece> = (0..64).map(|i| p.piece_on(Square::new_from_n(i))).collect();
    let mut sets = Vec::new();
    for pt in [
        PieceType::AllPieces,
        PieceType::Pawn,
        PieceType::Knight,
        PieceType::Bishop,
        PieceType::Rook,
        PieceType::Queen,
        PieceType::King,
    ] {
        sets.push(p.pieces_by_piecetype(pt));
    }
    sets.push(p.pieces_by_color(Color::White));
    sets.push(p.pieces_by_color(Color::Black));
    (board, sets, p.key(), p.checkers())
}

fn has(list: &MoveList, m: Move) -> bool {
    list.contains(m)
}

#[test]
fn test_position_display() {
    let mut position = Position::default();
    position.put_piece(Piece::BBishop, Square::SqA1);
    position.put_piece(Piece::WBishop, Square::SqA8);
    position.put_piece(Piece::WRook, Square::SqE4);
    let text = position.pretty();
    println!("{}", text);
    println!("{}", pretty(position.all_pieces()));
    assert_eq!(position.piece_on(Square::SqE4), Piece::WRook);
    assert!(text.contains(" | b |   |   |   |   |   |   |   | 1\n"));
    assert!(text.contains(" | B |   |   |   |   |   |   |   | 8\n"));
    assert!(text.contains(" |   |   |   |   | R |   |   |   | 4\n"));
}

#[test]
fn test_pieces_by_piece_types_macro() {
    let mut position = Position::default();
    position.put_piece(Piece::BBishop, Square::SqA1);
    position.put_piece(Piece::WBishop, Square::SqA8);
    position.put_piece(Piece::WRook, Square::SqE4);
    let res = position.pieces_by_piecetype(PieceType::Bishop) | position.pieces_by_piecetype(PieceType::Rook);
    println!("{}", pretty(res));
    assert_eq!(res, Square::SqA1.bb() | Square::SqA8.bb() | Square::SqE4.bb());
}

#[test]
fn test_do_move() {
    let t = init();
    let (z, cuckoo) = Position::init(&t);
    assert_eq!(cuckoo.inserted(), 3668);
    assert_eq!(cuckoo.stash_size(), 0);
    let mut position = start_position(&t, &z);
    let start = snapshot(&position);

    // Normal moves, a capture and a recapture, then take them all back.
    let line = [
        mv(Square::SqE2, Square::SqE4),
        mv(Square::SqD7, Square::SqD5),
        mv(Square::SqE4, Square::SqD5),
        mv(Square::SqG8, Square::SqF6),
        mv(Square::SqD2, Square::SqD4),
        mv(Square::SqF6, Square::SqD5),
    ];
    let mut states = Vec::new();
    for m in line {
        states.push(snapshot(&position));
        position.do_move(&t, &z, m);
        assert_eq!(position.key(), position.compute_key(&z));
    }
    assert_eq!(position.piece_on(Square::SqD5), Piece::BKnight);
    for m in line.iter().rev() {
        position.undo_move(&z, *m);
        assert_eq!(snapshot(&position), states.pop().unwrap());
    }
    assert_eq!(snapshot(&position), start);

    // En passant: e4, d5, e5, f5, exf6.
    let ep_line = [
        mv(Square::SqE2, Square::SqE4),
        mv(Square::SqD7, Square::SqD5),
        mv(Square::SqE4, Square::SqE5),
        mv(Square::SqF7, Square::SqF5),
    ];
    for m in ep_line {
        position.do_move(&t, &z, m);
    }
    assert_eq!(position.ep_square(), Square::SqF6);
    let ef = Move::make(MoveType::EnPassant, Square::SqE5, Square::SqF6, PieceType::Knight);
    assert_eq!(ef.type_of(), MoveType::EnPassant);
    let before = snapshot(&position);
    position.do_move(&t, &z, ef);
    assert_eq!(position.piece_on(Square::SqF5), Piece::NoPiece);
    assert_eq!(position.piece_on(Square::SqF6), Piece::WPawn);
    assert_eq!(position.key(), position.compute_key(&z));
    position.undo_move(&z, ef);
    assert_eq!(snapshot(&position), before);
    for m in ep_line.iter().rev() {
        position.undo_move(&z, *m);
    }
    assert_eq!(snapshot(&position), start);

    // Promotions, with and without a capture, to each piece type.
    let mut p = Position::default();
    p.put_piece(Piece::WKing, Square::SqE1);
    p.put_piece(Piece::BKing, Square::SqA8);
    p.put_piece(Piece::WPawn, Square::SqG7);
    p.put_piece(Piece::BRook, Square::SqH8);
    p.set_state(&t, &z);
    let base = snapshot(&p);
    for to in [Square::SqG8, Square::SqH8] {
        for pt in [PieceType::Knight, PieceType::Bishop, PieceType::Rook, PieceType::Queen] {
            let m = Move::make(MoveType::Promotion, Square::SqG7, to, pt);
            assert!(p.pseudo_legal(&t, m));
            p.do_move(&t, &z, m);
            assert_eq!(p.piece_on(to), chess_core::types::make_piece(Color::White, pt));
            assert_eq!(p.piece_on(Square::SqG7), Piece::NoPiece);
            assert_eq!(p.key(), p.compute_key(&z));
            p.undo_move(&z, m);
            assert_eq!(snapshot(&p), base);
        }
    }
}

#[test]
fn test_set_check_info() {
    let t = init();
    let z = init_zobrist();
    let mut p = Position::default();
    p.put_piece(Piece::WKing, Square::SqE1);
    p.put_piece(Piece::WBishop, Square::SqE2);
    p.put_piece(Piece::BRook, Square::SqE8);
    p.put_piece(Piece::BKing, Square::SqA8);
    p.set_state(&t, &z);
    // The bishop on e2 shields the white king from the rook on e8.
    assert_eq!(p.blockers_for_king(Color::White), Square::SqE2.bb());
    assert_eq!(p.pinners(Color::Black), Square::SqE8.bb());
    assert_eq!(p.checkers(), 0);
    // Squares from which a white rook would check the black king on a8.
    assert!(p.check_squares(PieceType::Rook) & Square::SqA1.bb() != 0);
    assert!(p.check_squares(PieceType::Knight) & Square::SqB6.bb() != 0);
}

#[test]
fn test_macros() {
    let mut position = Position::default();
    let pieces_of_types =
        position.pieces_by_piecetype(PieceType::Queen) | position.pieces_by_piecetype(PieceType::Rook);
    assert_eq!(pieces_of_types, 0);

    position.put_piece(Piece::WQueen, Square::SqA1);
    position.put_piece(Piece::WRook, Square::SqE4);
    let res: u64 = 1 << Square::SqE4 as i32 | 1 << Square::SqA1 as i32;
    let pieces_of_types =
        position.pieces_by_piecetype(PieceType::Queen) | position.pieces_by_piecetype(PieceType::Rook);
    assert_eq!(pieces_of_types, res);

    position.put_piece(Piece::BRook, Square::SqE5);
    let res: u64 = 1 << Square::SqE4 as i32 | 1 << Square::SqA1 as i32 | 1 << Square::SqE5 as i32;
    let pieces_of_types =
        position.pieces_by_piecetype(PieceType::Queen) | position.pieces_by_piecetype(PieceType::Rook);
    assert_eq!(pieces_of_types, res);

    let white_pieces =
        position.pieces(Color::White, PieceType::Rook) | position.pieces(Color::White, PieceType::Queen);
    let res: u64 = 1 << Square::SqE4 as i32 | 1 << Square::SqA1 as i32;
    assert_eq!(white_pieces, res);

    let black_pieces =
        position.pieces(Color::Black, PieceType::Rook) | position.pieces(Color::Black, PieceType::Queen);
    let res = 1 << Square::SqE5 as i32;
    assert_eq!(res, black_pieces);

    let all_pieces = position.all_pieces();
    let res: u64 = 1 << Square::SqE4 as i32 | 1 << Square::SqA1 as i32 | 1 << Square::SqE5 as i32;
    assert_eq!(all_pieces, res);
}

#[test]
fn perft_from_start_position() {
    let t = init();
    let z = init_zobrist();
    let mut p = start_position(&t, &z);
    assert_eq!(perft(&mut p, &t, &z, 1), 20);
    assert_eq!(perft(&mut p, &t, &z, 2), 400);
    assert_eq!(perft(&mut p, &t, &z, 3), 8902);
    assert_eq!(perft(&mut p, &t, &z, 4), 197281);
}

#[test]
fn hash_matches_recomputed_key_along_a_game() {
    let t = init();
    let z = init_zobrist();
    let mut p = start_position(&t, &z);
    // Always play the first legal move; the key must match a scan of the board.
    for _ in 0..40 {
        let list = generate(&p, &t, GenType::Legal);
        if list.len() == 0 {
            break;
        }
        let m = list.get(list.len() / 2);
        p.do_move(&t, &z, m);
        assert_eq!(p.key(), p.compute_key(&z));
    }
}

#[test]
fn checkers_after_move_match_king_attack() {
    let t = init();
    let z = init_zobrist();
    let mut p = Position::default();
    p.put_piece(Piece::WKing, Square::SqE1);
    p.put_piece(Piece::WRook, Square::SqA1);
    p.put_piece(Piece::WBishop, Square::SqC1);
    p.put_piece(Piece::BKing, Square::SqE8);
    p.set_state(&t, &z);
    p.do_move(&t, &z, mv(Square::SqA1, Square::SqA8));
    assert_eq!(p.checkers(), Square::SqA8.bb());
    assert!(p.attackers_to(&t, Square::SqE8, p.all_pieces()) & p.pieces_by_color(Color::White) != 0);
    p.undo_move(&z, mv(Square::SqA1, Square::SqA8));
    p.do_move(&t, &z, mv(Square::SqC1, Square::SqD2));
    assert_eq!(p.checkers(), 0);
}

#[test]
fn double_check_allows_only_king_moves() {
    let t = init();
    let z = init_zobrist();
    let mut q = Position::default();
    q.put_piece(Piece::WKing, Square::SqH1);
    q.put_piece(Piece::BKing, Square::SqE8);
    q.put_piece(Piece::WRook, Square::SqE1);
    q.put_piece(Piece::WKnight, Square::SqE5);
    q.put_piece(Piece::BQueen, Square::SqA5);
    q.set_state(&t, &z);
    // Knight to d6 uncovers the rook and checks with the knight.
    q.do_move(&t, &z, mv(Square::SqE5, Square::SqD6));
    assert_eq!(q.checkers().count_ones(), 2);
    let queen_block = mv(Square::SqA5, Square::SqE5);
    assert!(!q.pseudo_legal(&t, queen_block));
    let list = generate(&q, &t, GenType::Legal);
    for i in 0..list.len() {
        assert_eq!(q.moved_piece(list.get(i)).type_of(), PieceType::King);
    }
    assert!(list.len() > 0);
}

#[test]
fn en_passant_exposing_king_is_illegal() {
    let t = init();
    let z = init_zobrist();
    let mut p = Position::default();
    p.put_piece(Piece::WKing, Square::SqA5);
    p.put_piece(Piece::WPawn, Square::SqB5);
    p.put_piece(Piece::WPawn, Square::SqH2);
    p.put_piece(Piece::BPawn, Square::SqC7);
    p.put_piece(Piece::BRook, Square::SqH5);
    p.put_piece(Piece::BKing, Square::SqE8);
    p.set_state(&t, &z);
    p.do_move(&t, &z, mv(Square::SqH2, Square::SqH3));
    p.do_move(&t, &z, mv(Square::SqC7, Square::SqC5));
    assert_eq!(p.ep_square(), Square::SqC6);
    let ep = Move::make(MoveType::EnPassant, Square::SqB5, Square::SqC6, PieceType::Knight);
    assert!(!p.legal(&t, ep));
    let list = generate(&p, &t, GenType::Legal);
    assert!(!has(&list, ep));
    // Without the rook the same capture is legal.
    let mut q = Position::default();
    q.put_piece(Piece::WKing, Square::SqA5);
    q.put_piece(Piece::WPawn, Square::SqB5);
    q.put_piece(Piece::WPawn, Square::SqH2);
    q.put_piece(Piece::BPawn, Square::SqC7);
    q.put_piece(Piece::BKing, Square::SqE8);
    q.set_state(&t, &z);
    q.do_move(&t, &z, mv(Square::SqH2, Square::SqH3));
    q.do_move(&t, &z, mv(Square::SqC7, Square::SqC5));
    assert!(q.legal(&t, ep));
    assert!(q.pseudo_legal(&t, ep));
    let wrong_ep = Move::make(MoveType::EnPassant, Square::SqB5, Square::SqA6, PieceType::Knight);
    assert!(!q.pseudo_legal(&t, wrong_ep));
    assert!(has(&generate(&q, &t, GenType::Legal), ep));
}

#[test]
fn gives_check_direct_and_discovered() {
    let t = init();
    let z = init_zobrist();
    let mut p = Position::default();
    p.put_piece(Piece::WKing, Square::SqA1);
    p.put_piece(Piece::WRook, Square::SqE1);
    p.put_piece(Piece::WKnight, Square::SqE4);
    p.put_piece(Piece::WQueen, Square::SqD1);
    p.put_piece(Piece::BKing, Square::SqE8);
    p.set_state(&t, &z);
    // The knight uncovers the rook: discovered check.
    assert!(p.gives_check(&t, mv(Square::SqE4, Square::SqC5)));
    // The queen on d8 checks the king next to it.
    assert!(p.gives_check(&t, mv(Square::SqD1, Square::SqD8)));
    assert!(!p.gives_check(&t, mv(Square::SqA1, Square::SqB1)));
}

#[test]
fn castling_round_trip() {
    let t = init();
    let z = init_zobrist();
    let mut p = Position::default();
    p.put_piece(Piece::WKing, Square::SqE1);
    p.put_piece(Piece::WRook, Square::SqH1);
    p.put_piece(Piece::WRook, Square::SqA1);
    p.put_piece(Piece::BKing, Square::SqE8);
    p.set_castling_right(&t, Color::White, Square::SqH1);
    p.set_castling_right(&t, Color::White, Square::SqA1);
    p.set_state(&t, &z);
    let before = snapshot(&p);
    let oo = Move::make(MoveType::Castling, Square::SqE1, Square::SqH1, PieceType::Knight);
    let list = generate(&p, &t, GenType::Legal);
    assert!(has(&list, oo));
    assert!(p.pseudo_legal(&t, oo));
    let ooo = Move::make(MoveType::Castling, Square::SqE1, Square::SqA1, PieceType::Knight);
    assert!(p.pseudo_legal(&t, ooo));
    let bogus = Move::make(MoveType::Castling, Square::SqE1, Square::SqH8, PieceType::Knight);
    assert!(!p.pseudo_legal(&t, bogus));
    p.do_move(&t, &z, oo);
    assert_eq!(p.piece_on(Square::SqG1), Piece::WKing);
    assert_eq!(p.piece_on(Square::SqF1), Piece::WRook);
    assert!(!p.can_castle(chess_core::types::CastlingRights::WhiteCastling));
    assert_eq!(p.key(), p.compute_key(&z));
    p.undo_move(&z, oo);
    assert_eq!(snapshot(&p), before);
}

#[test]
fn generation_modes_partition_moves() {
    let t = init();
    let z = init_zobrist();
    let p = start_position(&t, &z);
    assert_eq!(generate(&p, &t, GenType::Captures).len(), 0);
    assert_eq!(generate(&p, &t, GenType::Quiets).len(), 20);
    assert_eq!(generate(&p, &t, GenType::NonEvasions).len(), 20);
    assert_eq!(generate(&p, &t, GenType::QuietChecks).len(), 0);
    assert!(p.pseudo_legal(&t, mv(Square::SqE2, Square::SqE4)));
    assert!(!p.pseudo_legal(&t, mv(Square::SqE2, Square::SqE5)));
    assert!(!p.pseudo_legal(&t, mv(Square::SqE7, Square::SqE5)));
}

#[test]
fn cuckoo_tables_hold_every_reversible_move() {
    let t = init();
    let z = init_zobrist();
    let (cuckoo, count) = init_cuckoo(&t, &z);
    assert_eq!(count, 3668);
    assert_eq!(cuckoo.inserted(), 3668);
    assert_eq!(cuckoo.stash_size(), 0);
    let mut filled = 0;
    for i in 0..8192 {
        let m = cuckoo.move_at(i);
        if m != Move::none() {
            filled += 1;
            let k = cuckoo.key_at(i);
            assert!(H1(k) == i || H2(k) == i);
        }
    }
    assert_eq!(filled, 3668);
}
