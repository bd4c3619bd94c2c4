use vstd::prelude::*;
use crate::bitboard::{
    BitboardTables, attacks_bb, between_bb, get_pawn_attacks_bb, get_pseudo_attacks, alligned,
    more_than_one, pawn_attacks_bb, pop_lsb, popcount, attacks_spec, pawn_attacks_spec,
    pseudo_spec, between_spec, line_spec, bit, RANK8_BB, RANK2_BB, RANK7_BB,
};
use crate::types::{
    Bitboard, CastlingRights, Color, Key, Move, MoveType, Piece, PieceType, Square, Value,
    has_bit, make_piece, make_piece_spec, pawn_push_n, piece_value, relative_rank_of_square,
    RANK1_BB,
};
use crate::bitboard::{ascii_to_string, push_all};
use crate::movegen::{GenType, mode_target, pawn_move_ok, promotion_types};
use crate::zobrist::{Zobrist, init_zobrist, get_zobrist_castling, get_zobrist_enpassant, get_zobrist_psq, get_zobrist_side, get_zorist_nopawns};

verus! {

/// One entry of the per-ply state stack. The first group is copied forward
/// by `do_move`; the second is recomputed.
#[derive(Clone, Copy)]
pub struct StateInfo {
    pub material_key: Key,
    pub pawn_key: Key,
    pub major_piece_key: Key,
    pub minor_piece_key: Key,
    pub non_pawn_key: [Key; 2],
    pub non_pawn_material: [Value; 2],
    /// Bit set of castling rights: 1 white king side, 2 white queen side,
    /// 4 black king side, 8 black queen side.
    pub castling_rights: u8,
    pub rule_50: i32,
    pub plies_from_null: i32,
    pub ep_square: Square,
    pub key: Key,
    pub checkers_bb: Bitboard,
    pub blockers_for_king: [Bitboard; 2],
    pub pinners: [Bitboard; 2],
    pub check_squares: [Bitboard; 8],
    pub captured_piece: Piece,
    pub repetition: i32,
}

impl StateInfo {
    /// The state of an empty position.
    pub fn new() -> (r: StateInfo)
        ensures
            r.castling_rights == 0,
            r.ep_square == Square::SqNone,
            r.captured_piece == Piece::NoPiece,
            r.rule_50 == 0,
            r.plies_from_null == 0,
    {
        StateInfo {
            material_key: 0,
            pawn_key: 0,
            major_piece_key: 0,
            minor_piece_key: 0,
            non_pawn_key: [0, 0],
            non_pawn_material: [0, 0],
            castling_rights: 0,
            rule_50: 0,
            plies_from_null: 0,
            ep_square: Square::SqNone,
            key: 0,
            checkers_bb: 0,
            blockers_for_king: [0, 0],
            pinners: [0, 0],
            check_squares: [0, 0, 0, 0, 0, 0, 0, 0],
            captured_piece: Piece::NoPiece,
            repetition: 0,
        }
    }

    /// Copies the fields that carry over from one ply to the next into `newst`.
    pub fn copy_from_old_to_new(&self, newst: &mut StateInfo)
        ensures
            final(newst).material_key == self.material_key,
            final(newst).pawn_key == self.pawn_key,
            final(newst).major_piece_key == self.major_piece_key,
            final(newst).minor_piece_key == self.minor_piece_key,
            final(newst).non_pawn_key == self.non_pawn_key,
            final(newst).non_pawn_material == self.non_pawn_material,
            final(newst).castling_rights == self.castling_rights,
            final(newst).rule_50 == self.rule_50,
            final(newst).plies_from_null == self.plies_from_null,
            final(newst).ep_square == self.ep_square,
            final(newst).key == old(newst).key,
            final(newst).checkers_bb == old(newst).checkers_bb,
            final(newst).captured_piece == old(newst).captured_piece,
            final(newst).blockers_for_king == old(newst).blockers_for_king,
            final(newst).pinners == old(newst).pinners,
            final(newst).check_squares == old(newst).check_squares,
            final(newst).repetition == old(newst).repetition,
    {
        newst.material_key = self.material_key;
        newst.pawn_key = self.pawn_key;
        newst.major_piece_key = self.major_piece_key;
        newst.minor_piece_key = self.minor_piece_key;
        newst.non_pawn_key = self.non_pawn_key;
        newst.non_pawn_material = self.non_pawn_material;
        newst.castling_rights = self.castling_rights;
        newst.rule_50 = self.rule_50;
        newst.plies_from_null = self.plies_from_null;
        newst.ep_square = self.ep_square;
    }
}

/// Whether piece `p` is counted under count slot `k`: its own packed value, or
/// `8 * color` for the color's total.
pub open spec fn counted(p: Piece, k: int) -> bool {
    p != Piece::NoPiece && (p.idx() == k || 8 * p.pcolor().idx() == k)
}

/// Number of the first `n` squares of `b` whose piece is counted under slot `k`.
pub open spec fn count_in(b: Seq<Piece>, k: int, n: int) -> int
    decreases n,
{
    if n <= 0 {
        0
    } else {
        count_in(b, k, n - 1) + if counted(b[n - 1], k) {
            1int
        } else {
            0int
        }
    }
}

proof fn lemma_count_update(b: Seq<Piece>, i: int, p: Piece, k: int, n: int)
    requires
        0 <= i < b.len(),
        0 <= n <= b.len(),
    ensures
        count_in(b.update(i, p), k, n) == count_in(b, k, n) + if i < n {
            (if counted(p, k) {
                1int
            } else {
                0int
            }) - (if counted(b[i], k) {
                1int
            } else {
                0int
            })
        } else {
            0int
        },
    decreases n,
{
    if n > 0 {
        lemma_count_update(b, i, p, k, n - 1);
    }
}

proof fn lemma_count_bounds(b: Seq<Piece>, k: int, n: int)
    requires
        0 <= n,
    ensures
        0 <= count_in(b, k, n) <= n,
    decreases n,
{
    if n > 0 {
        lemma_count_bounds(b, k, n - 1);
    }
}

/// Bit `s` after setting it in `x`.
proof fn lemma_or_bit(x: u64, s: int, i: int)
    requires
        0 <= s < 64,
        0 <= i < 64,
    ensures
        has_bit(x | bit(s), i) == (has_bit(x, i) || i == s),
{
    let a = s as u64;
    let b = i as u64;
    assert((((x | (1u64 << a)) >> b) & 1u64 == 1u64) == (((x >> b) & 1u64 == 1u64) || a == b))
        by (bit_vector)
        requires
            a < 64,
            b < 64,
    ;
}

/// Bit `s` after toggling it in `x`.
proof fn lemma_xor_bit(x: u64, s: int, i: int)
    requires
        0 <= s < 64,
        0 <= i < 64,
    ensures
        has_bit(x ^ bit(s), i) == (if i == s {
            !has_bit(x, i)
        } else {
            has_bit(x, i)
        }),
{
    let a = s as u64;
    let b = i as u64;
    assert((((x ^ (1u64 << a)) >> b) & 1u64 == 1u64) == (if a == b {
        !((x >> b) & 1u64 == 1u64)
    } else {
        (x >> b) & 1u64 == 1u64
    })) by (bit_vector)
        requires
            a < 64,
            b < 64,
    ;
}

proof fn lemma_promotion_types_full(g: GenType)
    requires
        g == GenType::Evasions || g == GenType::NonEvasions,
    ensures
        forall|pt: PieceType|
            pt == PieceType::Knight || pt == PieceType::Bishop || pt == PieceType::Rook || pt
                == PieceType::Queen ==> #[trigger] promotion_types(g, true).contains(pt),
        forall|pt: PieceType|
            pt == PieceType::Knight || pt == PieceType::Bishop || pt == PieceType::Rook || pt
                == PieceType::Queen ==> #[trigger] promotion_types(g, false).contains(pt),
{
    let full = seq![PieceType::Queen, PieceType::Rook, PieceType::Bishop, PieceType::Knight];
    assert(promotion_types(g, true) =~= full);
    assert(promotion_types(g, false) =~= full);
    assert(full[0] == PieceType::Queen && full[1] == PieceType::Rook && full[2] == PieceType::Bishop
        && full[3] == PieceType::Knight);
}

/// Two sets with the same members are the same number.
pub proof fn lemma_bits_eq(a: u64, b: u64)
    requires
        forall|i: int| 0 <= i < 64 ==> #[trigger] has_bit(a, i) == has_bit(b, i),
    ensures
        a == b,
{
    if a != b {
        let x = a ^ b;
        assert(x != 0) by (bit_vector)
            requires
                a != b,
                x == a ^ b,
        ;
        vstd::std_specs::bits::axiom_u64_trailing_zeros(x);
        let t = vstd::std_specs::bits::u64_trailing_zeros(x) as u64;
        assert((x >> t) & 1u64 == 1u64);
        assert(((a >> t) & 1u64 == 1u64) != ((b >> t) & 1u64 == 1u64)) by (bit_vector)
            requires
                x == a ^ b,
                (x >> t) & 1u64 == 1u64,
        ;
        assert(has_bit(a, t as int) != has_bit(b, t as int));
    }
}

/// The board and its piece-square keys fold: XOR of the key of every occupied
/// square among the first `n`.
pub open spec fn psq_fold(z: Zobrist, b: Seq<Piece>, n: int) -> u64
    decreases n,
{
    if n <= 0 {
        0
    } else {
        psq_fold(z, b, n - 1) ^ psq_term(z, b[n - 1], n - 1)
    }
}

pub open spec fn psq_term(z: Zobrist, p: Piece, s: int) -> u64 {
    if p == Piece::NoPiece {
        0
    } else {
        z.psq_key(p, s)
    }
}

proof fn lemma_fold_update(z: Zobrist, b: Seq<Piece>, i: int, p: Piece, n: int)
    requires
        0 <= i < b.len(),
        0 <= n <= b.len(),
    ensures
        psq_fold(z, b.update(i, p), n) == if i < n {
            psq_fold(z, b, n) ^ psq_term(z, b[i], i) ^ psq_term(z, p, i)
        } else {
            psq_fold(z, b, n)
        },
    decreases n,
{
    if n > 0 {
        lemma_fold_update(z, b, i, p, n - 1);
        let f = psq_fold(z, b, n - 1);
        let x = psq_term(z, b[i], i);
        let y = psq_term(z, p, i);
        let t = psq_term(z, b[n - 1], n - 1);
        if n - 1 == i {
            assert(f ^ y == ((f ^ x) ^ x) ^ y) by (bit_vector);
        } else if i < n - 1 {
            assert(((f ^ x) ^ y) ^ t == ((f ^ t) ^ x) ^ y) by (bit_vector);
        }
    }
}

/// The hash key of a position computed from scratch.
pub open spec fn zkey(z: Zobrist, b: Seq<Piece>, side: Color, cr: u8, ep: Square) -> u64 {
    psq_fold(z, b, 64) ^ (if side == Color::Black {
        z.side_key()
    } else {
        0
    }) ^ z.castling_key(cr as int) ^ (if ep == Square::SqNone {
        0
    } else {
        z.ep_key(ep.file_n())
    })
}

/// The per-type sets agree with the board: slot 0 holds every occupied square,
/// slot `p` the squares of pieces of type index `p`.
pub open spec fn type_sets_ok(bt: Seq<u64>, b: Seq<Piece>) -> bool {
    &&& forall|i: int| 0 <= i < 64 ==> (#[trigger] has_bit(bt[0], i) <==> b[i] != Piece::NoPiece)
    &&& forall|p: int, i: int|
        1 <= p < 8 && 0 <= i < 64 ==> (#[trigger] has_bit(bt[p], i) <==> (b[i] != Piece::NoPiece
            && b[i].ptype().idx() == p))
}

/// The per-color sets agree with the board.
pub open spec fn color_sets_ok(bc: Seq<u64>, b: Seq<Piece>) -> bool {
    forall|c: int, i: int|
        0 <= c < 2 && 0 <= i < 64 ==> (#[trigger] has_bit(bc[c], i) <==> (b[i] != Piece::NoPiece
            && b[i].pcolor().idx() == c))
}

/// The piece counts agree with the board.
pub open spec fn counts_ok(pc: Seq<i32>, b: Seq<Piece>) -> bool {
    forall|k: int| 0 <= k < 16 ==> #[trigger] pc[k] == count_in(b, k, 64)
}

/// A chess position: the board, its bitboards and piece counts, castling
/// data, the side to move, the current state and the states of earlier plies.
pub struct Position {
    board: Vec<Piece>,
    by_type_bb: Vec<Bitboard>,
    by_color_bb: Vec<Bitboard>,
    piece_count: Vec<i32>,
    castling_rights_mask: Vec<u8>,
    castling_rook_square: Vec<Square>,
    castling_path: Vec<Bitboard>,
    st: StateInfo,
    history: Vec<StateInfo>,
    game_ply: i32,
    side_to_move: Color,
}

impl Position {
    pub closed spec fn board_spec(&self) -> Seq<Piece> {
        self.board@
    }

    pub closed spec fn type_sets(&self) -> Seq<u64> {
        self.by_type_bb@
    }

    pub closed spec fn color_sets(&self) -> Seq<u64> {
        self.by_color_bb@
    }

    pub closed spec fn counts(&self) -> Seq<i32> {
        self.piece_count@
    }

    pub closed spec fn state(&self) -> StateInfo {
        self.st
    }

    pub closed spec fn history_spec(&self) -> Seq<StateInfo> {
        self.history@
    }

    pub closed spec fn ply(&self) -> int {
        self.game_ply as int
    }

    pub closed spec fn side(&self) -> Color {
        self.side_to_move
    }

    pub closed spec fn rights_mask(&self) -> Seq<u8> {
        self.castling_rights_mask@
    }

    pub closed spec fn rook_squares(&self) -> Seq<Square> {
        self.castling_rook_square@
    }

    pub closed spec fn paths(&self) -> Seq<Bitboard> {
        self.castling_path@
    }

    /// Board, bitboards and piece counts are mutually consistent, and the
    /// castling tables have their sizes.
    pub closed spec fn board_ok(&self) -> bool {
        &&& self.board.len() == 64
        &&& self.by_type_bb.len() == 8
        &&& self.by_color_bb.len() == 2
        &&& self.piece_count.len() == 16
        &&& self.castling_rights_mask.len() == 64
        &&& self.castling_rook_square.len() == 16
        &&& self.castling_path.len() == 16
        &&& forall|i: int| 0 <= i < 64 ==> (#[trigger] self.castling_rights_mask@[i]) < 16
        &&& forall|i: int| 0 <= i < 16 ==> (#[trigger] self.castling_rook_square@[i]).is_on_board()
        &&& type_sets_ok(self.by_type_bb@, self.board@)
        &&& color_sets_ok(self.by_color_bb@, self.board@)
        &&& counts_ok(self.piece_count@, self.board@)
        &&& self.history.len() < 0x7000_0000
        &&& 0 <= self.game_ply < 0x7000_0000
        &&& self.history.len() == self.game_ply
    }

    /// An empty board, White to move.
    pub fn default() -> (r: Position)
        ensures
            r.board_ok(),
            r.board_spec().len() == 64,
            forall|i: int| 0 <= i < 64 ==> r.board_spec()[i] == Piece::NoPiece,
            r.state().castling_rights == 0,
            r.state().ep_square == Square::SqNone,
            r.state().rule_50 == 0,
            r.state().plies_from_null == 0,
            r.side() == Color::White,
            r.history_spec().len() == 0,
            r.ply() == 0,
    {
        let mut board: Vec<Piece> = Vec::new();
        let mut rights: Vec<u8> = Vec::new();
        let mut i: usize = 0;
        while i < 64
            invariant
                i <= 64,
                board.len() == i,
                rights.len() == i,
                forall|j: int| 0 <= j < i ==> board@[j] == Piece::NoPiece,
                forall|j: int| 0 <= j < i ==> rights@[j] == 0,
            decreases 64 - i,
        {
            board.push(Piece::NoPiece);
            rights.push(0);
            i += 1;
        }
        let mut counts: Vec<i32> = Vec::new();
        let mut rook_sq: Vec<Square> = Vec::new();
        let mut path: Vec<Bitboard> = Vec::new();
        let mut i: usize = 0;
        while i < 16
            invariant
                i <= 16,
                counts.len() == i,
                rook_sq.len() == i,
                path.len() == i,
                forall|j: int| 0 <= j < i ==> counts@[j] == 0,
                forall|j: int| 0 <= j < i ==> (#[trigger] rook_sq@[j]).is_on_board(),
            decreases 16 - i,
        {
            counts.push(0);
            rook_sq.push(Square::SqA1);
            path.push(0);
            i += 1;
        }
        let types: Vec<Bitboard> = vec![0, 0, 0, 0, 0, 0, 0, 0];
        let colors: Vec<Bitboard> = vec![0, 0];
        proof {
            assert forall|p: int, j: int| 0 <= p < 8 && 0 <= j < 64 implies !#[trigger] has_bit(
                types@[p],
                j,
            ) by {
                let jj = j as u64;
                lemma_bits_identity(0, 0, jj);
            }
            assert forall|c: int, j: int| 0 <= c < 2 && 0 <= j < 64 implies !#[trigger] has_bit(
                colors@[c],
                j,
            ) by {
                let jj = j as u64;
                lemma_bits_identity(0, 0, jj);
            }
            assert forall|k: int| 0 <= k < 16 implies #[trigger] counts@[k] == count_in(board@, k, 64) by {
                lemma_count_empty(board@, k, 64);
            }
        }
        Position {
            board,
            by_type_bb: types,
            by_color_bb: colors,
            piece_count: counts,
            castling_rights_mask: rights,
            castling_rook_square: rook_sq,
            castling_path: path,
            st: StateInfo::new(),
            history: Vec::new(),
            game_ply: 0,
            side_to_move: Color::White,
        }
    }

    /// Places `pc` on the empty square `s`.
    pub fn put_piece(&mut self, pc: Piece, s: Square)
        requires
            old(self).board_ok(),
            s.is_on_board(),
            pc != Piece::NoPiece,
            old(self).board_spec()[s.idx()] == Piece::NoPiece,
        ensures
            final(self).board_ok(),
            final(self).board_spec() == old(self).board_spec().update(s.idx(), pc),
            final(self).unchanged_but_board(*old(self)),
    {
        let ghost b0 = self.board@;
        let ghost t0 = self.by_type_bb@;
        let ghost c0 = self.by_color_bb@;
        let i = s.index();
        let pt = pc.type_of().index();
        let c = pc.color().index();
        let bit_s = s.bb();
        self.board.set(i, pc);
        let v0 = self.by_type_bb[0] | bit_s;
        self.by_type_bb.set(0, v0);
        let vt = self.by_type_bb[pt] | bit_s;
        self.by_type_bb.set(pt, vt);
        let vc = self.by_color_bb[c] | bit_s;
        self.by_color_bb.set(c, vc);
        proof {
            lemma_count_bounds(b0, pc.idx(), 64);
            lemma_count_bounds(b0, 8 * c, 64);
        }
        let n1 = self.piece_count[pc.index()] + 1;
        self.piece_count.set(pc.index(), n1);
        let n2 = self.piece_count[8 * c] + 1;
        self.piece_count.set(8 * c, n2);
        proof {
            assert forall|j: int| 0 <= j < 64 implies (#[trigger] has_bit(self.by_type_bb@[0], j)
                <==> self.board@[j] != Piece::NoPiece) by {
                lemma_or_bit(t0[0], i as int, j);
            }
            assert forall|p: int, j: int| 1 <= p < 8 && 0 <= j < 64 implies (#[trigger] has_bit(
                self.by_type_bb@[p],
                j,
            ) <==> (self.board@[j] != Piece::NoPiece && self.board@[j].ptype().idx() == p)) by {
                lemma_or_bit(t0[p], i as int, j);
            }
            assert forall|cc: int, j: int| 0 <= cc < 2 && 0 <= j < 64 implies (#[trigger] has_bit(
                self.by_color_bb@[cc],
                j,
            ) <==> (self.board@[j] != Piece::NoPiece && self.board@[j].pcolor().idx() == cc)) by {
                lemma_or_bit(c0[cc], i as int, j);
            }
            assert forall|k: int| 0 <= k < 16 implies #[trigger] self.piece_count@[k] == count_in(
                self.board@,
                k,
                64,
            ) by {
                lemma_count_update(b0, i as int, pc, k, 64);
            }
        }
    }

    /// Removes the piece on the occupied square `s`.
    pub fn remove_piece(&mut self, s: Square)
        requires
            old(self).board_ok(),
            s.is_on_board(),
            old(self).board_spec()[s.idx()] != Piece::NoPiece,
        ensures
            final(self).board_ok(),
            final(self).board_spec() == old(self).board_spec().update(s.idx(), Piece::NoPiece),
            final(self).unchanged_but_board(*old(self)),
    {
        let ghost b0 = self.board@;
        let ghost t0 = self.by_type_bb@;
        let ghost c0 = self.by_color_bb@;
        let i = s.index();
        let pc = self.board[i];
        let pt = pc.type_of().index();
        let c = pc.color().index();
        let bit_s = s.bb();
        self.board.set(i, Piece::NoPiece);
        let v0 = self.by_type_bb[0] ^ bit_s;
        self.by_type_bb.set(0, v0);
        let vt = self.by_type_bb[pt] ^ bit_s;
        self.by_type_bb.set(pt, vt);
        let vc = self.by_color_bb[c] ^ bit_s;
        self.by_color_bb.set(c, vc);
        proof {
            lemma_count_update(b0, i as int, Piece::NoPiece, pc.idx(), 64);
            lemma_count_update(b0, i as int, Piece::NoPiece, 8 * c, 64);
            lemma_count_bounds(self.board@, pc.idx(), 64);
            lemma_count_bounds(self.board@, 8 * c, 64);
        }
        let n1 = self.piece_count[pc.index()] - 1;
        self.piece_count.set(pc.index(), n1);
        let n2 = self.piece_count[8 * c] - 1;
        self.piece_count.set(8 * c, n2);
        proof {
            assert forall|j: int| 0 <= j < 64 implies (#[trigger] has_bit(self.by_type_bb@[0], j)
                <==> self.board@[j] != Piece::NoPiece) by {
                lemma_xor_bit(t0[0], i as int, j);
            }
            assert forall|p: int, j: int| 1 <= p < 8 && 0 <= j < 64 implies (#[trigger] has_bit(
                self.by_type_bb@[p],
                j,
            ) <==> (self.board@[j] != Piece::NoPiece && self.board@[j].ptype().idx() == p)) by {
                lemma_xor_bit(t0[p], i as int, j);
            }
            assert forall|cc: int, j: int| 0 <= cc < 2 && 0 <= j < 64 implies (#[trigger] has_bit(
                self.by_color_bb@[cc],
                j,
            ) <==> (self.board@[j] != Piece::NoPiece && self.board@[j].pcolor().idx() == cc)) by {
                lemma_xor_bit(c0[cc], i as int, j);
            }
            assert forall|k: int| 0 <= k < 16 implies #[trigger] self.piece_count@[k] == count_in(
                self.board@,
                k,
                64,
            ) by {
                lemma_count_update(b0, i as int, Piece::NoPiece, k, 64);
            }
        }
    }

    /// Moves the piece on `f` to the empty square `t`.
    pub fn move_piece(&mut self, f: Square, t: Square)
        requires
            old(self).board_ok(),
            f.is_on_board(),
            t.is_on_board(),
            old(self).board_spec()[f.idx()] != Piece::NoPiece,
            old(self).board_spec()[t.idx()] == Piece::NoPiece,
        ensures
            final(self).board_ok(),
            final(self).board_spec() == old(self).board_spec().update(f.idx(), Piece::NoPiece).update(
                t.idx(),
                old(self).board_spec()[f.idx()],
            ),
            final(self).unchanged_but_board(*old(self)),
    {
        let pc = self.board[f.index()];
        self.remove_piece(f);
        self.put_piece(pc, t);
    }

    /// Everything but the board and its derived sets and counts is as in `o`.
    pub open spec fn unchanged_but_board(&self, o: Position) -> bool {
        &&& self.state() == o.state()
        &&& self.history_spec() == o.history_spec()
        &&& self.ply() == o.ply()
        &&& self.side() == o.side()
        &&& self.rights_mask() == o.rights_mask()
        &&& self.rook_squares() == o.rook_squares()
        &&& self.paths() == o.paths()
    }
}

proof fn lemma_count_empty(b: Seq<Piece>, k: int, n: int)
    requires
        0 <= n <= b.len(),
        forall|j: int| 0 <= j < b.len() ==> b[j] == Piece::NoPiece,
    ensures
        count_in(b, k, n) == 0,
    decreases n,
{
    if n > 0 {
        lemma_count_empty(b, k, n - 1);
    }
}

/// The square of color `c`'s king (the lowest one), 64 when there is none.
pub open spec fn king_sq_of(tp: Seq<u64>, cs: Seq<u64>, c: Color) -> int {
    let kings = cs[c.idx()] & tp[PieceType::King.idx()];
    if kings == 0 {
        64
    } else {
        vstd::std_specs::bits::u64_trailing_zeros(kings) as int
    }
}

/// Enemy rooks, bishops and queens on a line or diagonal through color `c`'s king.
pub open spec fn snipers_of(tp: Seq<u64>, cs: Seq<u64>, c: Color) -> u64 {
    let k = king_sq_of(tp, cs, c);
    ((pseudo_spec(PieceType::Rook, k) & (tp[4] | tp[5])) | (pseudo_spec(PieceType::Bishop, k) & (
    tp[3] | tp[5]))) & cs[c.flip().idx()]
}

/// The single piece (as a set) between color `c`'s king and the sniper on
/// `s`; empty when there are none or several.
pub open spec fn blocker_at(tp: Seq<u64>, cs: Seq<u64>, c: Color, s: int) -> u64 {
    let b = between_spec(king_sq_of(tp, cs, c), s) & tp[0];
    if b != 0 && popcount(b) <= 1 {
        b
    } else {
        0
    }
}

/// Union of the blockers of the snipers on the first `n` squares.
pub open spec fn blockers_fold_of(tp: Seq<u64>, cs: Seq<u64>, c: Color, n: int) -> u64
    decreases n,
{
    if n <= 0 {
        0
    } else {
        blockers_fold_of(tp, cs, c, n - 1) | (if has_bit(snipers_of(tp, cs, c), n - 1) {
            blocker_at(tp, cs, c, n - 1)
        } else {
            0
        })
    }
}

/// The snipers on the first `n` squares whose single blocker is of color `c`.
pub open spec fn pinners_fold_of(tp: Seq<u64>, cs: Seq<u64>, c: Color, n: int) -> u64
    decreases n,
{
    if n <= 0 {
        0
    } else {
        pinners_fold_of(tp, cs, c, n - 1) | (if has_bit(snipers_of(tp, cs, c), n - 1) && blocker_at(
            tp,
            cs,
            c,
            n - 1,
        ) & cs[c.idx()] != 0 {
            bit(n - 1)
        } else {
            0
        })
    }
}

/// With no sniper on squares `n..m`, the folds do not change between `n` and `m`.
proof fn lemma_fold_skip(tp: Seq<u64>, cs: Seq<u64>, c: Color, n: int, m: int)
    requires
        0 <= n <= m <= 64,
        forall|j: int| n <= j < m ==> !has_bit(snipers_of(tp, cs, c), j),
    ensures
        blockers_fold_of(tp, cs, c, m) == blockers_fold_of(tp, cs, c, n),
        pinners_fold_of(tp, cs, c, m) == pinners_fold_of(tp, cs, c, n),
    decreases m - n,
{
    if m > n {
        lemma_fold_skip(tp, cs, c, n, m - 1);
        let x = blockers_fold_of(tp, cs, c, m - 1);
        let y = pinners_fold_of(tp, cs, c, m - 1);
        lemma_bits_identity(x, 0, 0);
        lemma_bits_identity(y, 0, 0);
    }
}

/// The pieces that attack square `s` when the occupied squares are `occ`
/// (`tp` and `cs` are the per-type and per-color sets).
pub open spec fn attackers_spec(tp: Seq<u64>, cs: Seq<u64>, s: int, occ: u64) -> u64 {
    (pawn_attacks_spec(bit(s), Color::Black) & (cs[0] & tp[1])) | (pawn_attacks_spec(
        bit(s),
        Color::White,
    ) & (cs[1] & tp[1])) | (pseudo_spec(PieceType::Knight, s) & tp[2]) | (attacks_spec(
        PieceType::Rook,
        s,
        occ,
    ) & (tp[4] | tp[5])) | (attacks_spec(PieceType::Bishop, s, occ) & (tp[3] | tp[5])) | (
    pseudo_spec(PieceType::King, s) & tp[6])
}

/// The square `s + d`, for square numbers.
pub open spec fn sq_plus(s: int, d: int) -> Square {
    Square::from_idx(s + d)
}

/// King and rook destinations of a castling move by `us` whose king is on
/// `kfrom` and whose rook is on `rfrom`.
pub open spec fn castle_king_to(us: Color, kfrom: int, rfrom: int) -> int {
    let base = if rfrom > kfrom {
        6
    } else {
        2
    };
    if us == Color::White {
        base
    } else {
        56 + base
    }
}

pub open spec fn castle_rook_to(us: Color, kfrom: int, rfrom: int) -> int {
    let base = if rfrom > kfrom {
        5
    } else {
        3
    };
    if us == Color::White {
        base
    } else {
        56 + base
    }
}

/// The square of the pawn that an en-passant move by `us` to `to` captures.
pub open spec fn ep_capture_sq(us: Color, to: int) -> int {
    if us == Color::White {
        to - 8
    } else {
        to + 8
    }
}

/// The piece that move `m` by `us` captures on board `b` (none for castling).
pub open spec fn captured_of(b: Seq<Piece>, m: Move, us: Color) -> Piece {
    match m.mtype() {
        MoveType::EnPassant => make_piece_spec(us.flip(), PieceType::Pawn),
        MoveType::Castling => Piece::NoPiece,
        _ => b[m.to_n()],
    }
}

/// The board after move `m` by `us`.
pub open spec fn board_after(b: Seq<Piece>, m: Move, us: Color) -> Seq<Piece> {
    let from = m.from_n();
    let to = m.to_n();
    match m.mtype() {
        MoveType::Normal => b.update(from, Piece::NoPiece).update(to, b[from]),
        MoveType::EnPassant => b.update(ep_capture_sq(us, to), Piece::NoPiece).update(
            from,
            Piece::NoPiece,
        ).update(to, b[from]),
        MoveType::Promotion => b.update(from, Piece::NoPiece).update(
            to,
            make_piece_spec(us, m.promo_type()),
        ),
        MoveType::Castling => b.update(from, Piece::NoPiece).update(to, Piece::NoPiece).update(
            castle_king_to(us, from, to),
            make_piece_spec(us, PieceType::King),
        ).update(castle_rook_to(us, from, to), make_piece_spec(us, PieceType::Rook)),
    }
}

/// The board before move `m` by `us`, which captured `cap`, given the board after it.
pub open spec fn board_before(b: Seq<Piece>, m: Move, us: Color, cap: Piece) -> Seq<Piece> {
    let from = m.from_n();
    let to = m.to_n();
    match m.mtype() {
        MoveType::Normal => b.update(to, cap).update(from, b[to]),
        MoveType::EnPassant => b.update(to, Piece::NoPiece).update(from, b[to]).update(
            ep_capture_sq(us, to),
            cap,
        ),
        MoveType::Promotion => b.update(to, cap).update(from, make_piece_spec(us, PieceType::Pawn)),
        MoveType::Castling => b.update(castle_king_to(us, from, to), Piece::NoPiece).update(
            castle_rook_to(us, from, to),
            Piece::NoPiece,
        ).update(from, make_piece_spec(us, PieceType::King)).update(
            to,
            make_piece_spec(us, PieceType::Rook),
        ),
    }
}

/// Move `m` is one that `us` can make on board `b`: its own piece moves, no
/// king is captured, and each special move finds the pieces it needs.
pub open spec fn move_shape_ok(b: Seq<Piece>, m: Move, us: Color) -> bool {
    let from = m.from_n();
    let to = m.to_n();
    let pc = b[from];
    &&& b.len() == 64
    &&& from != to
    &&& pc != Piece::NoPiece
    &&& pc.pcolor() == us
    &&& match m.mtype() {
        MoveType::Normal => b[to] == Piece::NoPiece || (b[to].pcolor() != us && b[to].ptype()
            != PieceType::King),
        MoveType::Promotion => pc == make_piece_spec(us, PieceType::Pawn) && (b[to]
            == Piece::NoPiece || (b[to].pcolor() != us && b[to].ptype() != PieceType::King)),
        MoveType::EnPassant => {
            &&& pc == make_piece_spec(us, PieceType::Pawn)
            &&& b[to] == Piece::NoPiece
            &&& 0 <= ep_capture_sq(us, to) < 64
            &&& ep_capture_sq(us, to) != from
            &&& b[ep_capture_sq(us, to)] == make_piece_spec(us.flip(), PieceType::Pawn)
        },
        MoveType::Castling => {
            let kto = castle_king_to(us, from, to);
            let rto = castle_rook_to(us, from, to);
            &&& pc == make_piece_spec(us, PieceType::King)
            &&& b[to] == make_piece_spec(us, PieceType::Rook)
            &&& (b[kto] == Piece::NoPiece || kto == from || kto == to)
            &&& (b[rto] == Piece::NoPiece || rto == from || rto == to)
        },
    }
}

/// Undoing a move restores the board that the move was made on.
pub proof fn lemma_board_round_trip(b: Seq<Piece>, m: Move, us: Color)
    requires
        move_shape_ok(b, m, us),
    ensures
        board_before(board_after(b, m, us), m, us, captured_of(b, m, us)) =~= b,
{
    let a = board_after(b, m, us);
    let r = board_before(a, m, us, captured_of(b, m, us));
    assert forall|i: int| 0 <= i < 64 implies r[i] == b[i] by {
    }
}

impl Position {
    /// The current key is the key computed from scratch from board, side,
    /// castling rights and en-passant square.
    pub open spec fn key_ok(&self, z: Zobrist) -> bool {
        self.state().key == zkey(
            z,
            self.board_spec(),
            self.side(),
            self.state().castling_rights,
            self.state().ep_square,
        )
    }

    /// A consistent position: board, sets and counts agree, the state's
    /// fields are in range and its key is the key of the position.
    pub open spec fn wf(&self, z: Zobrist) -> bool {
        &&& z.wf()
        &&& self.board_ok()
        &&& self.state().castling_rights < 16
        &&& (self.state().ep_square == Square::SqNone || self.state().ep_square.is_on_board())
        &&& 0 <= self.state().rule_50 < 0x7000_0000
        &&& 0 <= self.state().plies_from_null < 0x7000_0000
        &&& self.key_ok(z)
    }

    /// The pieces of color `c` and type `pt`.
    pub open spec fn pieces_spec(&self, c: Color, pt: PieceType) -> u64 {
        self.color_sets()[c.idx()] & self.type_sets()[pt.idx()]
    }

    pub fn piece_on(&self, s: Square) -> (r: Piece)
        requires
            self.board_ok(),
            s.is_on_board(),
        ensures
            r == self.board_spec()[s.idx()],
    {
        self.board[s.index()]
    }

    pub fn empty(&self, s: Square) -> (r: bool)
        requires
            self.board_ok(),
            s.is_on_board(),
        ensures
            r == (self.board_spec()[s.idx()] == Piece::NoPiece),
    {
        self.board[s.index()] == Piece::NoPiece
    }

    /// The piece that move `m` moves.
    pub fn moved_piece(&self, m: Move) -> (r: Piece)
        requires
            self.board_ok(),
        ensures
            r == self.board_spec()[m.from_n()],
    {
        self.board[m.from_sq().index()]
    }

    pub fn side_to_move(&self) -> (r: Color)
        ensures
            r == self.side(),
    {
        self.side_to_move
    }

    pub fn pieces_by_piecetype(&self, pt: PieceType) -> (r: Bitboard)
        requires
            self.board_ok(),
        ensures
            r == self.type_sets()[pt.idx()],
    {
        self.by_type_bb[pt.index()]
    }

    pub fn pieces_by_color(&self, color: Color) -> (r: Bitboard)
        requires
            self.board_ok(),
        ensures
            r == self.color_sets()[color.idx()],
    {
        self.by_color_bb[color.index()]
    }

    /// Every occupied square.
    pub fn all_pieces(&self) -> (r: Bitboard)
        requires
            self.board_ok(),
        ensures
            r == self.type_sets()[0],
            forall|i: int| 0 <= i < 64 ==> (has_bit(r, i) <==> self.board_spec()[i] != Piece::NoPiece),
    {
        self.by_type_bb[0]
    }

    /// The pieces of color `c` and type `pt`.
    pub fn pieces(&self, c: Color, pt: PieceType) -> (r: Bitboard)
        requires
            self.board_ok(),
        ensures
            r == self.pieces_spec(c, pt),
    {
        self.by_color_bb[c.index()] & self.by_type_bb[pt.index()]
    }

    /// The square of a piece of color `c` and type `pt` (the lowest one), or
    /// `SqNone` when there is none.
    pub fn square(&self, c: Color, pt: PieceType) -> (r: Square)
        requires
            self.board_ok(),
        ensures
            self.pieces_spec(c, pt) == 0 ==> r == Square::SqNone,
            self.pieces_spec(c, pt) != 0 ==> r.is_on_board() && has_bit(self.pieces_spec(c, pt), r.idx())
                && r.idx() == vstd::std_specs::bits::u64_trailing_zeros(self.pieces_spec(c, pt)),
    {
        let b = self.pieces(c, pt);
        if b == 0 {
            Square::SqNone
        } else {
            proof {
                vstd::std_specs::bits::axiom_u64_trailing_zeros(b);
            }
            Square::new_from_n(b.trailing_zeros() as i32)
        }
    }

    pub fn ep_square(&self) -> (r: Square)
        ensures
            r == self.state().ep_square,
    {
        self.st.ep_square
    }

    /// Whether any of the rights in `cr` is still held.
    pub fn can_castle(&self, cr: CastlingRights) -> (r: bool)
        ensures
            r == (self.state().castling_rights & (cr.num() as u8) != 0),
    {
        self.st.castling_rights & (cr.bits() as u8) != 0
    }

    /// The pieces that give check to the side to move.
    pub fn checkers(&self) -> (r: Bitboard)
        ensures
            r == self.state().checkers_bb,
    {
        self.st.checkers_bb
    }

    /// The pieces that shield color `c`'s king from a slider.
    pub fn blockers_for_king(&self, c: Color) -> (r: Bitboard)
        ensures
            r == self.state().blockers_for_king[c.idx()],
    {
        self.st.blockers_for_king[c.index()]
    }

    /// The sliders of color `c` that pin a piece to the other king.
    pub fn pinners(&self, c: Color) -> (r: Bitboard)
        ensures
            r == self.state().pinners[c.idx()],
    {
        self.st.pinners[c.index()]
    }

    /// The squares from which a piece of type `pt` of the side to move would check.
    pub fn check_squares(&self, pt: PieceType) -> (r: Bitboard)
        ensures
            r == self.state().check_squares[pt.idx()],
    {
        self.st.check_squares[pt.index()]
    }

    pub fn key(&self) -> (r: Key)
        ensures
            r == self.state().key,
    {
        self.st.key
    }

    pub fn pawn_key(&self) -> (r: Key)
        ensures
            r == self.state().pawn_key,
    {
        self.st.pawn_key
    }

    pub fn material_key(&self) -> (r: Key)
        ensures
            r == self.state().material_key,
    {
        self.st.material_key
    }

    pub fn non_pawn_material(&self, c: Color) -> (r: Value)
        ensures
            r == self.state().non_pawn_material[c.idx()],
    {
        self.st.non_pawn_material[c.index()]
    }

    pub fn game_ply(&self) -> (r: i32)
        ensures
            r == self.ply(),
    {
        self.game_ply
    }

    pub fn rule50_count(&self) -> (r: i32)
        ensures
            r == self.state().rule_50,
    {
        self.st.rule_50
    }

    pub fn captured_piece(&self) -> (r: Piece)
        ensures
            r == self.state().captured_piece,
    {
        self.st.captured_piece
    }

    /// Number of plies that can be undone.
    pub fn depth(&self) -> (r: usize)
        ensures
            r == self.history_spec().len(),
    {
        self.history.len()
    }

    /// The pieces of both colors that attack `s` when `occupied` are the occupied squares.
    pub fn attackers_to(&self, t: &BitboardTables, s: Square, occupied: Bitboard) -> (r: Bitboard)
        requires
            t.wf(),
            self.board_ok(),
            s.is_on_board(),
        ensures
            r == attackers_spec(self.type_sets(), self.color_sets(), s.idx(), occupied),
    {
        (get_pawn_attacks_bb(t, Color::Black, s) & self.pieces(Color::White, PieceType::Pawn)) | (
        get_pawn_attacks_bb(t, Color::White, s) & self.pieces(Color::Black, PieceType::Pawn)) | (
        get_pseudo_attacks(t, PieceType::Knight, s) & self.by_type_bb[2]) | (attacks_bb(
            t,
            PieceType::Rook,
            s,
            occupied,
        ) & (self.by_type_bb[4] | self.by_type_bb[5])) | (attacks_bb(
            t,
            PieceType::Bishop,
            s,
            occupied,
        ) & (self.by_type_bb[3] | self.by_type_bb[5])) | (get_pseudo_attacks(
            t,
            PieceType::King,
            s,
        ) & self.by_type_bb[6])
    }

    /// The square of color `c`'s king (the lowest one), `SqNone` without one.
    pub fn king_square(&self, c: Color) -> (r: Square)
        requires
            self.board_ok(),
        ensures
            self.king_sq(c) == 64 ==> r == Square::SqNone,
            self.king_sq(c) != 64 ==> r.is_on_board() && r.idx() == self.king_sq(c),
    {
        let kings = self.pieces(c, PieceType::King);
        proof {
            vstd::std_specs::bits::axiom_u64_trailing_zeros(kings);
        }
        if kings == 0 {
            Square::SqNone
        } else {
            Square::new_from_n(kings.trailing_zeros() as i32)
        }
    }

    pub open spec fn snipers_spec(&self, c: Color) -> u64 {
        snipers_of(self.type_sets(), self.color_sets(), c)
    }

    pub open spec fn blocker_of(&self, c: Color, s: int) -> u64 {
        blocker_at(self.type_sets(), self.color_sets(), c, s)
    }

    pub open spec fn blockers_fold(&self, c: Color, n: int) -> u64 {
        blockers_fold_of(self.type_sets(), self.color_sets(), c, n)
    }

    pub open spec fn pinners_fold(&self, c: Color, n: int) -> u64 {
        pinners_fold_of(self.type_sets(), self.color_sets(), c, n)
    }

    /// The pieces that alone stand between color `c`'s king and an enemy slider.
    pub open spec fn blockers_spec(&self, c: Color) -> u64 {
        if self.king_sq(c) == 64 {
            0
        } else {
            self.blockers_fold(c, 64)
        }
    }

    /// The enemy sliders that pin a piece of color `c` to its king.
    pub open spec fn pinners_spec(&self, c: Color) -> u64 {
        if self.king_sq(c) == 64 {
            0
        } else {
            self.pinners_fold(c, 64)
        }
    }

    /// Squares from which a piece of each type of the side to move would
    /// attack the enemy king (none for the king itself).
    pub open spec fn check_squares_spec(&self, pt: int) -> u64 {
        let them = self.side().flip();
        let k = self.king_sq(them);
        let occ = self.type_sets()[0];
        if k == 64 {
            0
        } else if pt == 1 {
            pawn_attacks_spec(bit(k), them)
        } else if pt == 2 {
            pseudo_spec(PieceType::Knight, k)
        } else if pt == 3 {
            attacks_spec(PieceType::Bishop, k, occ)
        } else if pt == 4 {
            attacks_spec(PieceType::Rook, k, occ)
        } else if pt == 5 {
            attacks_spec(PieceType::Bishop, k, occ) | attacks_spec(PieceType::Rook, k, occ)
        } else {
            0
        }
    }

    /// Blockers, pinners and check squares are those of the position.
    pub open spec fn check_info_ok(&self) -> bool {
        &&& self.state().blockers_for_king[0] == self.blockers_spec(Color::White)
        &&& self.state().blockers_for_king[1] == self.blockers_spec(Color::Black)
        &&& self.state().pinners[1] == self.pinners_spec(Color::White)
        &&& self.state().pinners[0] == self.pinners_spec(Color::Black)
        &&& forall|pt: int| 0 <= pt < 8 ==> #[trigger] self.state().check_squares[pt] == self.check_squares_spec(pt)
    }

    /// Recomputes which pieces shield color `c`'s king from an enemy slider,
    /// and which enemy sliders pin a piece of color `c`.
    pub fn update_sliders_blockers(&mut self, t: &BitboardTables, c: Color)
        requires
            t.wf(),
            old(self).board_ok(),
        ensures
            final(self).state().blockers_for_king[c.idx()] == final(self).blockers_spec(c),
            final(self).state().pinners[c.flip().idx()] == final(self).pinners_spec(c),
            final(self).state().blockers_for_king[c.flip().idx()] == old(self).state().blockers_for_king[c.flip().idx()],
            final(self).state().pinners[c.idx()] == old(self).state().pinners[c.idx()],
            final(self).state().check_squares == old(self).state().check_squares,
            final(self).board_ok(),
            final(self).board_spec() == old(self).board_spec(),
            final(self).type_sets() == old(self).type_sets(),
            final(self).color_sets() == old(self).color_sets(),
            final(self).counts() == old(self).counts(),
            final(self).unchanged_but_checks(*old(self)),
    {
        let ksq = self.king_square(c);
        let them = c.opposite();
        let mut blockers: Bitboard = 0;
        let mut pinners: Bitboard = 0;
        if ksq != Square::SqNone {
            let rooks_queens = self.by_type_bb[4] | self.by_type_bb[5];
            let bishops_queens = self.by_type_bb[3] | self.by_type_bb[5];
            let snipers0 = ((get_pseudo_attacks(t, PieceType::Rook, ksq) & rooks_queens) | (
            get_pseudo_attacks(t, PieceType::Bishop, ksq) & bishops_queens))
                & self.by_color_bb[them.index()];
            let mut snipers = snipers0;
            let occupancy = self.by_type_bb[0];
            let own = self.by_color_bb[c.index()];
            let ghost mut n: int = 0;
            while snipers != 0
                invariant
                    t.wf(),
                    self.board_ok(),
                    ksq.is_on_board(),
                    ksq.idx() == self.king_sq(c),
                    snipers0 == self.snipers_spec(c),
                    occupancy == self.type_sets()[0],
                    own == self.color_sets()[c.idx()],
                    0 <= n <= 64,
                    forall|j: int|
                        0 <= j < 64 ==> (#[trigger] has_bit(snipers, j) <==> (has_bit(snipers0, j)
                            && j >= n)),
                    blockers == self.blockers_fold(c, n),
                    pinners == self.pinners_fold(c, n),
                decreases snipers,
            {
                let ghost before = snipers;
                let sniper_sq = pop_lsb(&mut snipers);
                let ghost r = sniper_sq.idx();
                proof {
                    assert(has_bit(before, r));
                    assert forall|j: int| n <= j < r implies !has_bit(snipers0, j) by {
                        assert(!has_bit(before, j));
                    }
                    self.lemma_fold_skip(c, n, r);
                }
                let b = between_bb(t, ksq, sniper_sq) & occupancy;
                let ghost bl0 = blockers;
                let ghost pn0 = pinners;
                assert(b == self.blocker_of(c, r) || !(b != 0 && popcount(b) <= 1));
                if b != 0 && !more_than_one(b) {
                    blockers = blockers | b;
                    if b & own != 0 {
                        pinners = pinners | sniper_sq.bb();
                    } else {
                        proof {
                            lemma_bits_identity(pn0, 0, 0);
                        }
                    }
                } else {
                    assert(self.blocker_of(c, r) == 0);
                    proof {
                        lemma_bits_identity(bl0, 0, 0);
                    }
                    proof {
                        lemma_bits_identity(pn0, own, 0);
                    }
                    proof {
                        lemma_bits_identity(own, 0, 0);
                    }
                }
                proof {
                    n = r + 1;
                    assert forall|j: int| 0 <= j < 64 implies (#[trigger] has_bit(snipers, j) <==> (
                    has_bit(snipers0, j) && j >= n)) by {
                        if j != r {
                            assert(has_bit(snipers, j) == has_bit(before, j));
                        }
                    }
                }
            }
            proof {
                assert forall|j: int| n <= j < 64 implies !has_bit(snipers0, j) by {
                    assert(!has_bit(snipers, j)) by {
                        let jj = j as u64;
                        lemma_bits_identity(0, 0, jj);
                    }
                }
                self.lemma_fold_skip(c, n, 64);
            }
        }
        assert(blockers == self.blockers_spec(c));
        assert(pinners == self.pinners_spec(c));
        let mut bk = self.st.blockers_for_king;
        let mut pn = self.st.pinners;
        if c == Color::White {
            bk = [blockers, bk[1]];
            pn = [pn[0], pinners];
        } else {
            bk = [bk[0], blockers];
            pn = [pinners, pn[1]];
        }
        assert(bk[c.idx()] == blockers);
        assert(pn[c.flip().idx()] == pinners);
        self.st.blockers_for_king = bk;
        self.st.pinners = pn;
    }

    proof fn lemma_fold_skip(&self, c: Color, n: int, m: int)
        requires
            0 <= n <= m <= 64,
            forall|j: int| n <= j < m ==> !has_bit(self.snipers_spec(c), j),
        ensures
            self.blockers_fold(c, m) == self.blockers_fold(c, n),
            self.pinners_fold(c, m) == self.pinners_fold(c, n),
    {
        assert forall|j: int| n <= j < m implies !has_bit(
            snipers_of(self.type_sets(), self.color_sets(), c),
            j,
        ) by {
            assert(!has_bit(self.snipers_spec(c), j));
        }
        lemma_fold_skip(self.type_sets(), self.color_sets(), c, n, m);
    }

    /// Everything but the check information of the current state is as in `o`.
    pub open spec fn unchanged_but_checks(&self, o: Position) -> bool {
        &&& self.history_spec() == o.history_spec()
        &&& self.ply() == o.ply()
        &&& self.side() == o.side()
        &&& self.rights_mask() == o.rights_mask()
        &&& self.rook_squares() == o.rook_squares()
        &&& self.paths() == o.paths()
        &&& self.state().key == o.state().key
        &&& self.state().castling_rights == o.state().castling_rights
        &&& self.state().ep_square == o.state().ep_square
        &&& self.state().rule_50 == o.state().rule_50
        &&& self.state().plies_from_null == o.state().plies_from_null
        &&& self.state().checkers_bb == o.state().checkers_bb
        &&& self.state().captured_piece == o.state().captured_piece
    }

    /// Recomputes blockers, pinners and the squares from which the side to
    /// move would give check.
    pub fn set_check_info(&mut self, t: &BitboardTables)
        requires
            t.wf(),
            old(self).board_ok(),
        ensures
            final(self).board_ok(),
            final(self).board_spec() == old(self).board_spec(),
            final(self).type_sets() == old(self).type_sets(),
            final(self).color_sets() == old(self).color_sets(),
            final(self).counts() == old(self).counts(),
            final(self).unchanged_but_checks(*old(self)),
            final(self).check_info_ok(),
    {
        self.update_sliders_blockers(t, Color::White);
        self.update_sliders_blockers(t, Color::Black);
        let them = self.side_to_move.opposite();
        let ksq = self.king_square(them);
        if ksq == Square::SqNone {
            self.st.check_squares = [0, 0, 0, 0, 0, 0, 0, 0];
        } else {
            let occ = self.by_type_bb[0];
            let pawn = get_pawn_attacks_bb(t, them, ksq);
            let knight = get_pseudo_attacks(t, PieceType::Knight, ksq);
            let bishop = attacks_bb(t, PieceType::Bishop, ksq, occ);
            let rook = attacks_bb(t, PieceType::Rook, ksq, occ);
            self.st.check_squares = [0, pawn, knight, bishop, rook, bishop | rook, 0, 0];
        }
        assert forall|pt: int| 0 <= pt < 8 implies #[trigger] self.st.check_squares[pt]
            == self.check_squares_spec(pt) by {
        }
    }
}

impl Position {
    /// XOR of the piece-square keys of every occupied square.
    pub fn psq_key(&self, z: &Zobrist) -> (r: Key)
        requires
            z.wf(),
            self.board_ok(),
        ensures
            r == psq_fold(*z, self.board_spec(), 64),
    {
        let mut k: Key = 0;
        let mut i: usize = 0;
        while i < 64
            invariant
                z.wf(),
                self.board_ok(),
                i <= 64,
                k == psq_fold(*z, self.board@, i as int),
            decreases 64 - i,
        {
            let pc = self.board[i];
            if pc != Piece::NoPiece {
                k = k ^ get_zobrist_psq(z, pc, Square::new_from_n(i as i32));
            } else {
                proof {
                    lemma_bits_identity(k, 0, 0);
                }
            }
            i += 1;
        }
        k
    }

    /// The key of the position computed from scratch.
    pub fn compute_key(&self, z: &Zobrist) -> (r: Key)
        requires
            z.wf(),
            self.board_ok(),
            self.state().castling_rights < 16,
            self.state().ep_square == Square::SqNone || self.state().ep_square.is_on_board(),
        ensures
            r == zkey(
                *z,
                self.board_spec(),
                self.side(),
                self.state().castling_rights,
                self.state().ep_square,
            ),
    {
        let mut k = self.psq_key(z);
        let s = if self.side_to_move == Color::Black {
            get_zobrist_side(z)
        } else {
            0
        };
        let c = get_zobrist_castling(z, self.st.castling_rights as usize);
        let e = if self.st.ep_square == Square::SqNone {
            0
        } else {
            get_zobrist_enpassant(z, self.st.ep_square.file_of())
        };
        k ^ s ^ c ^ e
    }

    /// Recomputes every key, the material, the checkers and the check
    /// information from the board, after the position was set up piece by piece.
    pub fn set_state(&mut self, t: &BitboardTables, z: &Zobrist)
        requires
            t.wf(),
            z.wf(),
            old(self).board_ok(),
            old(self).state().castling_rights < 16,
            old(self).state().ep_square == Square::SqNone || old(self).state().ep_square.is_on_board(),
            0 <= old(self).state().rule_50 < 0x7000_0000,
            0 <= old(self).state().plies_from_null < 0x7000_0000,
        ensures
            final(self).wf(*z),
            final(self).board_spec() == old(self).board_spec(),
            final(self).side() == old(self).side(),
            final(self).history_spec() == old(self).history_spec(),
            final(self).ply() == old(self).ply(),
            final(self).state().checkers_bb == final(self).checkers_spec(),
            final(self).check_info_ok(),
    {
        let mut pawn_key = get_zorist_nopawns(z);
        let mut material_key: Key = 0;
        let mut npm_w: Value = 0;
        let mut npm_b: Value = 0;
        let mut i: usize = 0;
        while i < 64
            invariant
                z.wf(),
                self.board_ok(),
                i <= 64,
            decreases 64 - i,
        {
            let pc = self.board[i];
            if pc != Piece::NoPiece {
                let sq = Square::new_from_n(i as i32);
                if pc.type_of() == PieceType::Pawn {
                    pawn_key = pawn_key ^ get_zobrist_psq(z, pc, sq);
                } else if pc.type_of() != PieceType::King {
                    if pc.color() == Color::White {
                        npm_w = npm_w.wrapping_add(piece_value(pc));
                    } else {
                        npm_b = npm_b.wrapping_add(piece_value(pc));
                    }
                }
            }
            i += 1;
        }
        let mut p: usize = 1;
        while p < 15
            invariant
                z.wf(),
                self.board_ok(),
                1 <= p <= 15,
            decreases 15 - p,
        {
            if p != 7 && p != 8 {
                let pc = Piece::new_from_n(p);
                let n = self.piece_count[p];
                let mut cnt: i32 = 0;
                while cnt < n && cnt < 64
                    invariant
                        z.wf(),
                        0 <= cnt <= 64,
                    decreases 64 - cnt,
                {
                    material_key = material_key ^ get_zobrist_psq(z, pc, Square::new_from_n(cnt));
                    cnt += 1;
                }
            }
            p += 1;
        }
        self.st.pawn_key = pawn_key;
        self.st.material_key = material_key;
        self.st.non_pawn_material = [npm_w, npm_b];
        self.st.key = self.compute_key(z);
        self.st.checkers_bb = self.compute_checkers(t);
        self.set_check_info(t);
    }

    /// The square of color `c`'s king (the lowest one), 64 when there is none.
    pub open spec fn king_sq(&self, c: Color) -> int {
        king_sq_of(self.type_sets(), self.color_sets(), c)
    }

    /// The enemy pieces that attack the king of the side to move: exactly the
    /// pieces of the other color that `attackers_spec` finds on the king's
    /// square with the current occupancy; none without a king.
    pub open spec fn checkers_spec(&self) -> u64 {
        let k = self.king_sq(self.side());
        if k == 64 {
            0
        } else {
            attackers_spec(self.type_sets(), self.color_sets(), k, self.type_sets()[0])
                & self.color_sets()[self.side().flip().idx()]
        }
    }

    /// The enemy pieces that attack the king of the side to move.
    fn compute_checkers(&self, t: &BitboardTables) -> (r: Bitboard)
        requires
            t.wf(),
            self.board_ok(),
        ensures
            r == self.checkers_spec(),
    {
        let us = self.side_to_move;
        let kings = self.pieces(us, PieceType::King);
        let ksq = if kings == 0 {
            Square::SqNone
        } else {
            Square::new_from_n(kings.trailing_zeros() as i32)
        };
        proof {
            vstd::std_specs::bits::axiom_u64_trailing_zeros(kings);
        }
        if ksq == Square::SqNone {
            0
        } else {
            self.attackers_to(t, ksq, self.by_type_bb[0]) & self.by_color_bb[us.opposite().index()]
        }
    }
}

/// Identities of XOR, OR and AND with zero, and of a zero shifted.
proof fn lemma_bits_identity(x: u64, y: u64, j: u64)
    ensures
        x ^ 0u64 == x,
        0u64 ^ x == x,
        x | 0u64 == x,
        0u64 & x == 0u64,
        (x ^ y) ^ y == x,
        x ^ x == 0u64,
        (0u64 >> j) & 1u64 == 0u64,
{
    assert(x ^ 0u64 == x && 0u64 ^ x == x && x | 0u64 == x && 0u64 & x == 0u64 && (x ^ y) ^ y == x
        && x ^ x == 0u64 && (0u64 >> j) & 1u64 == 0u64) by (bit_vector);
}

proof fn lemma_xor_remove(k: u64, f: u64, x: u64)
    ensures
        (k ^ x) ^ ((f ^ x) ^ 0u64) == k ^ f,
{
    assert((k ^ x) ^ ((f ^ x) ^ 0u64) == k ^ f) by (bit_vector);
}

proof fn lemma_xor_put(k: u64, f: u64, y: u64)
    ensures
        (k ^ y) ^ ((f ^ 0u64) ^ y) == k ^ f,
{
    assert((k ^ y) ^ ((f ^ 0u64) ^ y) == k ^ f) by (bit_vector);
}

/// The key term of the en-passant square `ep`.
pub open spec fn ep_term(z: Zobrist, ep: Square) -> u64 {
    if ep == Square::SqNone {
        0
    } else {
        z.ep_key(ep.file_n())
    }
}

pub open spec fn side_term(z: Zobrist, c: Color) -> u64 {
    if c == Color::Black {
        z.side_key()
    } else {
        0
    }
}

impl Position {
    /// `remove_piece`, with `k` updated by the removed piece's key.
    fn remove_piece_k(&mut self, z: &Zobrist, s: Square, k: &mut Key)
        requires
            z.wf(),
            old(self).board_ok(),
            s.is_on_board(),
            old(self).board_spec()[s.idx()] != Piece::NoPiece,
        ensures
            final(self).board_ok(),
            final(self).board_spec() == old(self).board_spec().update(s.idx(), Piece::NoPiece),
            final(self).unchanged_but_board(*old(self)),
            *final(k) ^ psq_fold(*z, final(self).board_spec(), 64) == *old(k) ^ psq_fold(
                *z,
                old(self).board_spec(),
                64,
            ),
    {
        let pc = self.board[s.index()];
        let ghost b0 = self.board@;
        *k = *k ^ get_zobrist_psq(z, pc, s);
        self.remove_piece(s);
        proof {
            lemma_fold_update(*z, b0, s.idx(), Piece::NoPiece, 64);
            lemma_xor_remove(*old(k), psq_fold(*z, b0, 64), z.psq_key(pc, s.idx()));
        }
    }

    /// `put_piece`, with `k` updated by the placed piece's key.
    fn put_piece_k(&mut self, z: &Zobrist, pc: Piece, s: Square, k: &mut Key)
        requires
            z.wf(),
            old(self).board_ok(),
            s.is_on_board(),
            pc != Piece::NoPiece,
            old(self).board_spec()[s.idx()] == Piece::NoPiece,
        ensures
            final(self).board_ok(),
            final(self).board_spec() == old(self).board_spec().update(s.idx(), pc),
            final(self).unchanged_but_board(*old(self)),
            *final(k) ^ psq_fold(*z, final(self).board_spec(), 64) == *old(k) ^ psq_fold(
                *z,
                old(self).board_spec(),
                64,
            ),
    {
        let ghost b0 = self.board@;
        *k = *k ^ get_zobrist_psq(z, pc, s);
        self.put_piece(pc, s);
        proof {
            lemma_fold_update(*z, b0, s.idx(), pc, 64);
            lemma_xor_put(*old(k), psq_fold(*z, b0, 64), z.psq_key(pc, s.idx()));
        }
    }

    /// `move_piece`, with `k` updated by the moved piece's keys.
    fn move_piece_k(&mut self, z: &Zobrist, f: Square, t: Square, k: &mut Key)
        requires
            z.wf(),
            old(self).board_ok(),
            f.is_on_board(),
            t.is_on_board(),
            old(self).board_spec()[f.idx()] != Piece::NoPiece,
            old(self).board_spec()[t.idx()] == Piece::NoPiece,
        ensures
            final(self).board_ok(),
            final(self).board_spec() == old(self).board_spec().update(f.idx(), Piece::NoPiece).update(
                t.idx(),
                old(self).board_spec()[f.idx()],
            ),
            final(self).unchanged_but_board(*old(self)),
            *final(k) ^ psq_fold(*z, final(self).board_spec(), 64) == *old(k) ^ psq_fold(
                *z,
                old(self).board_spec(),
                64,
            ),
    {
        let pc = self.board[f.index()];
        self.remove_piece_k(z, f, k);
        self.put_piece_k(z, pc, t, k);
    }

    /// Moves king and rook for castling with the king on `from` and the rook on
    /// `rfrom`; returns the king's destination.
    fn do_castling(&mut self, z: &Zobrist, us: Color, from: Square, rfrom: Square, k: &mut Key) -> (kto: Square)
        requires
            z.wf(),
            old(self).board_ok(),
            from.is_on_board(),
            rfrom.is_on_board(),
            from != rfrom,
            old(self).board_spec()[from.idx()] == make_piece_spec(us, PieceType::King),
            old(self).board_spec()[rfrom.idx()] == make_piece_spec(us, PieceType::Rook),
            ({
                let kt = castle_king_to(us, from.idx(), rfrom.idx());
                let rt = castle_rook_to(us, from.idx(), rfrom.idx());
                &&& (old(self).board_spec()[kt] == Piece::NoPiece || kt == from.idx() || kt == rfrom.idx())
                &&& (old(self).board_spec()[rt] == Piece::NoPiece || rt == from.idx() || rt == rfrom.idx())
            }),
        ensures
            final(self).board_ok(),
            kto.idx() == castle_king_to(us, from.idx(), rfrom.idx()),
            final(self).board_spec() == old(self).board_spec().update(from.idx(), Piece::NoPiece).update(
                rfrom.idx(),
                Piece::NoPiece,
            ).update(castle_king_to(us, from.idx(), rfrom.idx()), make_piece_spec(us, PieceType::King)).update(
                castle_rook_to(us, from.idx(), rfrom.idx()),
                make_piece_spec(us, PieceType::Rook),
            ),
            final(self).unchanged_but_board(*old(self)),
            *final(k) ^ psq_fold(*z, final(self).board_spec(), 64) == *old(k) ^ psq_fold(
                *z,
                old(self).board_spec(),
                64,
            ),
    {
        let kingside = rfrom.index() > from.index();
        let kto = (if kingside {
            Square::SqG1
        } else {
            Square::SqC1
        }).relative_square(us);
        let rto = (if kingside {
            Square::SqF1
        } else {
            Square::SqD1
        }).relative_square(us);
        let king = make_piece(us, PieceType::King);
        let rook = make_piece(us, PieceType::Rook);
        self.remove_piece_k(z, from, k);
        self.remove_piece_k(z, rfrom, k);
        self.put_piece_k(z, king, kto, k);
        self.put_piece_k(z, rook, rto, k);
        kto
    }

    /// Undoes `do_castling`.
    fn undo_castling(&mut self, us: Color, from: Square, rfrom: Square)
        requires
            old(self).board_ok(),
            from.is_on_board(),
            rfrom.is_on_board(),
            from != rfrom,
            old(self).board_spec()[castle_king_to(us, from.idx(), rfrom.idx())] == make_piece_spec(us, PieceType::King),
            old(self).board_spec()[castle_rook_to(us, from.idx(), rfrom.idx())] == make_piece_spec(us, PieceType::Rook),
            ({
                let kt = castle_king_to(us, from.idx(), rfrom.idx());
                let rt = castle_rook_to(us, from.idx(), rfrom.idx());
                &&& (old(self).board_spec()[from.idx()] == Piece::NoPiece || kt == from.idx() || rt == from.idx())
                &&& (old(self).board_spec()[rfrom.idx()] == Piece::NoPiece || kt == rfrom.idx() || rt == rfrom.idx())
            }),
        ensures
            final(self).board_ok(),
            final(self).board_spec() == old(self).board_spec().update(
                castle_king_to(us, from.idx(), rfrom.idx()),
                Piece::NoPiece,
            ).update(castle_rook_to(us, from.idx(), rfrom.idx()), Piece::NoPiece).update(
                from.idx(),
                make_piece_spec(us, PieceType::King),
            ).update(rfrom.idx(), make_piece_spec(us, PieceType::Rook)),
            final(self).unchanged_but_board(*old(self)),
    {
        let kingside = rfrom.index() > from.index();
        let kto = (if kingside {
            Square::SqG1
        } else {
            Square::SqC1
        }).relative_square(us);
        let rto = (if kingside {
            Square::SqF1
        } else {
            Square::SqD1
        }).relative_square(us);
        let king = make_piece(us, PieceType::King);
        let rook = make_piece(us, PieceType::Rook);
        self.remove_piece(kto);
        self.remove_piece(rto);
        self.put_piece(king, from);
        self.put_piece(rook, rfrom);
    }
}

/// The castling right of color `c` on the king side (`kingside`) or the queen side.
pub open spec fn castle_bit(c: Color, kingside: bool) -> u8 {
    match (c, kingside) {
        (Color::White, true) => 1u8,
        (Color::White, false) => 2u8,
        (Color::Black, true) => 4u8,
        (Color::Black, false) => 8u8,
    }
}

/// The squares that must be empty to castle with the king on `k` and the rook
/// on `r`: those the king and the rook cross or land on, king and rook excluded.
pub open spec fn castle_path_spec(c: Color, k: int, r: int) -> u64 {
    let kto = castle_king_to(c, k, r);
    let rto = castle_rook_to(c, k, r);
    (between_spec(r, rto) | bit(rto) | between_spec(k, kto) | bit(kto)) & !(bit(k) | bit(r))
}

/// Where the king of `us` ends up after move `m`: the castling square for
/// castling, the destination otherwise.
pub open spec fn king_dest(m: Move, us: Color) -> int {
    if m.mtype() == MoveType::Castling {
        castle_king_to(us, m.from_n(), m.to_n())
    } else {
        m.to_n()
    }
}

/// The en-passant square after move `m` of `us` in the resulting position
/// `p`: the square behind a pawn's double push when an enemy pawn attacks it,
/// else none.
pub open spec fn new_ep_square(p: Position, m: Move, us: Color, pawn: bool) -> Square {
    let f = m.from_n();
    let t = m.to_n();
    let mid = (f + t) / 2;
    if pawn && (t == f + 16 || f == t + 16) && pawn_attacks_spec(bit(mid), us) & p.pieces_spec(
        us.flip(),
        PieceType::Pawn,
    ) != 0 {
        Square::from_idx(mid)
    } else {
        Square::SqNone
    }
}

/// Undoing move `m` of `us`, which captured `cap`, can run on board `b`.
pub open spec fn undo_shape_ok(b: Seq<Piece>, m: Move, us: Color, cap: Piece) -> bool {
    let from = m.from_n();
    let to = m.to_n();
    &&& b.len() == 64
    &&& from != to
    &&& match m.mtype() {
        MoveType::Castling => {
            let kto = castle_king_to(us, from, to);
            let rto = castle_rook_to(us, from, to);
            &&& b[kto] == make_piece_spec(us, PieceType::King)
            &&& b[rto] == make_piece_spec(us, PieceType::Rook)
            &&& (b[from] == Piece::NoPiece || kto == from || rto == from)
            &&& (b[to] == Piece::NoPiece || kto == to || rto == to)
        },
        MoveType::EnPassant => {
            &&& b[to] != Piece::NoPiece
            &&& b[from] == Piece::NoPiece
            &&& 0 <= ep_capture_sq(us, to) < 64
            &&& ep_capture_sq(us, to) != from
            &&& b[ep_capture_sq(us, to)] == Piece::NoPiece
            &&& cap != Piece::NoPiece
        },
        _ => b[to] != Piece::NoPiece && b[from] == Piece::NoPiece,
    }
}

proof fn lemma_undo_shape(b: Seq<Piece>, m: Move, us: Color)
    requires
        move_shape_ok(b, m, us),
    ensures
        undo_shape_ok(board_after(b, m, us), m, us, captured_of(b, m, us)),
{
}

proof fn lemma_key_final(
    k1: u64,
    f1: u64,
    f0: u64,
    so: u64,
    sn: u64,
    s: u64,
    c0: u64,
    c1: u64,
    e0: u64,
    e1: u64,
    k3: u64,
    k4: u64,
    f2: u64,
    k5: u64,
)
    requires
        k1 ^ f1 == ((((f0 ^ so) ^ c0) ^ e0) ^ s) ^ f0,
        k3 == ((k1 ^ e0) ^ c0) ^ c1,
        k4 ^ f2 == k3 ^ f1,
        k5 == k4 ^ e1,
        sn == so ^ s,
    ensures
        k5 == ((f2 ^ sn) ^ c1) ^ e1,
{
    assert(k5 == ((f2 ^ sn) ^ c1) ^ e1) by (bit_vector)
        requires
            k1 ^ f1 == ((((f0 ^ so) ^ c0) ^ e0) ^ s) ^ f0,
            k3 == ((k1 ^ e0) ^ c0) ^ c1,
            k4 ^ f2 == k3 ^ f1,
            k5 == k4 ^ e1,
            sn == so ^ s,
    ;
}

fn xor_color(a: [Key; 2], c: Color, x: Key) -> (r: [Key; 2]) {
    match c {
        Color::White => [a[0] ^ x, a[1]],
        Color::Black => [a[0], a[1] ^ x],
    }
}

fn add_color(a: [Value; 2], c: Color, v: Value) -> (r: [Value; 2]) {
    match c {
        Color::White => [a[0].wrapping_add(v), a[1]],
        Color::Black => [a[0], a[1].wrapping_add(v)],
    }
}

/// The material-key term of the `n`-th piece `pc` (none past the table).
fn material_term(z: &Zobrist, pc: Piece, n: i32) -> (r: Key)
    requires
        z.wf(),
{
    if 0 <= n && n < 64 {
        get_zobrist_psq(z, pc, Square::new_from_n(n))
    } else {
        0
    }
}

impl Position {
    /// Undoing move `m` is possible and leads back to a consistent position:
    /// the state below the top is the state of the board before `m`.
    pub open spec fn undo_ok(&self, z: Zobrist, m: Move) -> bool {
        let us = self.side().flip();
        let cap = self.state().captured_piece;
        let prev = self.history_spec().last();
        &&& self.history_spec().len() > 0
        &&& self.ply() > 0
        &&& undo_shape_ok(self.board_spec(), m, us, cap)
        &&& prev.castling_rights < 16
        &&& (prev.ep_square == Square::SqNone || prev.ep_square.is_on_board())
        &&& 0 <= prev.rule_50 < 0x7000_0000
        &&& 0 <= prev.plies_from_null < 0x7000_0000
        &&& prev.key == zkey(z, board_before(self.board_spec(), m, us, cap), us, prev.castling_rights, prev.ep_square)
    }

    /// Clears the en-passant square, drops the castling rights that the move
    /// touches and sets the new en-passant square after a double push; `k`
    /// follows the keys of both.
    fn update_rights_and_ep(
        &mut self,
        z: &Zobrist,
        from: Square,
        to: Square,
        kto: Square,
        pawn: bool,
        us: Color,
        k: &mut Key,
    )
        requires
            z.wf(),
            old(self).board_ok(),
            old(self).state().castling_rights < 16,
            old(self).state().ep_square == Square::SqNone || old(self).state().ep_square.is_on_board(),
            from.is_on_board(),
            to.is_on_board(),
            kto.is_on_board(),
        ensures
            final(self).board_ok(),
            final(self).board_spec() == old(self).board_spec(),
            final(self).type_sets() == old(self).type_sets(),
            final(self).color_sets() == old(self).color_sets(),
            final(self).counts() == old(self).counts(),
            final(self).history_spec() == old(self).history_spec(),
            final(self).ply() == old(self).ply(),
            final(self).side() == old(self).side(),
            final(self).rights_mask() == old(self).rights_mask(),
            final(self).rook_squares() == old(self).rook_squares(),
            final(self).paths() == old(self).paths(),
            final(self).state().key == old(self).state().key,
            final(self).state().rule_50 == old(self).state().rule_50,
            final(self).state().plies_from_null == old(self).state().plies_from_null,
            final(self).state().captured_piece == old(self).state().captured_piece,
            final(self).state().castling_rights == old(self).state().castling_rights & !(old(
                self,
            ).rights_mask()[from.idx()] | old(self).rights_mask()[kto.idx()]),
            final(self).state().castling_rights < 16,
            final(self).state().ep_square == (if pawn && (to.idx() == from.idx() + 16 || from.idx()
                == to.idx() + 16) && pawn_attacks_spec(bit((from.idx() + to.idx()) / 2), us)
                & old(self).pieces_spec(us.flip(), PieceType::Pawn) != 0 {
                Square::from_idx((from.idx() + to.idx()) / 2)
            } else {
                Square::SqNone
            }),
            final(self).state().ep_square == Square::SqNone || final(self).state().ep_square.is_on_board(),
            *final(k) == (((*old(k) ^ ep_term(*z, old(self).state().ep_square)) ^ z.castling_key(
                old(self).state().castling_rights as int,
            )) ^ z.castling_key(final(self).state().castling_rights as int)) ^ ep_term(
                *z,
                final(self).state().ep_square,
            ),
    {
        let ghost k0 = *k;
        if self.st.ep_square != Square::SqNone {
            *k = *k ^ get_zobrist_enpassant(z, self.st.ep_square.file_of());
            self.st.ep_square = Square::SqNone;
        } else {
            proof {
                lemma_bits_identity(k0, 0, 0);
            }
        }
        let ghost k2 = *k;
        let cr0 = self.st.castling_rights;
        let mf = self.castling_rights_mask[from.index()];
        let mt = self.castling_rights_mask[kto.index()];
        let cm = mf | mt;
        if cr0 != 0 && cm != 0 {
            *k = *k ^ get_zobrist_castling(z, cr0 as usize);
            let cr1 = cr0 & !cm;
            assert(cr1 < 16) by (bit_vector)
                requires
                    cr1 == cr0 & !cm,
                    cr0 < 16,
            ;
            self.st.castling_rights = cr1;
            *k = *k ^ get_zobrist_castling(z, cr1 as usize);
        } else {
            let ghost c = z.castling_key(cr0 as int);
            proof {
                lemma_bits_identity(k2, c, 0);
            }
            assert(cr0 == cr0 & !cm) by (bit_vector)
                requires
                    cr0 == 0 || cm == 0,
            ;
        }
        let ghost k3 = *k;
        let fi = from.index();
        let ti = to.index();
        if pawn && (ti == fi + 16 || fi == ti + 16) {
            let mid = Square::new_from_n(((fi + ti) / 2) as i32);
            let enemy_pawns = self.pieces(us.opposite(), PieceType::Pawn);
            if pawn_attacks_bb(mid.bb(), us) & enemy_pawns != 0 {
                *k = *k ^ get_zobrist_enpassant(z, mid.file_of());
                self.st.ep_square = mid;
            }
        }
        proof {
            if self.st.ep_square == Square::SqNone {
                lemma_bits_identity(k3, 0, 0);
            }
        }
    }

    /// Keys and material that change when `pc` of color `c` leaves or enters `s`.
    fn update_sub_keys(&mut self, z: &Zobrist, pc: Piece, s: Square)
        requires
            z.wf(),
            s.is_on_board(),
            pc != Piece::NoPiece,
        ensures
            final(self).board_spec() == old(self).board_spec(),
            final(self).type_sets() == old(self).type_sets(),
            final(self).color_sets() == old(self).color_sets(),
            final(self).counts() == old(self).counts(),
            final(self).board_ok() == old(self).board_ok(),
            final(self).unchanged_but_checks(*old(self)),
    {
        let key = get_zobrist_psq(z, pc, s);
        let pt = pc.type_of();
        if pt == PieceType::Pawn {
            self.st.pawn_key = self.st.pawn_key ^ key;
        } else {
            self.st.non_pawn_key = xor_color(self.st.non_pawn_key, pc.color(), key);
            if pt == PieceType::King {
                self.st.major_piece_key = self.st.major_piece_key ^ key;
                self.st.minor_piece_key = self.st.minor_piece_key ^ key;
            } else if pt == PieceType::Queen || pt == PieceType::Rook {
                self.st.major_piece_key = self.st.major_piece_key ^ key;
            } else {
                self.st.minor_piece_key = self.st.minor_piece_key ^ key;
            }
        }
    }

    /// Moves the pieces of move `m` by `us`: castling, or capture, move and
    /// promotion. Sub-keys follow; `k` follows the piece-square keys.
    #[verifier::rlimit(50)]
    fn move_pieces(&mut self, z: &Zobrist, m: Move, us: Color, k: &mut Key) -> (r: (Piece, Square))
        requires
            z.wf(),
            old(self).board_ok(),
            move_shape_ok(old(self).board_spec(), m, us),
            0 <= old(self).state().rule_50,
        ensures
            final(self).board_ok(),
            final(self).board_spec() == board_after(old(self).board_spec(), m, us),
            r.0 == captured_of(old(self).board_spec(), m, us),
            r.1.is_on_board(),
            m.mtype() == MoveType::Castling ==> r.1.idx() == castle_king_to(us, m.from_n(), m.to_n()),
            m.mtype() != MoveType::Castling ==> r.1.idx() == m.to_n(),
            *final(k) ^ psq_fold(*z, final(self).board_spec(), 64) == *old(k) ^ psq_fold(
                *z,
                old(self).board_spec(),
                64,
            ),
            final(self).history_spec() == old(self).history_spec(),
            final(self).ply() == old(self).ply(),
            final(self).side() == old(self).side(),
            final(self).rights_mask() == old(self).rights_mask(),
            final(self).rook_squares() == old(self).rook_squares(),
            final(self).paths() == old(self).paths(),
            final(self).state().key == old(self).state().key,
            final(self).state().castling_rights == old(self).state().castling_rights,
            final(self).state().ep_square == old(self).state().ep_square,
            final(self).state().rule_50 == if r.0 != Piece::NoPiece {
                0
            } else {
                old(self).state().rule_50
            },
            final(self).state().plies_from_null == old(self).state().plies_from_null,
    {
        let them = us.opposite();
        let from = m.from_sq();
        let to = m.to_sq();
        let mt = m.type_of();
        let pc = self.board[from.index()];
        let ghost b0 = self.board@;
        if mt == MoveType::Castling {
            let kto = self.do_castling(z, us, from, to, k);
            proof {
                assert(self.board@ =~= board_after(b0, m, us));
            }
            return (Piece::NoPiece, kto);
        }
        let captured = if mt == MoveType::EnPassant {
            make_piece(them, PieceType::Pawn)
        } else {
            self.board[to.index()]
        };
        if captured != Piece::NoPiece {
            let capsq = if mt == MoveType::EnPassant {
                if us == Color::White {
                    Square::new_from_n(to.index() as i32 - 8)
                } else {
                    Square::new_from_n(to.index() as i32 + 8)
                }
            } else {
                to
            };
            self.update_sub_keys(z, captured, capsq);
            if captured.type_of() != PieceType::Pawn {
                let v = piece_value(captured);
                self.st.non_pawn_material = add_color(
                    self.st.non_pawn_material,
                    them,
                    0i32.wrapping_sub(v),
                );
            }
            self.remove_piece_k(z, capsq, k);
            let n = self.piece_count[captured.index()];
            self.st.material_key = self.st.material_key ^ material_term(z, captured, n);
            self.st.rule_50 = 0;
        }
        self.update_sub_keys(z, pc, from);
        self.update_sub_keys(z, pc, to);
        self.move_piece_k(z, from, to, k);
        if mt == MoveType::Promotion {
            let promo = make_piece(us, m.promotion_type());
            self.update_sub_keys(z, pc, to);
            self.update_sub_keys(z, promo, to);
            self.remove_piece_k(z, to, k);
            self.put_piece_k(z, promo, to, k);
            let np = self.piece_count[promo.index()];
            let nq = self.piece_count[pc.index()];
            self.st.material_key = self.st.material_key ^ material_term(z, promo, np.wrapping_sub(1))
                ^ material_term(z, pc, nq);
            self.st.non_pawn_material = add_color(self.st.non_pawn_material, us, piece_value(promo));
        }
        proof {
            assert(self.board@ =~= board_after(b0, m, us));
        }
        (captured, to)
    }

    /// Makes move `m`: pushes the current state, moves the pieces, updates the
    /// keys incrementally, passes the move to the other side and recomputes
    /// checkers and check information.
    #[verifier::rlimit(100)]
    #[verifier::spinoff_prover]
    pub fn do_move(&mut self, t: &BitboardTables, z: &Zobrist, m: Move)
        requires
            t.wf(),
            old(self).wf(*z),
            move_shape_ok(old(self).board_spec(), m, old(self).side()),
            old(self).history_spec().len() + 1 < 0x7000_0000,
            old(self).ply() + 1 < 0x7000_0000,
            old(self).state().rule_50 + 1 < 0x7000_0000,
            old(self).state().plies_from_null + 1 < 0x7000_0000,
        ensures
            final(self).wf(*z),
            final(self).state().key == zkey(
                *z,
                final(self).board_spec(),
                final(self).side(),
                final(self).state().castling_rights,
                final(self).state().ep_square,
            ),
            final(self).board_spec() == board_after(old(self).board_spec(), m, old(self).side()),
            final(self).side() == old(self).side().flip(),
            final(self).history_spec() == old(self).history_spec().push(old(self).state()),
            final(self).ply() == old(self).ply() + 1,
            final(self).state().captured_piece == captured_of(old(self).board_spec(), m, old(self).side()),
            final(self).state().checkers_bb == final(self).checkers_spec(),
            final(self).check_info_ok(),
            final(self).rights_mask() == old(self).rights_mask(),
            final(self).rook_squares() == old(self).rook_squares(),
            final(self).paths() == old(self).paths(),
            final(self).undo_ok(*z, m),
            final(self).did_move(*old(self), *z, m),
            final(self).state().rule_50 == if old(self).board_spec()[m.from_n()].ptype() == PieceType::Pawn
                || captured_of(old(self).board_spec(), m, old(self).side()) != Piece::NoPiece {
                0
            } else {
                old(self).state().rule_50 + 1
            },
            final(self).state().plies_from_null == old(self).state().plies_from_null + 1,
            final(self).state().castling_rights == old(self).state().castling_rights & !(old(
                self,
            ).rights_mask()[m.from_n()] | old(self).rights_mask()[king_dest(m, old(self).side())]),
            final(self).state().ep_square == new_ep_square(*final(self), m, old(self).side(), old(
                self,
            ).board_spec()[m.from_n()].ptype() == PieceType::Pawn),
    {
        let us = self.side_to_move;
        let them = us.opposite();
        let from = m.from_sq();
        let to = m.to_sq();
        let pc = self.board[from.index()];
        let ghost b0 = self.board@;
        let ghost f0 = psq_fold(*z, b0, 64);
        let mut k: Key = self.st.key ^ get_zobrist_side(z);
        self.history.push(self.st);
        self.game_ply = self.game_ply + 1;
        self.st.rule_50 = self.st.rule_50 + 1;
        self.st.plies_from_null = self.st.plies_from_null + 1;
        let (captured, kto) = self.move_pieces(z, m, us, &mut k);
        let ghost b1 = self.board@;
        let ghost k1 = k;
        let ghost ep0 = self.st.ep_square;
        let ghost cr0 = self.st.castling_rights;
        let pawn = pc.type_of() == PieceType::Pawn;
        self.update_rights_and_ep(z, from, to, kto, pawn, us, &mut k);
        let ghost k3 = k1 ^ ep_term(*z, ep0) ^ z.castling_key(cr0 as int) ^ z.castling_key(
            self.st.castling_rights as int,
        );
        if pawn {
            self.st.rule_50 = 0;
        }
        self.st.captured_piece = captured;
        self.st.key = k;
        self.side_to_move = them;
        proof {
            let s = z.side_key();
            assert(side_term(*z, them) == side_term(*z, us) ^ s) by {
                lemma_bits_identity(s, 0, 0);
            }
            lemma_key_final(
                k1,
                psq_fold(*z, b1, 64),
                f0,
                side_term(*z, us),
                side_term(*z, them),
                s,
                z.castling_key(cr0 as int),
                z.castling_key(self.st.castling_rights as int),
                ep_term(*z, ep0),
                ep_term(*z, self.st.ep_square),
                k3,
                k3,
                psq_fold(*z, b1, 64),
                k,
            );
            lemma_board_round_trip(b0, m, us);
            lemma_undo_shape(b0, m, us);
        }
        self.st.checkers_bb = self.compute_checkers(t);
        self.set_check_info(t);
        self.st.repetition = 0;
    }
}

impl Position {
    /// Takes back move `m`, the last move made: restores the pieces, pops the
    /// state stack and gives the move back to the side that made it.
    pub fn undo_move(&mut self, z: &Zobrist, m: Move)
        requires
            z.wf(),
            old(self).board_ok(),
            old(self).undo_ok(*z, m),
        ensures
            final(self).wf(*z),
            final(self).undid_move(*old(self), m),
    {
        self.side_to_move = self.side_to_move.opposite();
        let us = self.side_to_move;
        let from = m.from_sq();
        let to = m.to_sq();
        let mt = m.type_of();
        let ghost b0 = self.board@;
        let ghost cap0 = self.st.captured_piece;
        if mt == MoveType::Castling {
            self.undo_castling(us, from, to);
        } else {
            if mt == MoveType::Promotion {
                self.remove_piece(to);
                self.put_piece(make_piece(us, PieceType::Pawn), to);
            }
            self.move_piece(to, from);
            let cap = self.st.captured_piece;
            if cap != Piece::NoPiece {
                let capsq = if mt == MoveType::EnPassant {
                    if us == Color::White {
                        Square::new_from_n(to.index() as i32 - 8)
                    } else {
                        Square::new_from_n(to.index() as i32 + 8)
                    }
                } else {
                    to
                };
                self.put_piece(cap, capsq);
            }
        }
        proof {
            assert(self.board@ =~= board_before(b0, m, us, cap0));
        }
        let prev = self.history.pop();
        match prev {
            Some(st) => {
                self.st = st;
            },
            None => {},
        }
        self.game_ply = self.game_ply - 1;
    }

    /// This position is position `p` after `undo_move(m)`.
    pub open spec fn undid_move(&self, p: Position, m: Move) -> bool {
        &&& self.board_spec() == board_before(
            p.board_spec(),
            m,
            p.side().flip(),
            p.state().captured_piece,
        )
        &&& self.side() == p.side().flip()
        &&& self.state() == p.history_spec().last()
        &&& self.history_spec() == p.history_spec().drop_last()
        &&& self.ply() == p.ply() - 1
        &&& self.rights_mask() == p.rights_mask()
        &&& self.rook_squares() == p.rook_squares()
        &&& self.paths() == p.paths()
    }

    /// This position is position `p` after `do_move(m)`.
    pub open spec fn did_move(&self, p: Position, z: Zobrist, m: Move) -> bool {
        &&& self.wf(z)
        &&& self.board_spec() == board_after(p.board_spec(), m, p.side())
        &&& self.side() == p.side().flip()
        &&& self.history_spec() == p.history_spec().push(p.state())
        &&& self.ply() == p.ply() + 1
        &&& self.state().captured_piece == captured_of(p.board_spec(), m, p.side())
        &&& self.state().checkers_bb == self.checkers_spec()
        &&& self.rights_mask() == p.rights_mask()
        &&& self.rook_squares() == p.rook_squares()
        &&& self.paths() == p.paths()
        &&& self.undo_ok(z, m)
    }

    /// Same board, sets, counts, state, history, ply, side and castling tables.
    pub open spec fn same_as(&self, p: Position) -> bool {
        &&& self.board_spec() == p.board_spec()
        &&& self.type_sets() == p.type_sets()
        &&& self.color_sets() == p.color_sets()
        &&& self.counts() == p.counts()
        &&& self.state() == p.state()
        &&& self.history_spec() == p.history_spec()
        &&& self.ply() == p.ply()
        &&& self.side() == p.side()
        &&& self.rights_mask() == p.rights_mask()
        &&& self.rook_squares() == p.rook_squares()
        &&& self.paths() == p.paths()
    }
}

/// What `board_ok` says of the board and its sets: 64 squares, the per-type
/// and per-color bitboards hold exactly the squares of their pieces, and the
/// counts are those of the board.
pub proof fn lemma_board_ok_sets(p: Position)
    requires
        p.board_ok(),
    ensures
        p.board_spec().len() == 64,
        p.history_spec().len() == p.ply(),
        p.type_sets().len() == 8,
        p.color_sets().len() == 2,
        type_sets_ok(p.type_sets(), p.board_spec()),
        color_sets_ok(p.color_sets(), p.board_spec()),
        counts_ok(p.counts(), p.board_spec()),
{
}

/// Bitboards and piece counts are determined by the board.
pub proof fn lemma_sets_determined(p: Position, q: Position)
    requires
        p.board_ok(),
        q.board_ok(),
        p.board_spec() == q.board_spec(),
    ensures
        p.type_sets() == q.type_sets(),
        p.color_sets() == q.color_sets(),
        p.counts() == q.counts(),
{
    assert forall|k: int| 0 <= k < 8 implies p.type_sets()[k] == q.type_sets()[k] by {
        assert forall|i: int| 0 <= i < 64 implies #[trigger] has_bit(p.type_sets()[k], i) == has_bit(
            q.type_sets()[k],
            i,
        ) by {
            if k == 0 {
                assert(has_bit(p.by_type_bb@[0], i) == has_bit(q.by_type_bb@[0], i));
            } else {
                assert(has_bit(p.by_type_bb@[k], i) == has_bit(q.by_type_bb@[k], i));
            }
        }
        lemma_bits_eq(p.type_sets()[k], q.type_sets()[k]);
    }
    assert(p.type_sets() =~= q.type_sets());
    assert forall|c: int| 0 <= c < 2 implies p.color_sets()[c] == q.color_sets()[c] by {
        assert forall|i: int| 0 <= i < 64 implies #[trigger] has_bit(p.color_sets()[c], i) == has_bit(
            q.color_sets()[c],
            i,
        ) by {
            assert(has_bit(p.by_color_bb@[c], i) == has_bit(q.by_color_bb@[c], i));
        }
        lemma_bits_eq(p.color_sets()[c], q.color_sets()[c]);
    }
    assert(p.color_sets() =~= q.color_sets());
    assert(p.counts() =~= q.counts());
}

/// After a move the checkers are non-empty exactly when the king of the new
/// side to move is attacked by the other side's pieces.
pub proof fn lemma_check_invariant(z: Zobrist, p: Position, q: Position, m: Move)
    requires
        q.did_move(p, z, m),
    ensures
        (q.state().checkers_bb != 0) == (q.king_sq(q.side()) != 64 && q.attacked_by(
            q.side().flip(),
            q.king_sq(q.side()),
            q.type_sets()[0],
        )),
{
}

/// Making a move and then taking it back gives back the same position: the
/// board, every bitboard, the piece counts, the whole current state (hash key
/// included), the side to move, the ply and the state stack.
pub proof fn lemma_do_undo_round_trip(z: Zobrist, p: Position, q: Position, r: Position, m: Move)
    requires
        p.wf(z),
        move_shape_ok(p.board_spec(), m, p.side()),
        q.did_move(p, z, m),
        r.board_ok(),
        r.undid_move(q, m),
    ensures
        r.same_as(p),
{
    lemma_board_round_trip(p.board_spec(), m, p.side());
    assert(r.board_spec() =~= p.board_spec());
    lemma_sets_determined(r, p);
    assert(r.history_spec() =~= p.history_spec());
}

/// The square numbers walked by the king when castling from `from` to `kto`:
/// from `kto` towards `from`, `from` itself excluded.
pub open spec fn on_castle_walk(from: int, kto: int, s: int) -> bool {
    s != from && ((kto <= s <= from) || (from <= s <= kto))
}

impl Position {
    /// Pieces of color `c` that are of type `a` or `b`.
    pub open spec fn pieces2_spec(&self, c: Color, a: PieceType, b: PieceType) -> u64 {
        self.color_sets()[c.idx()] & (self.type_sets()[a.idx()] | self.type_sets()[b.idx()])
    }

    /// Whether enemy pieces attack `s` with occupancy `occ`.
    pub open spec fn attacked_by(&self, c: Color, s: int, occ: u64) -> bool {
        attackers_spec(self.type_sets(), self.color_sets(), s, occ) & self.color_sets()[c.idx()] != 0
    }

    /// The legality rules for a pseudo-legal move `m` of the side to move:
    /// an en-passant capture must not open a line from an enemy rook, bishop
    /// or queen to the king; castling needs every square of the king's walk
    /// unattacked; a king must not step onto an attacked square (the king
    /// itself removed from the occupancy); any other piece must not be pinned,
    /// or must stay on the line through its king.
    pub open spec fn legal_spec(&self, m: Move) -> bool {
        let us = self.side();
        let them = us.flip();
        let from = m.from_n();
        let to = m.to_n();
        let ksq = self.king_sq(us);
        let occ = self.type_sets()[0];
        match m.mtype() {
            MoveType::EnPassant => {
                let o = (occ ^ bit(from) ^ bit(ep_capture_sq(us, to))) | bit(to);
                ksq == 64 || (attacks_spec(PieceType::Rook, ksq, o) & self.pieces2_spec(
                    them,
                    PieceType::Queen,
                    PieceType::Rook,
                ) == 0 && attacks_spec(PieceType::Bishop, ksq, o) & self.pieces2_spec(
                    them,
                    PieceType::Queen,
                    PieceType::Bishop,
                ) == 0)
            },
            MoveType::Castling => forall|s: int|
                #![trigger attackers_spec(self.type_sets(), self.color_sets(), s, occ)]
                on_castle_walk(from, castle_king_to(us, from, to), s) ==> !self.attacked_by(
                    them,
                    s,
                    occ,
                ),
            _ => if self.board_spec()[from].ptype() == PieceType::King {
                !self.attacked_by(them, to, occ ^ bit(from))
            } else {
                !has_bit(self.state().blockers_for_king[us.idx()], from) || ksq == 64 || has_bit(
                    line_spec(from, to),
                    ksq,
                )
            },
        }
    }

    /// Whether the pseudo-legal move `m` is legal.
    pub fn legal(&self, t: &BitboardTables, m: Move) -> (r: bool)
        requires
            t.wf(),
            self.board_ok(),
            move_shape_ok(self.board_spec(), m, self.side()),
        ensures
            r == self.legal_spec(m),
    {
        let us = self.side_to_move;
        let them = us.opposite();
        let from = m.from_sq();
        let to = m.to_sq();
        let mt = m.type_of();
        let occ = self.by_type_bb[0];
        let kings = self.pieces(us, PieceType::King);
        let ksq = if kings == 0 {
            Square::SqNone
        } else {
            Square::new_from_n(kings.trailing_zeros() as i32)
        };
        proof {
            vstd::std_specs::bits::axiom_u64_trailing_zeros(kings);
        }
        if mt == MoveType::EnPassant {
            if ksq == Square::SqNone {
                return true;
            }
            let capsq = if us == Color::White {
                Square::new_from_n(to.index() as i32 - 8)
            } else {
                Square::new_from_n(to.index() as i32 + 8)
            };
            let o = (occ ^ from.bb() ^ capsq.bb()) | to.bb();
            let rq = self.by_color_bb[them.index()] & (self.by_type_bb[5] | self.by_type_bb[4]);
            let bq = self.by_color_bb[them.index()] & (self.by_type_bb[5] | self.by_type_bb[3]);
            return attacks_bb(t, PieceType::Rook, ksq, o) & rq == 0 && attacks_bb(
                t,
                PieceType::Bishop,
                ksq,
                o,
            ) & bq == 0;
        }
        if mt == MoveType::Castling {
            let kingside = to.index() > from.index();
            let kto = (if kingside {
                Square::SqG1
            } else {
                Square::SqC1
            }).relative_square(us);
            let enemies = self.by_color_bb[them.index()];
            let f = from.index();
            let mut s = kto.index();
            assert(kto.idx() == castle_king_to(us, from.idx(), to.idx()));
            assert(from.idx() == m.from_n() && to.idx() == m.to_n());
            while s != f
                invariant
                    t.wf(),
                    self.board_ok(),
                    s < 64,
                    f < 64,
                    kto.idx() < 64,
                    from.idx() == f,
                    kto.idx() == castle_king_to(us, from.idx(), to.idx()),
                    from.idx() == m.from_n(),
                    to.idx() == m.to_n(),
                    us == self.side(),
                    them == us.flip(),
                    m.mtype() == MoveType::Castling,
                    enemies == self.color_sets()[them.idx()],
                    occ == self.type_sets()[0],
                    (kto.idx() <= s <= f) || (f <= s <= kto.idx()),
                    forall|j: int|
                        #![trigger attackers_spec(self.type_sets(), self.color_sets(), j, occ)]
                        on_castle_walk(f as int, kto.idx(), j) && ((kto.idx() <= j < s) || (s < j
                            <= kto.idx())) ==> !self.attacked_by(them, j, occ),
                decreases if s > f {
                    s - f
                } else {
                    f - s
                },
            {
                let sq = Square::new_from_n(s as i32);
                let a = self.attackers_to(t, sq, occ);
                if a & enemies != 0 {
                    assert(on_castle_walk(m.from_n(), castle_king_to(us, m.from_n(), m.to_n()), s as int));
                    assert(self.attacked_by(them, s as int, occ));
                    assert(!self.legal_spec(m));
                    return false;
                }
                if s > f {
                    s = s - 1;
                } else {
                    s = s + 1;
                }
            }
            return true;
        }
        if self.board[from.index()].type_of() == PieceType::King {
            return self.attackers_to(t, to, occ ^ from.bb()) & self.by_color_bb[them.index()] == 0;
        }
        if self.st.blockers_for_king[us.index()] & from.bb() == 0 {
            proof {
                lemma_bit_test(self.st.blockers_for_king[us.idx()], from.idx());
            }
            return true;
        }
        proof {
            lemma_bit_test(self.st.blockers_for_king[us.idx()], from.idx());
        }
        if ksq == Square::SqNone {
            return true;
        }
        alligned(t, from, to, ksq)
    }
}

proof fn lemma_bit_test(x: u64, i: int)
    requires
        0 <= i < 64,
    ensures
        has_bit(x, i) == (x & bit(i) != 0),
{
    let j = i as u64;
    assert(((x >> j) & 1u64 == 1u64) == (x & (1u64 << j) != 0)) by (bit_vector)
        requires
            j < 64,
    ;
}

impl Position {
    /// Whether `do_move(m)` can be called: see `move_shape_ok`.
    pub fn is_shape_ok(&self, m: Move) -> (r: bool)
        requires
            self.board_ok(),
        ensures
            r == move_shape_ok(self.board_spec(), m, self.side()),
    {
        let us = self.side_to_move;
        let from = m.from_sq();
        let to = m.to_sq();
        if from.index() == to.index() {
            return false;
        }
        let pc = self.board[from.index()];
        if pc == Piece::NoPiece || pc.color() != us {
            return false;
        }
        let target = self.board[to.index()];
        let capturable = target == Piece::NoPiece || (target.color() != us && target.type_of()
            != PieceType::King);
        let pawn = make_piece(us, PieceType::Pawn);
        match m.type_of() {
            MoveType::Normal => capturable,
            MoveType::Promotion => pc == pawn && capturable,
            MoveType::EnPassant => {
                let c: i32 = if us == Color::White {
                    to.index() as i32 - 8
                } else {
                    to.index() as i32 + 8
                };
                pc == pawn && target == Piece::NoPiece && 0 <= c && c < 64 && c != from.index() as i32
                    && self.board[c as usize] == make_piece(us.opposite(), PieceType::Pawn)
            },
            MoveType::Castling => {
                let kingside = to.index() > from.index();
                let kto = (if kingside {
                    Square::SqG1
                } else {
                    Square::SqC1
                }).relative_square(us);
                let rto = (if kingside {
                    Square::SqF1
                } else {
                    Square::SqD1
                }).relative_square(us);
                pc == make_piece(us, PieceType::King) && target == make_piece(us, PieceType::Rook) && (
                self.board[kto.index()] == Piece::NoPiece || kto.index() == from.index()
                    || kto.index() == to.index()) && (self.board[rto.index()] == Piece::NoPiece
                    || rto.index() == from.index() || rto.index() == to.index())
            },
        }
    }

    /// The rook square recorded for castling right `cr` (bit set index).
    pub fn castling_rook_square(&self, cr: usize) -> (r: Square)
        requires
            self.board_ok(),
            cr < 16,
        ensures
            r == self.rook_squares()[cr as int],
            r.is_on_board(),
    {
        self.castling_rook_square[cr]
    }

    /// Whether a piece stands between king and rook for castling right `cr`.
    pub fn castling_impeded(&self, cr: usize) -> (r: bool)
        requires
            self.board_ok(),
            cr < 16,
        ensures
            r == (self.type_sets()[0] & self.paths()[cr as int] != 0),
    {
        self.by_type_bb[0] & self.castling_path[cr] != 0
    }

    /// Grants color `c` the right to castle with the rook on `rfrom`, and
    /// records the rook square and the squares that must be empty. Without a
    /// king of color `c`, or with the king on `rfrom`, nothing changes.
    #[verifier::rlimit(100)]
    #[verifier::spinoff_prover]
    pub fn set_castling_right(&mut self, t: &BitboardTables, c: Color, rfrom: Square)
        requires
            t.wf(),
            old(self).board_ok(),
            old(self).state().castling_rights < 16,
            rfrom.is_on_board(),
        ensures
            final(self).board_ok(),
            final(self).board_spec() == old(self).board_spec(),
            final(self).type_sets() == old(self).type_sets(),
            final(self).color_sets() == old(self).color_sets(),
            final(self).state().castling_rights < 16,
            final(self).state().ep_square == old(self).state().ep_square,
            final(self).state().rule_50 == old(self).state().rule_50,
            final(self).state().plies_from_null == old(self).state().plies_from_null,
            final(self).side() == old(self).side(),
            final(self).history_spec() == old(self).history_spec(),
            final(self).ply() == old(self).ply(),
            ({
                let k = old(self).king_sq(c);
                let r = rfrom.idx();
                let cr = castle_bit(c, k < r);
                if k == 64 || k == r {
                    &&& final(self).state().castling_rights == old(self).state().castling_rights
                    &&& final(self).rights_mask() == old(self).rights_mask()
                    &&& final(self).rook_squares() == old(self).rook_squares()
                    &&& final(self).paths() == old(self).paths()
                } else {
                    &&& final(self).state().castling_rights == old(self).state().castling_rights | cr
                    &&& final(self).rights_mask() == old(self).rights_mask().update(
                        k,
                        old(self).rights_mask()[k] | cr,
                    ).update(r, old(self).rights_mask()[r] | cr)
                    &&& final(self).rook_squares() == old(self).rook_squares().update(
                        cr as int,
                        rfrom,
                    )
                    &&& final(self).paths() == old(self).paths().update(
                        cr as int,
                        castle_path_spec(c, k, r),
                    )
                }
            }),
    {
        let kfrom = self.king_square(c);
        if kfrom == Square::SqNone || kfrom.index() == rfrom.index() {
            return;
        }
        let kingside = kfrom.index() < rfrom.index();
        let cr: u8 = match (c, kingside) {
            (Color::White, true) => 1,
            (Color::White, false) => 2,
            (Color::Black, true) => 4,
            (Color::Black, false) => 8,
        };
        let cur = self.st.castling_rights;
        let all = cur | cr;
        assert(all < 16) by (bit_vector)
            requires
                all == cur | cr,
                cur < 16,
                cr < 16,
        ;
        self.st.castling_rights = all;
        let mk = self.castling_rights_mask[kfrom.index()] | cr;
        let old_mk = self.castling_rights_mask[kfrom.index()];
        assert(mk < 16) by (bit_vector)
            requires
                mk == old_mk | cr,
                old_mk < 16,
                cr < 16,
        ;
        self.castling_rights_mask.set(kfrom.index(), mk);
        let old_mr = self.castling_rights_mask[rfrom.index()];
        let mr = old_mr | cr;
        assert(mr < 16) by (bit_vector)
            requires
                mr == old_mr | cr,
                old_mr < 16,
                cr < 16,
        ;
        self.castling_rights_mask.set(rfrom.index(), mr);
        self.castling_rook_square.set(cr as usize, rfrom);
        let kto = (if kingside {
            Square::SqG1
        } else {
            Square::SqC1
        }).relative_square(c);
        let rto = (if kingside {
            Square::SqF1
        } else {
            Square::SqD1
        }).relative_square(c);
        let path = (between_bb(t, rfrom, rto) | rto.bb() | between_bb(t, kfrom, kto) | kto.bb())
            & !(kfrom.bb() | rfrom.bb());
        self.castling_path.set(cr as usize, path);
    }
}

impl Position {
    /// Whether any of the rights in the bit set `cr` is still held.
    pub fn can_castle_bits(&self, cr: usize) -> (r: bool)
        requires
            cr < 16,
        ensures
            r == (self.state().castling_rights & (cr as u8) != 0),
    {
        self.st.castling_rights & (cr as u8) != 0
    }

    /// The check rules for a move `m` of the side to move: a direct check
    /// from the destination; a discovered check when the origin shields the
    /// enemy king and the move leaves the line (castling always); otherwise a
    /// promotion checks with the new piece, an en-passant capture by a line
    /// that it opens, and castling by the rook's landing square.
    pub open spec fn gives_check_spec(&self, m: Move) -> bool {
        let us = self.side();
        let them = us.flip();
        let from = m.from_n();
        let to = m.to_n();
        let ksq = self.king_sq(them);
        let occ = self.type_sets()[0];
        let pt = self.board_spec()[from].ptype();
        if ksq == 64 {
            false
        } else if has_bit(self.state().check_squares[pt.idx()], to) {
            true
        } else if has_bit(self.state().blockers_for_king[them.idx()], from) {
            !has_bit(line_spec(from, to), ksq) || m.mtype() == MoveType::Castling
        } else {
            match m.mtype() {
                MoveType::Normal => false,
                MoveType::Promotion => has_bit(
                    attacks_spec(m.promo_type(), to, occ ^ bit(from)),
                    ksq,
                ),
                MoveType::EnPassant => {
                    let capsq = (from / 8) * 8 + to % 8;
                    let b = (occ ^ bit(from) ^ bit(capsq)) | bit(to);
                    (attacks_spec(PieceType::Rook, ksq, b) & self.pieces2_spec(
                        us,
                        PieceType::Queen,
                        PieceType::Rook,
                    )) | (attacks_spec(PieceType::Bishop, ksq, b) & self.pieces2_spec(
                        us,
                        PieceType::Queen,
                        PieceType::Bishop,
                    )) != 0
                },
                MoveType::Castling => has_bit(
                    self.state().check_squares[PieceType::Rook.idx()],
                    castle_rook_to(us, from, to),
                ),
            }
        }
    }

    /// Whether move `m` of the side to move gives check.
    #[verifier::rlimit(50)]
    pub fn gives_check(&self, t: &BitboardTables, m: Move) -> (r: bool)
        requires
            t.wf(),
            self.board_ok(),
        ensures
            r == self.gives_check_spec(m),
    {
        let us = self.side_to_move;
        let them = us.opposite();
        let from = m.from_sq();
        let to = m.to_sq();
        let kings = self.pieces(them, PieceType::King);
        if kings == 0 {
            return false;
        }
        proof {
            vstd::std_specs::bits::axiom_u64_trailing_zeros(kings);
        }
        let ksq = Square::new_from_n(kings.trailing_zeros() as i32);
        let occ = self.by_type_bb[0];
        let pt = self.board[from.index()].type_of();
        let cs = self.st.check_squares[pt.index()];
        proof {
            lemma_bit_test(cs, to.idx());
            lemma_bit_test(self.st.blockers_for_king[them.idx()], from.idx());
        }
        if cs & to.bb() != 0 {
            return true;
        }
        if self.st.blockers_for_king[them.index()] & from.bb() != 0 {
            return !alligned(t, from, to, ksq) || m.type_of() == MoveType::Castling;
        }
        match m.type_of() {
            MoveType::Normal => false,
            MoveType::Promotion => {
                let a = attacks_bb(t, m.promotion_type(), to, occ ^ from.bb());
                proof {
                    lemma_bit_test(a, ksq.idx());
                }
                a & ksq.bb() != 0
            },
            MoveType::EnPassant => {
                let capsq = Square::new_from_n(((from.index() / 8) * 8 + to.index() % 8) as i32);
                let b = (occ ^ from.bb() ^ capsq.bb()) | to.bb();
                let rq = self.by_color_bb[us.index()] & (self.by_type_bb[5] | self.by_type_bb[4]);
                let bq = self.by_color_bb[us.index()] & (self.by_type_bb[5] | self.by_type_bb[3]);
                (attacks_bb(t, PieceType::Rook, ksq, b) & rq) | (attacks_bb(
                    t,
                    PieceType::Bishop,
                    ksq,
                    b,
                ) & bq) != 0
            },
            MoveType::Castling => {
                let kingside = to.index() > from.index();
                let rto = (if kingside {
                    Square::SqF1
                } else {
                    Square::SqD1
                }).relative_square(us);
                let c = self.st.check_squares[4];
                proof {
                    lemma_bit_test(c, rto.idx());
                }
                c & rto.bb() != 0
            },
        }
    }
}

impl Position {
    /// Builds the hashing keys that positions are hashed with, and the cuckoo
    /// tables of reversible moves keyed by the key change they cause.
    pub fn init(t: &BitboardTables) -> (r: (Zobrist, Cuckoo))
        requires
            t.wf(),
        ensures
            r.0.wf(),
            r.1.wf(),
            r.1.holds_all(r.0),
            r.1.inserted_spec() == reversible_count(61440),
    {
        let z = init_zobrist();
        let (c, _count) = init_cuckoo(t, &z);
        (z, c)
    }

    /// The current state.
    pub fn st(&self) -> (r: &StateInfo)
        ensures
            *r == self.state(),
    {
        &self.st
    }

    /// The generation mode for the current position: evasions in check,
    /// non-evasions otherwise.
    pub open spec fn base_gen(&self) -> GenType {
        if self.state().checkers_bb != 0 {
            GenType::Evasions
        } else {
            GenType::NonEvasions
        }
    }

    /// The rules for a special move `m` of the side to move: a promotion or
    /// an en-passant capture is one of the pawn moves of the current mode
    /// (see `pawn_move_ok`); castling needs no check, the king on the origin,
    /// and a held right whose rook stands on the destination with an empty
    /// path. En-passant and castling moves carry no promotion bits.
    pub open spec fn special_spec(&self, m: Move) -> bool {
        let us = self.side();
        let g = self.base_gen();
        let tgt = mode_target(*self, us, g);
        let occ = self.type_sets()[0];
        let f = m.from_n();
        let t = m.to_n();
        let ks: int = if us == Color::White {
            1
        } else {
            4
        };
        let qs: int = if us == Color::White {
            2
        } else {
            8
        };
        match m.mtype() {
            MoveType::Promotion => pawn_move_ok(*self, us, g, tgt, m),
            MoveType::EnPassant => pawn_move_ok(*self, us, g, tgt, m) && m.raw_spec() == 0x8000 + f * 64
                + t,
            MoveType::Castling => {
                &&& self.state().checkers_bb == 0
                &&& f == self.king_sq(us)
                &&& m.raw_spec() == 0xC000 + f * 64 + t
                &&& ((self.state().castling_rights & (ks as u8) != 0 && occ & self.paths()[ks] == 0
                    && self.rook_squares()[ks].idx() == t) || (self.state().castling_rights & (qs as u8)
                    != 0 && occ & self.paths()[qs] == 0 && self.rook_squares()[qs].idx() == t))
            },
            MoveType::Normal => false,
        }
    }

    /// Whether the special move `m` follows `special_spec`.
    pub fn special_ok(&self, t: &BitboardTables, m: Move) -> (r: bool)
        requires
            t.wf(),
            self.board_ok(),
        ensures
            r == self.special_spec(m),
    {
        let us = self.side_to_move;
        let them = us.opposite();
        let from = m.from_sq();
        let to = m.to_sq();
        let f = from.index();
        let tt = to.index();
        let occ = self.by_type_bb[0];
        let checkers = self.st.checkers_bb;
        let evasions = checkers != 0;
        let ksq = self.king_square(us);
        let target: Bitboard = if evasions {
            if ksq == Square::SqNone {
                0
            } else {
                proof {
                    vstd::std_specs::bits::axiom_u64_trailing_zeros(checkers);
                }
                let checker = Square::new_from_n(checkers.trailing_zeros() as i32);
                between_bb(t, ksq, checker) | checker.bb()
            }
        } else {
            !self.by_color_bb[us.index()]
        };
        assert(target == mode_target(*self, us, self.base_gen()));
        let pawns = self.pieces(us, PieceType::Pawn);
        let rank7: Bitboard = if us == Color::White {
            RANK7_BB
        } else {
            RANK2_BB
        };
        assert(rank7 == crate::movegen::rank7_of(us));
        let push: i32 = if us == Color::White {
            8
        } else {
            -8
        };
        let in_target = target & to.bb() != 0;
        let empty_to = occ & to.bb() == 0;
        proof {
            lemma_bit_test(target, tt as int);
            lemma_bit_test(occ, tt as int);
            lemma_bit_test(pawns & rank7, f as int);
            lemma_bit_test(pawns & !rank7, f as int);
        }
        match m.type_of() {
            MoveType::Promotion => {
                let enemies = if evasions {
                    checkers
                } else {
                    self.by_color_bb[them.index()]
                };
                let on7 = (pawns & rank7) & from.bb() != 0;
                let att = get_pawn_attacks_bb(t, us, from);
                proof {
                    lemma_bit_test(att, tt as int);
                    lemma_bit_test(enemies, tt as int);
                    lemma_promotion_types_full(self.base_gen());
                }
                let capture = att & to.bb() != 0 && enemies & to.bb() != 0;
                let step = f as i32 + push == tt as i32 && empty_to && (!evasions || in_target);
                let r = on7 && (capture || step);
                assert(promotion_types(self.base_gen(), true).contains(m.promo_type()));
                assert(promotion_types(self.base_gen(), false).contains(m.promo_type()));
                assert(m.raw_spec() >= 4096);
                assert(r == self.special_spec(m));
                r
            },
            MoveType::EnPassant => {
                let ep = self.st.ep_square;
                if ep == Square::SqNone || ep.index() != tt {
                    return false;
                }
                let ahead = ep.index() as i32 + push;
                let blocks = 0 <= ahead && ahead < 64 && target & (1u64 << (ahead as u64)) != 0;
                proof {
                    if 0 <= ahead < 64 {
                        lemma_bit_test(target, ahead as int);
                    }
                }
                let from_ok = (pawns & !rank7) & from.bb() != 0;
                let att = get_pawn_attacks_bb(t, them, ep);
                proof {
                    lemma_bit_test(att, f as int);
                }
                let raw_ok = m.raw() as usize == 0x8000 + f * 64 + tt;
                let r = !(evasions && blocks) && from_ok && att & from.bb() != 0 && raw_ok;
                assert(r == self.special_spec(m));
                r
            },
            MoveType::Castling => {
                if evasions || ksq == Square::SqNone || ksq.index() != f {
                    return false;
                }
                let raw_ok = m.raw() as usize == 0xC000 + f * 64 + tt;
                let (ks, qs): (usize, usize) = if us == Color::White {
                    (1, 2)
                } else {
                    (4, 8)
                };
                let k_ok = self.can_castle_bits(ks) && !self.castling_impeded(ks)
                    && self.castling_rook_square(ks).index() == tt;
                let q_ok = self.can_castle_bits(qs) && !self.castling_impeded(qs)
                    && self.castling_rook_square(qs).index() == tt;
                let r = raw_ok && (k_ok || q_ok);
                assert(r == self.special_spec(m));
                r
            },
            MoveType::Normal => false,
        }
    }

    /// The pseudo-legality rules for a normal move `m` of the side to move:
    /// an own piece moves, not onto an own piece; a pawn never onto the first
    /// or last rank, and only by a capture, a push onto an empty square, or a
    /// double push from its second rank over two empty squares; another piece
    /// only onto a square it attacks. In double check only the king may move;
    /// in single check another piece must land between its king and the
    /// checker (the checker's square included), and the king must not land on
    /// a square attacked once it has left its square.
    pub open spec fn pseudo_legal_spec(&self, m: Move) -> bool {
        let us = self.side();
        let them = us.flip();
        let from = m.from_n();
        let to = m.to_n();
        let pc = self.board_spec()[from];
        let pt = pc.ptype();
        let occ = self.type_sets()[0];
        let checkers = self.state().checkers_bb;
        let push = pawn_push_n(us);
        &&& pc != Piece::NoPiece
        &&& pc.pcolor() == us
        &&& !(popcount(checkers) > 1 && pt != PieceType::King)
        &&& !has_bit(self.color_sets()[us.idx()], to)
        &&& if pt == PieceType::Pawn {
            &&& !has_bit(RANK8_BB | RANK1_BB, to)
            &&& (has_bit(pawn_attacks_spec(bit(from), us) & self.color_sets()[them.idx()], to) || (
            from + push == to && self.board_spec()[to] == Piece::NoPiece) || (from + 2 * push == to
                && crate::types::relative_rank_n(us, from / 8) == 1 && self.board_spec()[to]
                == Piece::NoPiece && 0 <= from + push < 64 && self.board_spec()[from + push]
                == Piece::NoPiece))
        } else {
            has_bit(attacks_spec(pt, from, occ), to)
        }
        &&& self.evasion_spec(m)
    }

    /// The square where move `m` captures: behind the destination for en
    /// passant, the destination otherwise.
    pub open spec fn capture_sq(&self, m: Move) -> int {
        if m.mtype() == MoveType::EnPassant {
            ep_capture_sq(self.side(), m.to_n())
        } else {
            m.to_n()
        }
    }

    /// When in check, move `m` answers it: a king must not land on a square
    /// attacked once it has left its own; another piece must capture the
    /// checker or land between it and the king.
    pub open spec fn evasion_spec(&self, m: Move) -> bool {
        let us = self.side();
        let from = m.from_n();
        let to = m.to_n();
        let checkers = self.state().checkers_bb;
        let checker = vstd::std_specs::bits::u64_trailing_zeros(checkers) as int;
        checkers != 0 ==> if self.board_spec()[from].ptype() != PieceType::King {
            self.king_sq(us) != 64 && (self.capture_sq(m) == checker || has_bit(
                between_spec(self.king_sq(us), checker),
                to,
            ))
        } else {
            !self.attacked_by(us.flip(), to, self.type_sets()[0] ^ bit(from))
        }
    }

    /// Whether move `m` of the side to move answers a check (see `evasion_spec`).
    pub fn evasion_ok(&self, t: &BitboardTables, m: Move) -> (r: bool)
        requires
            t.wf(),
            self.board_ok(),
        ensures
            r == self.evasion_spec(m),
    {
        let checkers = self.st.checkers_bb;
        if checkers == 0 {
            return true;
        }
        let us = self.side_to_move;
        let from = m.from_sq();
        let to = m.to_sq();
        let occ = self.by_type_bb[0];
        if self.board[from.index()].type_of() != PieceType::King {
            let ksq = self.king_square(us);
            if ksq == Square::SqNone {
                return false;
            }
            proof {
                vstd::std_specs::bits::axiom_u64_trailing_zeros(checkers);
            }
            let checker = Square::new_from_n(checkers.trailing_zeros() as i32);
            let cap: i32 = if m.type_of() == MoveType::EnPassant {
                if us == Color::White {
                    to.index() as i32 - 8
                } else {
                    to.index() as i32 + 8
                }
            } else {
                to.index() as i32
            };
            let bt = between_bb(t, ksq, checker);
            proof {
                lemma_bit_test(bt, to.idx());
            }
            cap == checker.index() as i32 || bt & to.bb() != 0
        } else {
            self.attackers_to(t, to, occ ^ from.bb()) & self.by_color_bb[us.opposite().index()] == 0
        }
    }

    /// Whether `m` can be played by the side to move as far as piece movement
    /// goes (see `pseudo_legal_spec`); special moves are checked against the
    /// generator.
    pub fn pseudo_legal(&self, t: &BitboardTables, m: Move) -> (r: bool)
        requires
            t.wf(),
            self.board_ok(),
        ensures
            m.mtype() == MoveType::Normal ==> r == self.pseudo_legal_spec(m),
            r ==> self.board_spec()[m.from_n()] != Piece::NoPiece && self.board_spec()[m.from_n()].pcolor()
                == self.side(),
            popcount(self.state().checkers_bb) > 1 && self.board_spec()[m.from_n()].ptype()
                != PieceType::King ==> !r,
            r && m.mtype() != MoveType::Normal ==> move_shape_ok(self.board_spec(), m, self.side()),
            m.mtype() != MoveType::Normal ==> r == (self.board_spec()[m.from_n()] != Piece::NoPiece
                && self.board_spec()[m.from_n()].pcolor() == self.side() && !(popcount(
                self.state().checkers_bb,
            ) > 1 && self.board_spec()[m.from_n()].ptype() != PieceType::King) && self.special_spec(m)
                && move_shape_ok(self.board_spec(), m, self.side()) && self.evasion_spec(m)),
            r ==> self.evasion_spec(m),
    {
        let us = self.side_to_move;
        let them = us.opposite();
        let from = m.from_sq();
        let to = m.to_sq();
        let pc = self.board[from.index()];
        if pc == Piece::NoPiece || pc.color() != us {
            return false;
        }
        let pt = pc.type_of();
        let checkers = self.st.checkers_bb;
        if more_than_one(checkers) && pt != PieceType::King {
            return false;
        }
        if m.type_of() != MoveType::Normal {
            return self.special_ok(t, m) && self.is_shape_ok(m) && self.evasion_ok(t, m);
        }
        let own = self.by_color_bb[us.index()];
        proof {
            lemma_bit_test(own, to.idx());
        }
        if own & to.bb() != 0 {
            return false;
        }
        let occ = self.by_type_bb[0];
        if pt == PieceType::Pawn {
            let edge = RANK8_BB | RANK1_BB;
            proof {
                lemma_bit_test(edge, to.idx());
            }
            if edge & to.bb() != 0 {
                return false;
            }
            let up: i32 = if us == Color::White {
                8
            } else {
                -8
            };
            let f = from.index() as i32;
            let tt = to.index() as i32;
            let caps = get_pawn_attacks_bb(t, us, from) & self.by_color_bb[them.index()];
            proof {
                lemma_bit_test(caps, to.idx());
            }
            let capture = caps & to.bb() != 0;
            let single = f + up == tt && self.empty(to);
            let start_rank = relative_rank_of_square(us, from).index() == 1;
            let double = f + 2 * up == tt && start_rank && self.empty(to) && 0 <= f + up && f + up
                < 64 && self.empty(Square::new_from_n(f + up));
            if !capture && !single && !double {
                return false;
            }
        } else {
            let a = attacks_bb(t, pt, from, occ);
            proof {
                lemma_bit_test(a, to.idx());
            }
            if a & to.bb() == 0 {
                return false;
            }
        }
        self.evasion_ok(t, m)
    }
}

/// First cuckoo slot of key `h`.
#[allow(non_snake_case)]
pub fn H1(h: Key) -> (r: usize)
    ensures
        r == (h & 0x1fff) as int,
        r < 8192,
{
    let r = h & 0x1fff;
    assert(r < 8192) by (bit_vector)
        requires
            r == h & 0x1fff,
    ;
    r as usize
}

/// Second cuckoo slot of key `h`.
#[allow(non_snake_case)]
pub fn H2(h: Key) -> (r: usize)
    ensures
        r == ((h >> 16u64) & 0x1fff) as int,
        r < 8192,
{
    let r = (h >> 16u64) & 0x1fff;
    assert(r < 8192) by (bit_vector)
        requires
            r == (h >> 16u64) & 0x1fff,
    ;
    r as usize
}

pub open spec fn h1_spec(h: u64) -> int {
    (h & 0x1fff) as int
}

pub open spec fn h2_spec(h: u64) -> int {
    ((h >> 16u64) & 0x1fff) as int
}

/// Cuckoo hash tables of the reversible moves of non-pawn pieces, keyed by
/// the change of position key that each causes.
pub struct Cuckoo {
    keys: Vec<Key>,
    moves: Vec<Move>,
    stash_keys: Vec<Key>,
    stash_moves: Vec<Move>,
    inserted: u32,
}

impl Cuckoo {
    /// Both tables have 8192 slots, and every filled slot is one of the two
    /// slots of its key.
    pub closed spec fn wf(&self) -> bool {
        &&& self.keys.len() == 8192
        &&& self.moves.len() == 8192
        &&& forall|i: int|
            0 <= i < 8192 && (#[trigger] self.moves@[i]).raw_spec() != 65 ==> h1_spec(self.keys@[i])
                == i || h2_spec(self.keys@[i]) == i
    }

    pub closed spec fn moves_spec(&self) -> Seq<Move> {
        self.moves@
    }

    pub closed spec fn keys_spec(&self) -> Seq<Key> {
        self.keys@
    }

    /// Every reversible move is found under its key: in one of the key's two
    /// slots, or else in the stash of entries that insertion could not place.
    pub closed spec fn holds_all(&self, z: Zobrist) -> bool {
        forall|k: int|
            0 <= k < 61440 && #[trigger] reversible_at(k) ==> found_in(
                self.keys@,
                self.moves@,
                self.stash_keys@,
                self.stash_moves@,
                cuckoo_key(z, k),
                cuckoo_raw(k),
            )
    }

    pub closed spec fn stash_len(&self) -> int {
        self.stash_keys@.len() as int
    }

    pub closed spec fn inserted_spec(&self) -> int {
        self.inserted as int
    }

    /// Number of moves inserted: one per reversible move.
    pub fn inserted(&self) -> (r: u32)
        ensures
            r == self.inserted_spec(),
    {
        self.inserted
    }

    /// Number of entries that insertion could not place in their slots.
    pub fn stash_size(&self) -> (r: usize)
        ensures
            r == self.stash_len(),
    {
        self.stash_keys.len()
    }

    /// The move stored in slot `i`, `Move::none()` for an empty slot.
    pub fn move_at(&self, i: usize) -> (r: Move)
        requires
            self.wf(),
            i < 8192,
        ensures
            r == self.moves_spec()[i as int],
            r.raw_spec() != 65 ==> h1_spec(self.keys_spec()[i as int]) == i || h2_spec(
                self.keys_spec()[i as int],
            ) == i,
    {
        self.moves[i]
    }

    /// The key stored in slot `i`.
    pub fn key_at(&self, i: usize) -> (r: Key)
        requires
            self.wf(),
            i < 8192,
        ensures
            r == self.keys_spec()[i as int],
    {
        self.keys[i]
    }
}

/// Inserts `mv` with key `key`, displacing entries between their two slots;
/// gives up (dropping the last displaced entry) after 8192 displacements.
fn cuckoo_insert(keys: &mut Vec<Key>, moves: &mut Vec<Move>, key: Key, mv: Move)
    requires
        old(keys).len() == 8192,
        old(moves).len() == 8192,
        forall|i: int|
            0 <= i < 8192 && (#[trigger] old(moves)@[i]).raw_spec() != 65 ==> h1_spec(old(keys)@[i])
                == i || h2_spec(old(keys)@[i]) == i,
    ensures
        final(keys).len() == 8192,
        final(moves).len() == 8192,
        forall|i: int|
            0 <= i < 8192 && (#[trigger] final(moves)@[i]).raw_spec() != 65 ==> h1_spec(final(keys)@[i])
                == i || h2_spec(final(keys)@[i]) == i,
{
    let mut key = key;
    let mut mv = mv;
    let mut i = H1(key);
    let mut steps: usize = 0;
    while steps < 8192
        invariant
            keys.len() == 8192,
            moves.len() == 8192,
            i < 8192,
            i == h1_spec(key) || i == h2_spec(key),
            forall|j: int|
                0 <= j < 8192 && (#[trigger] moves@[j]).raw_spec() != 65 ==> h1_spec(keys@[j]) == j
                    || h2_spec(keys@[j]) == j,
        decreases 8192 - steps,
    {
        let k_old = keys[i];
        let m_old = moves[i];
        keys.set(i, key);
        moves.set(i, mv);
        key = k_old;
        mv = m_old;
        if mv.raw() == 65 {
            return;
        }
        let a = H1(key);
        i = if i == a {
            H2(key)
        } else {
            a
        };
        steps += 1;
    }
}

/// The piece whose packed value is `n` (no piece for unused values).
pub open spec fn piece_at_index(n: int) -> Piece {
    if n == 1 {
        Piece::WPawn
    } else if n == 2 {
        Piece::WKnight
    } else if n == 3 {
        Piece::WBishop
    } else if n == 4 {
        Piece::WRook
    } else if n == 5 {
        Piece::WQueen
    } else if n == 6 {
        Piece::WKing
    } else if n == 9 {
        Piece::BPawn
    } else if n == 10 {
        Piece::BKnight
    } else if n == 11 {
        Piece::BBishop
    } else if n == 12 {
        Piece::BRook
    } else if n == 13 {
        Piece::BQueen
    } else if n == 14 {
        Piece::BKing
    } else {
        Piece::NoPiece
    }
}

/// Entry `k = 4096 * piece + 64 * s1 + s2` is a reversible move: a non-pawn
/// piece going from `s1` to a higher square `s2` that it attacks on an empty board.
pub open spec fn reversible_at(k: int) -> bool {
    let pc = piece_at_index(k / 4096);
    let s1 = (k / 64) % 64;
    let s2 = k % 64;
    pc != Piece::NoPiece && pc.ptype() != PieceType::Pawn && s1 < s2 && has_bit(
        attacks_spec(pc.ptype(), s1, 0),
        s2,
    )
}

/// Number of reversible moves among the first `n` entries.
pub open spec fn reversible_count(n: int) -> int
    decreases n,
{
    if n <= 0 {
        0
    } else {
        reversible_count(n - 1) + if reversible_at(n - 1) {
            1int
        } else {
            0int
        }
    }
}

proof fn lemma_reversible_skip(a: int, b: int)
    requires
        0 <= a <= b,
        forall|k: int| a <= k < b ==> !reversible_at(k),
    ensures
        reversible_count(b) == reversible_count(a),
    decreases b - a,
{
    if b > a {
        lemma_reversible_skip(a, b - 1);
    }
}

proof fn lemma_reversible_bound(n: int)
    requires
        0 <= n,
    ensures
        0 <= reversible_count(n) <= n,
    decreases n,
{
    if n > 0 {
        lemma_reversible_bound(n - 1);
    }
}

proof fn lemma_entry(p: int, s1: int, s2: int)
    requires
        0 <= p,
        0 <= s1 < 64,
        0 <= s2 < 64,
    ensures
        (p * 4096 + s1 * 64 + s2) / 4096 == p,
        ((p * 4096 + s1 * 64 + s2) / 64) % 64 == s1,
        (p * 4096 + s1 * 64 + s2) % 64 == s2,
{
    let k = p * 4096 + s1 * 64 + s2;
    vstd::arithmetic::div_mod::lemma_fundamental_div_mod_converse(k, 4096, p, s1 * 64 + s2);
    vstd::arithmetic::div_mod::lemma_fundamental_div_mod_converse(k, 64, p * 64 + s1, s2);
    vstd::arithmetic::div_mod::lemma_fundamental_div_mod_converse(p * 64 + s1, 64, p, s1);
}

/// The key change of reversible entry `k`: the piece's keys on both squares
/// and the side key.
pub open spec fn cuckoo_key(z: Zobrist, k: int) -> u64 {
    let pc = piece_at_index(k / 4096);
    z.psq_key(pc, (k / 64) % 64) ^ z.psq_key(pc, k % 64) ^ z.side_key()
}

/// The bits of the move of reversible entry `k`.
pub open spec fn cuckoo_raw(k: int) -> int {
    ((k / 64) % 64) * 64 + k % 64
}

/// `key` with a move of bits `raw` sits in slot H1 or H2 of `key`, or in the stash.
pub open spec fn found_in(
    keys: Seq<Key>,
    moves: Seq<Move>,
    sk: Seq<Key>,
    sm: Seq<Move>,
    key: u64,
    raw: int,
) -> bool {
    (keys[h1_spec(key)] == key && moves[h1_spec(key)].raw_spec() == raw) || (keys[h2_spec(key)]
        == key && moves[h2_spec(key)].raw_spec() == raw) || exists|j: int|
        0 <= j < sk.len() && j < sm.len() && #[trigger] sk[j] == key && sm[j].raw_spec() == raw
}

/// Looks every reversible move up in the table and collects those that are
/// not in either of their slots.
fn stash_missing(t: &BitboardTables, z: &Zobrist, keys: &Vec<Key>, moves: &Vec<Move>) -> (r: (
    Vec<Key>,
    Vec<Move>,
))
    requires
        t.wf(),
        z.wf(),
        keys.len() == 8192,
        moves.len() == 8192,
    ensures
        r.0.len() == r.1.len(),
        forall|k: int|
            0 <= k < 61440 && #[trigger] reversible_at(k) ==> found_in(
                keys@,
                moves@,
                r.0@,
                r.1@,
                cuckoo_key(*z, k),
                cuckoo_raw(k),
            ),
{
    let mut sk: Vec<Key> = Vec::new();
    let mut sm: Vec<Move> = Vec::new();
    let side = get_zobrist_side(z);
    proof {
        assert forall|k: int| 0 <= k < 4096 implies !reversible_at(k) by {
            assert(k / 4096 == 0);
        }
    }
    let mut p: usize = 1;
    while p < 15
        invariant
            t.wf(),
            z.wf(),
            1 <= p <= 15,
            keys.len() == 8192,
            moves.len() == 8192,
            sk.len() == sm.len(),
            side == z.side_key(),
            forall|k: int|
                0 <= k < p * 4096 && #[trigger] reversible_at(k) ==> found_in(
                    keys@,
                    moves@,
                    sk@,
                    sm@,
                    cuckoo_key(*z, k),
                    cuckoo_raw(k),
                ),
        decreases 15 - p,
    {
        let mut skip = true;
        if p != 7 && p != 8 {
            let pc = Piece::new_from_n(p);
            let pt = pc.type_of();
            if pt != PieceType::Pawn {
                skip = false;
                assert(pc == piece_at_index(p as int));
                let mut s1: usize = 0;
                while s1 < 64
                    invariant
                        t.wf(),
                        z.wf(),
                        1 <= p < 15,
                        pc == piece_at_index(p as int),
                        pt == pc.ptype(),
                        pc != Piece::NoPiece,
                        pt != PieceType::Pawn,
                        s1 <= 64,
                        keys.len() == 8192,
                        moves.len() == 8192,
                        sk.len() == sm.len(),
                        side == z.side_key(),
                        forall|k: int|
                            0 <= k < p * 4096 + s1 * 64 && #[trigger] reversible_at(k) ==> found_in(
                                keys@,
                                moves@,
                                sk@,
                                sm@,
                                cuckoo_key(*z, k),
                                cuckoo_raw(k),
                            ),
                    decreases 64 - s1,
                {
                    let sq1 = Square::new_from_n(s1 as i32);
                    let att = attacks_bb(t, pt, sq1, 0);
                    proof {
                        assert forall|k: int|
                            p * 4096 + s1 * 64 <= k < p * 4096 + s1 * 64 + s1 + 1 implies !reversible_at(k) by {
                            lemma_entry(p as int, s1 as int, k - p * 4096 - s1 * 64);
                        }
                    }
                    let mut s2: usize = s1 + 1;
                    while s2 < 64
                        invariant
                            z.wf(),
                            1 <= p < 15,
                            pc == piece_at_index(p as int),
                            pt == pc.ptype(),
                            pc != Piece::NoPiece,
                            pt != PieceType::Pawn,
                            s1 < 64,
                            sq1.is_on_board(),
                            sq1.idx() == s1,
                            att == attacks_spec(pt, s1 as int, 0),
                            s1 + 1 <= s2 <= 64,
                            keys.len() == 8192,
                            moves.len() == 8192,
                            sk.len() == sm.len(),
                            side == z.side_key(),
                            forall|k: int|
                                0 <= k < p * 4096 + s1 * 64 + s2 && #[trigger] reversible_at(k) ==> found_in(
                                    keys@,
                                    moves@,
                                    sk@,
                                    sm@,
                                    cuckoo_key(*z, k),
                                    cuckoo_raw(k),
                                ),
                        decreases 64 - s2,
                    {
                        let sq2 = Square::new_from_n(s2 as i32);
                        let ghost k0 = p * 4096 + s1 * 64 + s2;
                        proof {
                            lemma_entry(p as int, s1 as int, s2 as int);
                            lemma_bit_test(att, s2 as int);
                        }
                        let ghost sk0 = sk@;
                        let ghost sm0 = sm@;
                        if att & sq2.bb() != 0 {
                            let key = get_zobrist_psq(z, pc, sq1) ^ get_zobrist_psq(z, pc, sq2) ^ side;
                            assert(key == cuckoo_key(*z, k0));
                            let raw = (s1 * 64 + s2) as u16;
                            assert(raw == cuckoo_raw(k0));
                            let i1 = H1(key);
                            let i2 = H2(key);
                            let in1 = keys[i1] == key && moves[i1].raw() == raw;
                            let in2 = keys[i2] == key && moves[i2].raw() == raw;
                            if !in1 && !in2 {
                                sk.push(key);
                                sm.push(Move::new_from_to_sq(sq1, sq2));
                                assert(sk@[sk.len() - 1] == key);
                            }
                            assert(found_in(keys@, moves@, sk@, sm@, cuckoo_key(*z, k0), cuckoo_raw(k0)));
                        }
                        proof {
                            assert forall|k: int|
                                0 <= k < k0 + 1 && #[trigger] reversible_at(k) implies found_in(
                                    keys@,
                                    moves@,
                                    sk@,
                                    sm@,
                                    cuckoo_key(*z, k),
                                    cuckoo_raw(k),
                                ) by {
                                if k < k0 {
                                    assert(found_in(keys@, moves@, sk0, sm0, cuckoo_key(*z, k), cuckoo_raw(k)));
                                    if !((keys@[h1_spec(cuckoo_key(*z, k))] == cuckoo_key(*z, k)
                                        && moves@[h1_spec(cuckoo_key(*z, k))].raw_spec() == cuckoo_raw(k))
                                        || (keys@[h2_spec(cuckoo_key(*z, k))] == cuckoo_key(*z, k)
                                        && moves@[h2_spec(cuckoo_key(*z, k))].raw_spec() == cuckoo_raw(k))) {
                                        let j = choose|j: int|
                                            0 <= j < sk0.len() && j < sm0.len() && #[trigger] sk0[j]
                                                == cuckoo_key(*z, k) && sm0[j].raw_spec() == cuckoo_raw(k);
                                        assert(sk@[j] == sk0[j] && sm@[j] == sm0[j]);
                                    }
                                }
                            }
                        }
                        s2 += 1;
                    }
                    s1 += 1;
                }
            }
        }
        if skip {
            proof {
                assert forall|k: int| p * 4096 <= k < p * 4096 + 4096 implies !reversible_at(k) by {
                    lemma_entry(p as int, (k - p * 4096) / 64, (k - p * 4096) % 64);
                }
            }
        }
        p += 1;
    }
    (sk, sm)
}

/// Builds the cuckoo tables; returns them with the number of moves inserted,
/// which is the number of reversible moves of non-pawn pieces.
pub fn init_cuckoo(t: &BitboardTables, z: &Zobrist) -> (r: (Cuckoo, u32))
    requires
        t.wf(),
        z.wf(),
    ensures
        r.0.wf(),
        r.0.holds_all(*z),
        r.1 == reversible_count(61440),
        r.0.inserted_spec() == reversible_count(61440),
{
    let mut keys: Vec<Key> = Vec::new();
    let mut moves: Vec<Move> = Vec::new();
    let mut i: usize = 0;
    while i < 8192
        invariant
            i <= 8192,
            keys.len() == i,
            moves.len() == i,
            forall|j: int| 0 <= j < i ==> (#[trigger] moves@[j]).raw_spec() == 65,
        decreases 8192 - i,
    {
        keys.push(0);
        moves.push(Move::none());
        i += 1;
    }
    let side = get_zobrist_side(z);
    let mut count: u32 = 0;
    proof {
        assert forall|k: int| 0 <= k < 4096 implies !reversible_at(k) by {
            assert(k / 4096 == 0);
        }
        lemma_reversible_skip(0, 4096);
    }
    let mut p: usize = 1;
    while p < 15
        invariant
            t.wf(),
            z.wf(),
            1 <= p <= 15,
            count == reversible_count(p * 4096),
            keys.len() == 8192,
            moves.len() == 8192,
            forall|j: int|
                0 <= j < 8192 && (#[trigger] moves@[j]).raw_spec() != 65 ==> h1_spec(keys@[j]) == j
                    || h2_spec(keys@[j]) == j,
        decreases 15 - p,
    {
        let ghost base = p * 4096;
        let mut skip = true;
        if p != 7 && p != 8 {
            let pc = Piece::new_from_n(p);
            let pt = pc.type_of();
            if pt != PieceType::Pawn {
                skip = false;
                assert(pc == piece_at_index(p as int));
                let mut s1: usize = 0;
                while s1 < 64
                    invariant
                        t.wf(),
                        z.wf(),
                        1 <= p < 15,
                        pc == piece_at_index(p as int),
                        pt == pc.ptype(),
                        pc != Piece::NoPiece,
                        pt != PieceType::Pawn,
                        s1 <= 64,
                        count == reversible_count(p * 4096 + s1 * 64),
                        keys.len() == 8192,
                        moves.len() == 8192,
                        forall|j: int|
                            0 <= j < 8192 && (#[trigger] moves@[j]).raw_spec() != 65 ==> h1_spec(keys@[j])
                                == j || h2_spec(keys@[j]) == j,
                    decreases 64 - s1,
                {
                    let sq1 = Square::new_from_n(s1 as i32);
                    let att = attacks_bb(t, pt, sq1, 0);
                    proof {
                        assert forall|k: int|
                            p * 4096 + s1 * 64 <= k < p * 4096 + s1 * 64 + s1 + 1 implies !reversible_at(k) by {
                            lemma_entry(p as int, s1 as int, k - p * 4096 - s1 * 64);
                        }
                        lemma_reversible_skip(p * 4096 + s1 * 64, p * 4096 + s1 * 64 + s1 + 1);
                    }
                    let mut s2: usize = s1 + 1;
                    while s2 < 64
                        invariant
                            z.wf(),
                            1 <= p < 15,
                            pc == piece_at_index(p as int),
                            pt == pc.ptype(),
                            pc != Piece::NoPiece,
                            pt != PieceType::Pawn,
                            s1 < 64,
                            sq1.is_on_board(),
                            sq1.idx() == s1,
                            att == attacks_spec(pt, s1 as int, 0),
                            s1 + 1 <= s2 <= 64,
                            count == reversible_count(p * 4096 + s1 * 64 + s2),
                            keys.len() == 8192,
                            moves.len() == 8192,
                            forall|j: int|
                                0 <= j < 8192 && (#[trigger] moves@[j]).raw_spec() != 65 ==> h1_spec(
                                    keys@[j],
                                ) == j || h2_spec(keys@[j]) == j,
                        decreases 64 - s2,
                    {
                        let sq2 = Square::new_from_n(s2 as i32);
                        proof {
                            lemma_entry(p as int, s1 as int, s2 as int);
                            lemma_bit_test(att, s2 as int);
                            lemma_reversible_bound(p * 4096 + s1 * 64 + s2);
                        }
                        if att & sq2.bb() != 0 {
                            let key = get_zobrist_psq(z, pc, sq1) ^ get_zobrist_psq(z, pc, sq2) ^ side;
                            cuckoo_insert(&mut keys, &mut moves, key, Move::new_from_to_sq(sq1, sq2));
                            count = count + 1;
                        }
                        s2 += 1;
                    }
                    s1 += 1;
                }
            }
        }
        if skip {
            proof {
                assert forall|k: int| p * 4096 <= k < p * 4096 + 4096 implies !reversible_at(k) by {
                    lemma_entry(p as int, (k - p * 4096) / 64, (k - p * 4096) % 64);
                }
                lemma_reversible_skip(p * 4096, p * 4096 + 4096);
            }
        }
        p += 1;
    }
    let (stash_keys, stash_moves) = stash_missing(t, z, &keys, &moves);
    (Cuckoo { keys, moves, stash_keys, stash_moves, inserted: count }, count)
}

/// The letter of a piece: upper case for White, lower case for Black, a
/// space for an empty square.
pub fn piece_char(pc: Piece) -> (r: u8)
    ensures
        r < 128,
{
    match pc {
        Piece::NoPiece => 32,
        Piece::WPawn => 80,
        Piece::WKnight => 78,
        Piece::WBishop => 66,
        Piece::WRook => 82,
        Piece::WQueen => 81,
        Piece::WKing => 75,
        Piece::BPawn => 112,
        Piece::BKnight => 110,
        Piece::BBishop => 98,
        Piece::BRook => 114,
        Piece::BQueen => 113,
        Piece::BKing => 107,
    }
}

impl Position {
    /// A drawing of the board, rank 8 on top, each piece by its letter.
    pub fn pretty(&self) -> (s: String)
        requires
            self.board_ok(),
        ensures
            s@.len() > 0,
    {
        let mut border: Vec<u8> = vec![32u8];
        let mut k: usize = 0;
        while k < 8
            invariant
                k <= 8,
                forall|i: int| 0 <= i < border@.len() ==> border@[i] < 128,
            decreases 8 - k,
        {
            push_all(&mut border, &vec![43u8, 45u8, 45u8, 45u8]);
            k += 1;
        }
        push_all(&mut border, &vec![43u8, 10u8]);
        let mut v: Vec<u8> = vec![10u8];
        push_all(&mut v, &border);
        let mut r: usize = 8;
        while r > 0
            invariant
                self.board_ok(),
                r <= 8,
                v@.len() > 0,
                forall|i: int| 0 <= i < v@.len() ==> v@[i] < 128,
                forall|i: int| 0 <= i < border@.len() ==> border@[i] < 128,
            decreases r,
        {
            r -= 1;
            let mut f: usize = 0;
            while f < 8
                invariant
                    self.board_ok(),
                    r < 8,
                    f <= 8,
                    v@.len() > 0,
                    forall|i: int| 0 <= i < v@.len() ==> v@[i] < 128,
                decreases 8 - f,
            {
                let c = piece_char(self.board[r * 8 + f]);
                push_all(&mut v, &vec![32u8, 124u8, 32u8, c]);
                f += 1;
            }
            push_all(&mut v, &vec![32u8, 124u8, 32u8, 49u8 + r as u8, 10u8]);
            push_all(&mut v, &border);
        }
        push_all(
            &mut v,
            &vec![32u8, 32u8, 32u8, 97u8, 32u8, 32u8, 32u8, 98u8, 32u8, 32u8, 32u8, 99u8, 32u8, 32u8, 32u8, 100u8, 32u8, 32u8, 32u8, 101u8, 32u8, 32u8, 32u8, 102u8, 32u8, 32u8, 32u8, 103u8, 32u8, 32u8, 32u8, 104u8, 10u8],
        );
        ascii_to_string(v)
    }
}

} // verus!
