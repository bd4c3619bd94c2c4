use vstd::prelude::*;
use crate::bitboard::{
    BitboardTables, attacks_bb, between_bb, get_pawn_attacks_bb, pop_lsb, shift, more_than_one,
    RANK2_BB, RANK3_BB, RANK6_BB, RANK7_BB,
};
use crate::position::{Position, move_shape_ok};
use crate::bitboard::{attacks_spec, between_spec, bit, popcount, shift_spec, pawn_attacks_spec, FILEH_BB};
use crate::types::FILEA_BB;
use crate::types::{has_bit, lemma_move_eq, pawn_push_n};
use crate::types::{Bitboard, Color, Direction, Move, MoveType, PieceType, Square, MAX_MOVES};
use crate::zobrist::Zobrist;

verus! {

/// A move with a score for ordering.
#[derive(Clone, Copy)]
pub struct ExtMove {
    pub base: Move,
    pub value: i32,
}

impl ExtMove {
    pub fn new_from_move(m: Move) -> (r: ExtMove)
        ensures
            r.base == m,
            r.value == 0,
    {
        ExtMove { base: m, value: 0 }
    }
}

/// A list of generated moves.
pub struct MoveList {
    move_list: Vec<ExtMove>,
}

impl MoveList {
    pub closed spec fn moves(&self) -> Seq<Move> {
        self.move_list@.map_values(|e: ExtMove| e.base)
    }

    /// The scores of the entries.
    pub closed spec fn scores(&self) -> Seq<i32> {
        self.move_list@.map_values(|e: ExtMove| e.value)
    }

    pub fn new() -> (r: MoveList)
        ensures
            r.moves().len() == 0,
            r.scores().len() == 0,
    {
        MoveList { move_list: Vec::with_capacity(MAX_MOVES) }
    }

    /// Appends `mv` with score 0.
    pub fn push_move(&mut self, mv: Move)
        ensures
            final(self).moves() == old(self).moves().push(mv),
            final(self).scores() == old(self).scores().push(0),
    {
        self.move_list.push(ExtMove::new_from_move(mv));
        proof {
            assert(self.moves() =~= old(self).moves().push(mv));
            assert(self.scores() =~= old(self).scores().push(0));
        }
    }

    pub fn push_move_ext_move(&mut self, mv: ExtMove)
        ensures
            final(self).moves() == old(self).moves().push(mv.base),
            final(self).scores() == old(self).scores().push(mv.value),
    {
        self.move_list.push(mv);
        proof {
            assert(self.moves() =~= old(self).moves().push(mv.base));
            assert(self.scores() =~= old(self).scores().push(mv.value));
        }
    }

    pub fn len(&self) -> (r: usize)
        ensures
            r == self.moves().len(),
    {
        self.move_list.len()
    }

    pub fn get(&self, i: usize) -> (r: Move)
        requires
            i < self.moves().len(),
        ensures
            r == self.moves()[i as int],
    {
        self.move_list[i].base
    }

    pub fn contains(&self, m: Move) -> (r: bool)
        ensures
            r == self.moves().contains(m),
    {
        let mut i: usize = 0;
        while i < self.move_list.len()
            invariant
                i <= self.moves().len(),
                forall|j: int| 0 <= j < i ==> self.moves()[j] != m,
            decreases self.move_list.len() - i,
        {
            if self.move_list[i].base == m {
                assert(self.moves()[i as int] == m);
                return true;
            }
            i += 1;
        }
        false
    }
}

/// `new` is `old` with moves appended.
pub open spec fn extends(new: Seq<Move>, old: Seq<Move>) -> bool {
    new.len() >= old.len() && forall|j: int| 0 <= j < old.len() ==> new[j] == old[j]
}

/// What a call of the generator produces.
#[derive(Debug, Clone, Copy, PartialEq, Eq, Structural)]
pub enum GenType {
    /// Captures and queen promotions.
    Captures,
    /// Non-captures and under-promotions.
    Quiets,
    /// Non-captures that give check.
    QuietChecks,
    /// Check evasions, when in check.
    Evasions,
    /// Captures and non-captures, when not in check.
    NonEvasions,
    /// Every legal move.
    Legal,
}

pub fn bind_color(n: i32) -> (r: Color)
    requires
        n == 0 || n == 1,
    ensures
        r.idx() == n,
{
    if n == 0 {
        Color::White
    } else {
        Color::Black
    }
}

pub fn bind_gentype(n: i32) -> (r: GenType)
    requires
        0 <= n < 6,
    ensures
        n == 0 ==> r == GenType::Captures,
        n == 1 ==> r == GenType::Quiets,
        n == 2 ==> r == GenType::QuietChecks,
        n == 3 ==> r == GenType::Evasions,
        n == 4 ==> r == GenType::NonEvasions,
        n == 5 ==> r == GenType::Legal,
{
    match n {
        0 => GenType::Captures,
        1 => GenType::Quiets,
        2 => GenType::QuietChecks,
        3 => GenType::Evasions,
        4 => GenType::NonEvasions,
        _ => GenType::Legal,
    }
}

/// Pushes the move from `to - back` to `to` (the origin found by stepping
/// back) when that origin is on the board; says whether it did.
fn push_back_step(
    move_list: &mut MoveList,
    to: Square,
    back: i32,
    mt: MoveType,
    promo: PieceType,
) -> (pushed: bool)
    requires
        to.is_on_board(),
        -64 <= back <= 64,
        mt == MoveType::Promotion ==> (promo == PieceType::Knight || promo == PieceType::Bishop
            || promo == PieceType::Rook || promo == PieceType::Queen),
    ensures
        pushed == (0 <= to.idx() - back < 64),
        extends(final(move_list).moves(), old(move_list).moves()),
        final(move_list).moves().len() == old(move_list).moves().len() + if pushed {
            1int
        } else {
            0int
        },
        pushed ==> ({
            let m = final(move_list).moves()[old(move_list).moves().len() as int];
            &&& m.mtype() == mt
            &&& m.from_n() == to.idx() - back
            &&& m.to_n() == to.idx()
            &&& mt == MoveType::Promotion ==> m.promo_type() == promo
            &&& mt == MoveType::Normal ==> m.raw_spec() == normal_bits(to.idx() - back, to.idx())
        }),
{
    let f = to.index() as i32 - back;
    if 0 <= f && f < 64 {
        if mt == MoveType::Normal {
            move_list.push_move(Move::new_from_to_sq(Square::new_from_n(f), to));
        } else {
            move_list.push_move(Move::make(mt, Square::new_from_n(f), to, promo));
        }
        true
    } else {
        false
    }
}

/// The promotion piece types that `make_promotions` emits, in order.
pub open spec fn promotion_types(gen_type: GenType, enemy: bool) -> Seq<PieceType> {
    let all = gen_type == GenType::Evasions || gen_type == GenType::NonEvasions;
    let q = if gen_type == GenType::Captures || all {
        seq![PieceType::Queen]
    } else {
        Seq::<PieceType>::empty()
    };
    let u = if (gen_type == GenType::Captures && enemy) || (gen_type == GenType::Quiets && !enemy)
        || all {
        seq![PieceType::Rook, PieceType::Bishop, PieceType::Knight]
    } else {
        Seq::<PieceType>::empty()
    };
    q + u
}

/// Pushes the promotions of a pawn reaching `to` by a step of `d`: a queen
/// for captures and for both evasions and non-evasions, the three other
/// pieces for quiet moves that capture nothing, captures that capture, and
/// both evasions and non-evasions. Returns the number of moves pushed.
pub fn make_promotions(
    move_list: &mut MoveList,
    gen_type: GenType,
    d: Direction,
    enemy: bool,
    to: Square,
) -> (r: usize)
    requires
        to.is_on_board(),
    ensures
        extends(final(move_list).moves(), old(move_list).moves()),
        r == final(move_list).moves().len() - old(move_list).moves().len(),
        0 <= to.idx() - d.num() < 64 ==> r == promotion_types(gen_type, enemy).len(),
        !(0 <= to.idx() - d.num() < 64) ==> r == 0,
        forall|j: int|
            0 <= j < r ==> {
                let m = #[trigger] final(move_list).moves()[old(move_list).moves().len() + j];
                &&& m.mtype() == MoveType::Promotion
                &&& m.from_n() == to.idx() - d.num()
                &&& m.to_n() == to.idx()
                &&& m.promo_type() == promotion_types(gen_type, enemy)[j]
            },
{
    let all = gen_type == GenType::Evasions || gen_type == GenType::NonEvasions;
    let back = d.to_num();
    let ghost n0 = move_list.moves().len();
    let ghost types = promotion_types(gen_type, enemy);
    let mut cur: usize = 0;
    let q = gen_type == GenType::Captures || all;
    let u = (gen_type == GenType::Captures && enemy) || (gen_type == GenType::Quiets && !enemy)
        || all;
    if q {
        if push_back_step(move_list, to, back, MoveType::Promotion, PieceType::Queen) {
            cur += 1;
        }
    }
    let ghost after_q = move_list.moves();
    if u {
        if push_back_step(move_list, to, back, MoveType::Promotion, PieceType::Rook) {
            cur += 1;
        }
        if push_back_step(move_list, to, back, MoveType::Promotion, PieceType::Bishop) {
            cur += 1;
        }
        if push_back_step(move_list, to, back, MoveType::Promotion, PieceType::Knight) {
            cur += 1;
        }
    }
    proof {
        if u {
            assert(move_list.moves()[after_q.len() as int] == move_list.moves()[after_q.len() as int]);
        }
    }
    cur
}

/// Pushes the move of every pawn that reaches a square of `b` by a step of `d`.
fn push_pawn_steps(move_list: &mut MoveList, b: Bitboard, back: i32)
    requires
        -64 <= back <= 64,
    ensures
        extends(final(move_list).moves(), old(move_list).moves()),
        forall|m: Move|
            m.raw_spec() < 4096 && has_bit(b, m.to_n()) && m.from_n() == m.to_n() - back ==> #[trigger] final(move_list).moves().subrange(
                old(move_list).moves().len() as int,
                final(move_list).moves().len() as int,
            ).contains(m),
        forall|j: int|
            old(move_list).moves().len() <= j < final(move_list).moves().len() ==> {
                let m = #[trigger] final(move_list).moves()[j];
                &&& m.raw_spec() < 4096
                &&& m.mtype() == MoveType::Normal
                &&& has_bit(b, m.to_n())
                &&& m.from_n() == m.to_n() - back
            },
        forall|i: int, j: int|
            old(move_list).moves().len() <= i < j < final(move_list).moves().len() ==> (
            #[trigger] final(move_list).moves()[i]).to_n() < (#[trigger] final(move_list).moves()[j]).to_n(),
{
    let b0 = b;
    let mut b = b;
    let ghost start = move_list.moves();
    let ghost n0 = start.len() as int;
    let ghost mut nt: int = 0;
    while b != 0
        invariant
            -64 <= back <= 64,
            n0 == start.len(),
            extends(move_list.moves(), start),
            0 <= nt <= 64,
            forall|i: int| 0 <= i < 64 ==> (#[trigger] has_bit(b, i) <==> (has_bit(b0, i) && i >= nt)),
            forall|m: Move|
                m.raw_spec() < 4096 && has_bit(b0, m.to_n()) && m.to_n() < nt && m.from_n() == m.to_n()
                    - back ==> #[trigger] move_list.moves().subrange(n0, move_list.moves().len() as int).contains(m),
            forall|j: int|
                n0 <= j < move_list.moves().len() ==> {
                    let m = #[trigger] move_list.moves()[j];
                    &&& m.raw_spec() < 4096
                    &&& m.mtype() == MoveType::Normal
                    &&& has_bit(b0, m.to_n())
                    &&& m.from_n() == m.to_n() - back
                    &&& m.to_n() < nt
                },
            forall|i: int, j: int|
                n0 <= i < j < move_list.moves().len() ==> (#[trigger] move_list.moves()[i]).to_n() < (
                #[trigger] move_list.moves()[j]).to_n(),
        decreases b,
    {
        let ghost before = b;
        let ghost prev = move_list.moves();
        let to = pop_lsb(&mut b);
        let ghost tt = to.idx();
        let pushed = push_back_step(move_list, to, back, MoveType::Normal, PieceType::Knight);
        proof {
            assert(has_bit(before, tt));
            assert forall|m: Move|
                m.raw_spec() < 4096 && has_bit(b0, m.to_n()) && m.to_n() < tt + 1 && m.from_n()
                    == m.to_n() - back implies #[trigger] move_list.moves().subrange(
                n0,
                move_list.moves().len() as int,
            ).contains(m) by {
                if m.to_n() == tt {
                    let new_m = move_list.moves()[prev.len() as int];
                    lemma_move_eq(m, new_m);
                    assert(move_list.moves().subrange(n0, move_list.moves().len() as int)[prev.len()
                        - n0] == m);
                } else if m.to_n() < nt {
                    lemma_contains_mono(move_list.moves(), prev, n0, prev.len() as int, n0, m);
                } else {
                    assert(!has_bit(before, m.to_n()));
                }
            }
            nt = tt + 1;
            assert forall|i: int| 0 <= i < 64 implies (#[trigger] has_bit(b, i) <==> (has_bit(b0, i) && i >= nt)) by {
                if i != tt {
                    assert(has_bit(b, i) == has_bit(before, i));
                }
            }
        }
    }
    proof {
        assert forall|m: Move|
            m.raw_spec() < 4096 && has_bit(b0, m.to_n()) && m.from_n() == m.to_n() - back implies #[trigger] move_list.moves().subrange(
            n0,
            move_list.moves().len() as int,
        ).contains(m) by {
            if m.to_n() >= nt {
                assert(!has_bit(b, m.to_n())) by {
                    lemma_zero_has_no_bit(m.to_n());
                }
            }
        }
    }
}

/// `s` holds, at or after position `lo`, a promotion from `f` to `t` to a piece of type `pt`.
pub open spec fn has_promotion(s: Seq<Move>, lo: int, f: int, t: int, pt: PieceType) -> bool {
    exists|k: int|
        lo <= k < s.len() && (#[trigger] s[k]).mtype() == MoveType::Promotion && s[k].from_n() == f
            && s[k].to_n() == t && s[k].promo_type() == pt
}

proof fn lemma_promotion_mono(a: Seq<Move>, b: Seq<Move>, lo: int, n0: int, f: int, t: int, pt: PieceType)
    requires
        extends(a, b),
        0 <= n0 <= lo,
        has_promotion(b, lo, f, t, pt),
    ensures
        has_promotion(a, n0, f, t, pt),
{
    let k = choose|k: int|
        lo <= k < b.len() && (#[trigger] b[k]).mtype() == MoveType::Promotion && b[k].from_n() == f
            && b[k].to_n() == t && b[k].promo_type() == pt;
    assert(a[k] == b[k]);
}

proof fn lemma_types_ordered(gen_type: GenType, enemy: bool)
    ensures
        forall|a: int, c: int|
            0 <= a < c < promotion_types(gen_type, enemy).len() ==> promo_idx(
                #[trigger] promotion_types(gen_type, enemy)[a],
            ) < promo_idx(#[trigger] promotion_types(gen_type, enemy)[c]),
        forall|a: int|
            0 <= a < promotion_types(gen_type, enemy).len() ==> 0 <= promo_idx(
                #[trigger] promotion_types(gen_type, enemy)[a],
            ) < 4,
{
    let q = seq![PieceType::Queen];
    let u = seq![PieceType::Rook, PieceType::Bishop, PieceType::Knight];
    let e = Seq::<PieceType>::empty();
    assert((q + u) =~= seq![PieceType::Queen, PieceType::Rook, PieceType::Bishop, PieceType::Knight]);
    assert((q + e) =~= q);
    assert((e + u) =~= u);
    assert((e + e) =~= e);
}

/// For every square `t` of `b` reached by a step of `d` from the board,
/// pushes the promotions that `make_promotions` makes.
fn promote_all(move_list: &mut MoveList, b: Bitboard, gen_type: GenType, d: Direction, enemy: bool)
    ensures
        extends(final(move_list).moves(), old(move_list).moves()),
        forall|t: int, j: int|
            0 <= t < 64 && has_bit(b, t) && 0 <= t - d.num() < 64 && 0 <= j < promotion_types(
                gen_type,
                enemy,
            ).len() ==> #[trigger] has_promotion(
                final(move_list).moves(),
                old(move_list).moves().len() as int,
                t - d.num(),
                t,
                promotion_types(gen_type, enemy)[j],
            ),
        forall|j: int|
            old(move_list).moves().len() <= j < final(move_list).moves().len() ==> {
                let m = #[trigger] final(move_list).moves()[j];
                &&& m.mtype() == MoveType::Promotion
                &&& has_bit(b, m.to_n())
                &&& m.from_n() == m.to_n() - d.num()
                &&& promotion_types(gen_type, enemy).contains(m.promo_type())
            },
        forall|i: int, j: int|
            old(move_list).moves().len() <= i < j < final(move_list).moves().len() ==> (
            #[trigger] final(move_list).moves()[i]).to_n() * 4 + promo_idx(final(move_list).moves()[i].promo_type())
                < (#[trigger] final(move_list).moves()[j]).to_n() * 4 + promo_idx(
                final(move_list).moves()[j].promo_type(),
            ),
{
    proof {
        lemma_types_ordered(gen_type, enemy);
    }
    let b0 = b;
    let mut b = b;
    let ghost start = move_list.moves();
    let ghost n0 = start.len() as int;
    let ghost types = promotion_types(gen_type, enemy);
    let ghost mut nt: int = 0;
    while b != 0
        invariant
            start == old(move_list).moves(),
            n0 == start.len(),
            types == promotion_types(gen_type, enemy),
            extends(move_list.moves(), start),
            0 <= nt <= 64,
            forall|i: int| 0 <= i < 64 ==> (#[trigger] has_bit(b, i) <==> (has_bit(b0, i) && i >= nt)),
            forall|t: int, j: int|
                0 <= t < nt && has_bit(b0, t) && 0 <= t - d.num() < 64 && 0 <= j < types.len()
                    ==> #[trigger] has_promotion(move_list.moves(), n0, t - d.num(), t, types[j]),
            forall|a: int, c: int|
                0 <= a < c < types.len() ==> promo_idx(#[trigger] types[a]) < promo_idx(#[trigger] types[c]),
            forall|a: int| 0 <= a < types.len() ==> 0 <= promo_idx(#[trigger] types[a]) < 4,
            forall|j: int|
                n0 <= j < move_list.moves().len() ==> {
                    let m = #[trigger] move_list.moves()[j];
                    &&& m.mtype() == MoveType::Promotion
                    &&& has_bit(b0, m.to_n())
                    &&& m.from_n() == m.to_n() - d.num()
                    &&& types.contains(m.promo_type())
                    &&& m.to_n() < nt
                    &&& 0 <= promo_idx(m.promo_type()) < 4
                },
            forall|i: int, j: int|
                n0 <= i < j < move_list.moves().len() ==> (#[trigger] move_list.moves()[i]).to_n() * 4
                    + promo_idx(move_list.moves()[i].promo_type()) < (
                #[trigger] move_list.moves()[j]).to_n() * 4 + promo_idx(move_list.moves()[j].promo_type()),
        decreases b,
    {
        let ghost before = b;
        let ghost prev = move_list.moves();
        let to = pop_lsb(&mut b);
        let r = make_promotions(move_list, gen_type, d, enemy, to);
        proof {
            let tt = to.idx();
            assert(has_bit(before, tt));
            assert forall|j: int| n0 <= j < move_list.moves().len() implies {
                let m = #[trigger] move_list.moves()[j];
                &&& m.mtype() == MoveType::Promotion
                &&& has_bit(b0, m.to_n())
                &&& m.from_n() == m.to_n() - d.num()
                &&& types.contains(m.promo_type())
                &&& m.to_n() < tt + 1
                &&& 0 <= promo_idx(m.promo_type()) < 4
            } by {
                if j >= prev.len() {
                    let jj = j - prev.len();
                    assert(move_list.moves()[prev.len() + jj].promo_type() == types[jj]);
                } else {
                    assert(move_list.moves()[j] == prev[j]);
                }
            }
            assert forall|i: int, j: int|
                n0 <= i < j < move_list.moves().len() implies (#[trigger] move_list.moves()[i]).to_n() * 4
                    + promo_idx(move_list.moves()[i].promo_type()) < (
                #[trigger] move_list.moves()[j]).to_n() * 4 + promo_idx(move_list.moves()[j].promo_type()) by {
                if j >= prev.len() {
                    let jj = j - prev.len();
                    assert(move_list.moves()[prev.len() + jj].promo_type() == types[jj]);
                    if i >= prev.len() {
                        let ii = i - prev.len();
                        assert(move_list.moves()[prev.len() + ii].promo_type() == types[ii]);
                    } else {
                        assert(move_list.moves()[i] == prev[i]);
                    }
                } else {
                    assert(move_list.moves()[i] == prev[i]);
                    assert(move_list.moves()[j] == prev[j]);
                }
            }
            assert forall|t: int, j: int|
                0 <= t < tt + 1 && has_bit(b0, t) && 0 <= t - d.num() < 64 && 0 <= j < types.len()
                    implies #[trigger] has_promotion(move_list.moves(), n0, t - d.num(), t, types[j]) by {
                if t == tt {
                    let k = prev.len() + j;
                    assert(move_list.moves()[k].promo_type() == types[j]);
                } else if t < nt {
                    lemma_promotion_mono(move_list.moves(), prev, n0, n0, t - d.num(), t, types[j]);
                } else {
                    assert(!has_bit(before, t));
                }
            }
            nt = tt + 1;
            assert forall|i: int| 0 <= i < 64 implies (#[trigger] has_bit(b, i) <==> (has_bit(b0, i) && i >= nt)) by {
                if i != tt {
                    assert(has_bit(b, i) == has_bit(before, i));
                }
            }
        }
    }
    proof {
        assert forall|t: int, j: int|
            0 <= t < 64 && has_bit(b0, t) && 0 <= t - d.num() < 64 && 0 <= j < types.len()
                implies #[trigger] has_promotion(move_list.moves(), n0, t - d.num(), t, types[j]) by {
            if t >= nt {
                assert(!has_bit(b, t)) by {
                    lemma_zero_has_no_bit(t);
                }
            }
        }
    }
}

/// The rank from which pawns of `us` promote by moving one step.
pub open spec fn rank7_of(us: Color) -> u64 {
    if us == Color::White {
        RANK7_BB
    } else {
        RANK2_BB
    }
}

/// The rank that a double push of `us` crosses.
pub open spec fn rank3_of(us: Color) -> u64 {
    if us == Color::White {
        RANK3_BB
    } else {
        RANK6_BB
    }
}

/// The pawns of `us` that do not promote with their next step.
pub open spec fn pushable_pawns(pos: Position, us: Color) -> u64 {
    pos.pieces_spec(us, PieceType::Pawn) & !rank7_of(us)
}

proof fn lemma_pawn_bits(b: u64, e: u64, i: int)
    requires
        0 <= i < 64,
    ensures
        i < 56 && has_bit(b, i) ==> has_bit(b << 8u64, i + 8),
        i >= 8 && has_bit(b, i) ==> has_bit(b >> 8u64, i - 8),
        has_bit(b & e, i) == (has_bit(b, i) && has_bit(e, i)),
        has_bit(b | e, i) == (has_bit(b, i) || has_bit(e, i)),
{
    let j = i as u64;
    let up = if j < 56 {
        (j + 8) as u64
    } else {
        0u64
    };
    let dn = if j >= 8 {
        (j - 8) as u64
    } else {
        0u64
    };
    assert((j < 56 && (b >> j) & 1u64 == 1u64 ==> ((b << 8u64) >> up) & 1u64 == 1u64) && (j >= 8
        && (b >> j) & 1u64 == 1u64 ==> ((b >> 8u64) >> dn) & 1u64 == 1u64) && ((((b & e) >> j) & 1u64
        == 1u64) == (((b >> j) & 1u64 == 1u64) && ((e >> j) & 1u64 == 1u64))) && ((((b | e) >> j)
        & 1u64 == 1u64) == (((b >> j) & 1u64 == 1u64) || ((e >> j) & 1u64 == 1u64)))) by (bit_vector)
        requires
            j < 64,
            j < 56 ==> up == j + 8,
            j >= 8 ==> dn == j - 8,
    ;
}

/// Pawn moves of `us` of the given generation type onto `target`.
#[verifier::rlimit(100)]
#[verifier::spinoff_prover]
pub fn generate_pawn_moves(
    pos: &Position,
    t: &BitboardTables,
    move_list: &mut MoveList,
    gen_type: GenType,
    us: Color,
    target: Bitboard,
)
    requires
        t.wf(),
        pos.board_ok(),
    ensures
        extends(final(move_list).moves(), old(move_list).moves()),
        gen_type != GenType::Captures ==> forall|m: Move|
            m.raw_spec() < 4096 && has_bit(pushable_pawns(*pos, us), m.from_n()) && m.to_n()
                == m.from_n() + pawn_push_n(us) && !has_bit(pos.type_sets()[0], m.to_n()) && (gen_type
                == GenType::Evasions ==> has_bit(target, m.to_n())) ==> #[trigger] final(move_list).moves().subrange(
                old(move_list).moves().len() as int,
                final(move_list).moves().len() as int,
            ).contains(m),
        gen_type != GenType::Captures ==> forall|m: Move|
            m.raw_spec() < 4096 && has_bit(pushable_pawns(*pos, us), m.from_n()) && !has_bit(
                pos.type_sets()[0],
                m.from_n() + pawn_push_n(us),
            ) && has_bit(rank3_of(us), m.from_n() + pawn_push_n(us)) && m.to_n() == m.from_n() + 2
                * pawn_push_n(us) && !has_bit(pos.type_sets()[0], m.to_n()) && (gen_type
                == GenType::Evasions ==> has_bit(target, m.to_n())) ==> #[trigger] final(move_list).moves().subrange(
                old(move_list).moves().len() as int,
                final(move_list).moves().len() as int,
            ).contains(m),
        (gen_type == GenType::Captures || gen_type == GenType::Evasions || gen_type
            == GenType::NonEvasions) ==> forall|m: Move|
            m.raw_spec() < 4096 && has_bit(pushable_pawns(*pos, us), m.from_n()) && has_bit(
                pawn_attacks_spec(bit(m.from_n()), us),
                m.to_n(),
            ) && has_bit(pawn_enemies(*pos, us, gen_type), m.to_n()) ==> #[trigger] final(move_list).moves().subrange(
                old(move_list).moves().len() as int,
                final(move_list).moves().len() as int,
            ).contains(m),
        (gen_type == GenType::Captures || gen_type == GenType::Evasions || gen_type
            == GenType::NonEvasions) && pos.state().ep_square != Square::SqNone && !(gen_type
            == GenType::Evasions && ep_blocks(*pos, us, target)) ==> forall|f: int|
            0 <= f < 64 && has_bit(pushable_pawns(*pos, us), f) && has_bit(
                pawn_attacks_spec(bit(pos.state().ep_square.idx()), us.flip()),
                f,
            ) ==> exists|j: int|
                old(move_list).moves().len() <= j < final(move_list).moves().len() && (
                #[trigger] final(move_list).moves()[j]).mtype() == MoveType::EnPassant && final(move_list).moves()[j].from_n() == f
                    && final(move_list).moves()[j].to_n() == pos.state().ep_square.idx(),
        forall|f: int, to: int, j: int|
            has_bit(pos.pieces_spec(us, PieceType::Pawn) & rank7_of(us), f) && has_bit(
                pawn_attacks_spec(bit(f), us),
                to,
            ) && has_bit(pawn_enemies(*pos, us, gen_type), to) && 0 <= j < promotion_types(
                gen_type,
                true,
            ).len() ==> #[trigger] has_promotion(
                final(move_list).moves(),
                old(move_list).moves().len() as int,
                f,
                to,
                promotion_types(gen_type, true)[j],
            ),
        forall|f: int, to: int, j: int|
            has_bit(pos.pieces_spec(us, PieceType::Pawn) & rank7_of(us), f) && to == f + pawn_push_n(
                us,
            ) && 0 <= to < 64 && !has_bit(pos.type_sets()[0], to) && (gen_type == GenType::Evasions ==> has_bit(
                target,
                to,
            )) && 0 <= j < promotion_types(gen_type, false).len() ==> #[trigger] has_promotion(
                final(move_list).moves(),
                old(move_list).moves().len() as int,
                f,
                to,
                promotion_types(gen_type, false)[j],
            ),
        pawn_moves_listed(
            final(move_list).moves(),
            old(move_list).moves().len() as int,
            *pos,
            us,
            gen_type,
            target,
        ),
        forall|j: int|
            old(move_list).moves().len() <= j < final(move_list).moves().len() ==> pawn_move_ok(
                *pos,
                us,
                gen_type,
                target,
                #[trigger] final(move_list).moves()[j],
            ),
        forall|i: int, j: int|
            old(move_list).moves().len() <= i < j < final(move_list).moves().len() ==> pawn_rank(
                us,
                #[trigger] final(move_list).moves()[i],
            ) < pawn_rank(us, #[trigger] final(move_list).moves()[j]),
        forall|i: int, j: int|
            old(move_list).moves().len() <= i < j < final(move_list).moves().len() ==> #[trigger] final(move_list).moves()[i]
                != #[trigger] final(move_list).moves()[j],
{
    let ghost start = move_list.moves();
    let ghost n0 = start.len() as int;
    let ghost mut gb: int = 0;
    let ghost mut s_mid = start;
    let ghost mut s_cap = start;
    let ghost mut s_prom = start;
    let them = us.opposite();
    let rank7 = if us == Color::White {
        RANK7_BB
    } else {
        RANK2_BB
    };
    let rank3 = if us == Color::White {
        RANK3_BB
    } else {
        RANK6_BB
    };
    let up = if us == Color::White {
        Direction::North
    } else {
        Direction::South
    };
    let up_right = if us == Color::White {
        Direction::NorthEast
    } else {
        Direction::SouthWest
    };
    let up_left = if us == Color::White {
        Direction::NorthWest
    } else {
        Direction::SouthEast
    };
    assert(up == up_dir(us) && up_right == up_right_dir(us) && up_left == up_left_dir(us));
    assert(rank3 == rank3_of(us) && rank7 == rank7_of(us));
    let empty_squares = !pos.all_pieces();
    let enemies = if gen_type == GenType::Evasions {
        pos.checkers()
    } else {
        pos.pieces_by_color(them)
    };
    let pawns = pos.pieces(us, PieceType::Pawn);
    let pawns_on_7 = pawns & rank7;
    let pawns_not_on_7 = pawns & !rank7;
    if gen_type != GenType::Captures {
        let mut b1 = shift(pawns_not_on_7, up) & empty_squares;
        let mut b2 = shift(b1 & rank3, up) & empty_squares;
        if gen_type == GenType::Evasions {
            b1 = b1 & target;
            b2 = b2 & target;
        }
        let ghost l1 = move_list.moves().len() as int;
        let ghost s0 = move_list.moves();
        push_pawn_steps(move_list, b1, up.to_num());
        let ghost s1 = move_list.moves();
        push_pawn_steps(move_list, b2, 2 * up.to_num());
        let ghost s2 = move_list.moves();
        proof {
            assert(pawns_not_on_7 == pushable_pawns(*pos, us));
            lemma_seg_push(*pos, us, gen_type, target, s0, s1, b1, pawns_not_on_7, empty_squares, false);
            lemma_pawn_list_extend(s0, s1, n0, *pos, us, gen_type, target, 0, 0, 1000);
            lemma_seg_push(*pos, us, gen_type, target, s1, s2, b2, pawns_not_on_7, empty_squares, true);
            lemma_pawn_list_extend(s1, s2, n0, *pos, us, gen_type, target, 1000, 1000, 2000);
            gb = 2000;
        }
        proof {
            let e = empty_squares;
            let p = pawns_not_on_7;
            assert forall|m: Move|
                m.raw_spec() < 4096 && has_bit(p, m.from_n()) && m.to_n() == m.from_n() + pawn_push_n(us)
                    && has_bit(e, m.to_n()) && (gen_type == GenType::Evasions ==> has_bit(target, m.to_n()))
                    implies #[trigger] s1.subrange(l1, s1.len() as int).contains(m) by {
                let f = m.from_n();
                let to = m.to_n();
                lemma_pawn_bits(p, e, f);
                lemma_pawn_bits(shift_spec(p, up), e, to);
                lemma_pawn_bits(shift_spec(p, up) & e, target, to);
            }
            assert forall|m: Move|
                m.raw_spec() < 4096 && has_bit(p, m.from_n()) && has_bit(e, m.from_n() + pawn_push_n(us))
                    && has_bit(rank3, m.from_n() + pawn_push_n(us)) && m.to_n() == m.from_n() + 2
                    * pawn_push_n(us) && has_bit(e, m.to_n()) && (gen_type == GenType::Evasions
                    ==> has_bit(target, m.to_n())) implies #[trigger] s2.subrange(
                s1.len() as int,
                s2.len() as int,
            ).contains(m) by {
                let f = m.from_n();
                let mid = f + pawn_push_n(us);
                let to = m.to_n();
                let c1 = shift_spec(p, up) & e;
                lemma_pawn_bits(p, e, f);
                lemma_pawn_bits(c1 & rank3, e, mid);
                lemma_pawn_bits(shift_spec(p, up), e, mid);
                lemma_pawn_bits(c1, rank3, mid);
                lemma_pawn_bits(shift_spec(c1 & rank3, up), e, to);
                lemma_pawn_bits(shift_spec(c1 & rank3, up) & e, target, to);
            }
            assert forall|m: Move|
                m.raw_spec() < 4096 && has_bit(p, m.from_n()) && m.to_n() == m.from_n() + pawn_push_n(us)
                    && has_bit(e, m.to_n()) && (gen_type == GenType::Evasions ==> has_bit(target, m.to_n()))
                    implies #[trigger] s2.subrange(n0, s2.len() as int).contains(m) by {
                lemma_contains_mono(s2, s1, l1, s1.len() as int, n0, m);
            }
            assert forall|m: Move|
                m.raw_spec() < 4096 && has_bit(p, m.from_n()) && has_bit(e, m.from_n() + pawn_push_n(us))
                    && has_bit(rank3, m.from_n() + pawn_push_n(us)) && m.to_n() == m.from_n() + 2
                    * pawn_push_n(us) && has_bit(e, m.to_n()) && (gen_type == GenType::Evasions
                    ==> has_bit(target, m.to_n())) implies #[trigger] s2.subrange(n0, s2.len() as int).contains(m) by {
                lemma_contains_mono(s2, s2, s1.len() as int, s2.len() as int, n0, m);
            }
            s_mid = s2;
        }
    }
    if pawns_on_7 != 0 {
        let mut b1 = shift(pawns_on_7, up_right) & enemies;
        let mut b2 = shift(pawns_on_7, up_left) & enemies;
        let mut b3 = shift(pawns_on_7, up) & empty_squares;
        if gen_type == GenType::Evasions {
            b3 = b3 & target;
        }
        let ghost q0 = move_list.moves();
        promote_all(move_list, b1, gen_type, up_right, true);
        let ghost q1 = move_list.moves();
        promote_all(move_list, b2, gen_type, up_left, true);
        let ghost q2 = move_list.moves();
        promote_all(move_list, b3, gen_type, up, false);
        let ghost q3 = move_list.moves();
        proof {
            assert(pawns_on_7 == pos.pieces_spec(us, PieceType::Pawn) & rank7_of(us));
            assert(enemies == pawn_enemies(*pos, us, gen_type));
            lemma_seg_promo(*pos, us, gen_type, target, q0, q1, b1, pawns_on_7, enemies, 0);
            lemma_pawn_list_extend(q0, q1, n0, *pos, us, gen_type, target, gb, 2000, 3000);
            lemma_seg_promo(*pos, us, gen_type, target, q1, q2, b2, pawns_on_7, enemies, 1);
            lemma_pawn_list_extend(q1, q2, n0, *pos, us, gen_type, target, 3000, 3000, 4000);
            lemma_seg_promo(*pos, us, gen_type, target, q2, q3, b3, pawns_on_7, empty_squares, 2);
            lemma_pawn_list_extend(q2, q3, n0, *pos, us, gen_type, target, 4000, 4000, 5000);
            gb = 5000;
        }
        proof {
            let p7 = pawns_on_7;
            let e = empty_squares;
            assert forall|f: int, to: int, j: int|
                has_bit(p7, f) && has_bit(pawn_attacks_spec(bit(f), us), to) && has_bit(enemies, to)
                    && 0 <= j < promotion_types(gen_type, true).len() implies #[trigger] has_promotion(
                q3,
                n0,
                f,
                to,
                promotion_types(gen_type, true)[j],
            ) by {
                let one = bit(f);
                lemma_pawn_bits(shift_spec(one, up_left), shift_spec(one, up_right), to);
                lemma_pawn_bits(shift_spec(one, up_right), shift_spec(one, up_left), to);
                lemma_diag_shift(p7, FILEH_BB, f, to, 9);
                lemma_diag_shift(p7, FILEA_BB, f, to, 7);
                lemma_diag_shift(p7, FILEA_BB, f, to, 9);
                lemma_diag_shift(p7, FILEH_BB, f, to, 7);
                lemma_pawn_bits(shift_spec(p7, up_right), enemies, to);
                lemma_pawn_bits(shift_spec(p7, up_left), enemies, to);
                if has_bit(shift_spec(one, up_right), to) {
                    assert(has_bit(b1, to));
                    assert(to - up_right.num() == f);
                    assert(has_promotion(q1, q0.len() as int, to - up_right.num(), to, promotion_types(gen_type, true)[j]));
                    lemma_promotion_mono(q3, q1, q0.len() as int, n0, f, to, promotion_types(gen_type, true)[j]);
                } else {
                    assert(has_bit(b2, to));
                    assert(to - up_left.num() == f);
                    assert(has_promotion(q2, q1.len() as int, to - up_left.num(), to, promotion_types(gen_type, true)[j]));
                    lemma_promotion_mono(q3, q2, q1.len() as int, n0, f, to, promotion_types(gen_type, true)[j]);
                }
            }
            assert forall|f: int, to: int, j: int|
                has_bit(p7, f) && to == f + pawn_push_n(us) && has_bit(e, to) && (gen_type
                    == GenType::Evasions ==> has_bit(target, to)) && 0 <= j < promotion_types(
                    gen_type,
                    false,
                ).len() implies #[trigger] has_promotion(
                q3,
                n0,
                f,
                to,
                promotion_types(gen_type, false)[j],
            ) by {
                lemma_pawn_bits(p7, e, f);
                lemma_pawn_bits(shift_spec(p7, up), e, to);
                lemma_pawn_bits(shift_spec(p7, up) & e, target, to);
                assert(has_bit(b3, to));
                assert(to - up.num() == f);
                assert(has_promotion(q3, q2.len() as int, to - up.num(), to, promotion_types(gen_type, false)[j]));
                lemma_promotion_mono(q3, q3, q2.len() as int, n0, f, to, promotion_types(gen_type, false)[j]);
            }
            s_prom = q3;
        }
    }
    if gen_type == GenType::Captures || gen_type == GenType::Evasions || gen_type
        == GenType::NonEvasions {
        let b1 = shift(pawns_not_on_7, up_right) & enemies;
        let b2 = shift(pawns_not_on_7, up_left) & enemies;
        let ghost c0 = move_list.moves();
        push_pawn_steps(move_list, b1, up_right.to_num());
        let ghost c1 = move_list.moves();
        push_pawn_steps(move_list, b2, up_left.to_num());
        let ghost c2 = move_list.moves();
        proof {
            assert(pawns_not_on_7 == pushable_pawns(*pos, us));
            assert(enemies == pawn_enemies(*pos, us, gen_type));
            lemma_seg_diag(*pos, us, gen_type, target, c0, c1, b1, pawns_not_on_7, enemies, true);
            lemma_pawn_list_extend(c0, c1, n0, *pos, us, gen_type, target, gb, 5000, 6000);
            lemma_seg_diag(*pos, us, gen_type, target, c1, c2, b2, pawns_not_on_7, enemies, false);
            lemma_pawn_list_extend(c1, c2, n0, *pos, us, gen_type, target, 6000, 6000, 7000);
            gb = 7000;
        }
        proof {
            let p = pawns_not_on_7;
            assert(p == pushable_pawns(*pos, us));
            assert(enemies == pawn_enemies(*pos, us, gen_type));
            assert forall|m: Move|
                m.raw_spec() < 4096 && has_bit(p, m.from_n()) && has_bit(
                    pawn_attacks_spec(bit(m.from_n()), us),
                    m.to_n(),
                ) && has_bit(enemies, m.to_n()) implies #[trigger] c2.subrange(n0, c2.len() as int).contains(m) by {
                let f = m.from_n();
                let to = m.to_n();
                let one = bit(f);
                lemma_pawn_bits(shift_spec(one, up_left), shift_spec(one, up_right), to);
                lemma_pawn_bits(shift_spec(one, up_right), shift_spec(one, up_left), to);
                lemma_diag_shift(p, FILEH_BB, f, to, 9);
                lemma_diag_shift(p, FILEA_BB, f, to, 7);
                lemma_diag_shift(p, FILEA_BB, f, to, 9);
                lemma_diag_shift(p, FILEH_BB, f, to, 7);
                lemma_pawn_bits(shift_spec(p, up_right), enemies, to);
                lemma_pawn_bits(shift_spec(p, up_left), enemies, to);
                if has_bit(shift_spec(one, up_right), to) {
                    assert(has_bit(b1, to));
                    assert(c1.subrange(c0.len() as int, c1.len() as int).contains(m));
                    lemma_contains_mono(c2, c1, c0.len() as int, c1.len() as int, n0, m);
                } else {
                    assert(has_bit(b2, to));
                    assert(c2.subrange(c1.len() as int, c2.len() as int).contains(m));
                    lemma_contains_mono(c2, c2, c1.len() as int, c2.len() as int, n0, m);
                }
            }
            s_cap = c2;
        }
        let ep = pos.ep_square();
        if ep != Square::SqNone {
            let ahead = ep.index() as i32 + up.to_num();
            let blocks_check = 0 <= ahead && ahead < 64 && target & (1u64 << (ahead as u64)) != 0;
            proof {
                if 0 <= ahead < 64 {
                    lemma_bit_mask(target, ahead as int);
                }
            }
            if !(gen_type == GenType::Evasions && blocks_check) {
                let b0 = pawns_not_on_7 & get_pawn_attacks_bb(t, them, ep);
                let mut b = b0;
                proof {
                    assert(pawns_not_on_7 == pushable_pawns(*pos, us));
                    if 0 <= ep.idx() + pawn_push_n(us) < 64 {
                        lemma_bit_mask(target, ep.idx() + pawn_push_n(us));
                    }
                    assert(pawn_list_good(move_list.moves(), n0, *pos, us, gen_type, target, 7000));
                }
                let ghost mut nf: int = 0;
                while b != 0
                    invariant
                        ep.is_on_board(),
                        extends(move_list.moves(), old(move_list).moves()),
                        extends(move_list.moves(), s_cap),
                        extends(move_list.moves(), s_mid),
                        extends(move_list.moves(), s_prom),
                        n0 == start.len(),
                        start == old(move_list).moves(),
                        0 <= nf <= 64,
                        pawn_list_good(move_list.moves(), n0, *pos, us, gen_type, target, 7000 + nf),
                        b0 == pushable_pawns(*pos, us) & pawn_attacks_spec(bit(ep.idx()), us.flip()),
                        ep == pos.state().ep_square,
                        !(gen_type == GenType::Evasions && ep_blocks(*pos, us, target)),
                        gen_type == GenType::Captures || gen_type == GenType::Evasions || gen_type
                            == GenType::NonEvasions,
                        forall|i: int| 0 <= i < 64 ==> (#[trigger] has_bit(b, i) <==> (has_bit(b0, i) && i >= nf)),
                        forall|f: int|
                            0 <= f < nf && has_bit(b0, f) ==> exists|j: int|
                                n0 <= j < move_list.moves().len() && (#[trigger] move_list.moves()[j]).mtype()
                                    == MoveType::EnPassant && move_list.moves()[j].from_n() == f
                                    && move_list.moves()[j].to_n() == ep.idx(),
                    decreases b,
                {
                    let ghost before = b;
                    let ghost prev = move_list.moves();
                    let from = pop_lsb(&mut b);
                    move_list.push_move(Move::make(MoveType::EnPassant, from, ep, PieceType::Knight));
                    proof {
                        let fi = from.idx();
                        let nm = move_list.moves()[prev.len() as int];
                        lemma_pawn_bits(pushable_pawns(*pos, us), pawn_attacks_spec(bit(ep.idx()), us.flip()), fi);
                        assert(has_bit(before, fi));
                        assert(pawn_move_ok(*pos, us, gen_type, target, nm));
                        assert forall|j: int| n0 <= j < move_list.moves().len() implies pawn_move_ok(
                            *pos,
                            us,
                            gen_type,
                            target,
                            #[trigger] move_list.moves()[j],
                        ) && pawn_rank(us, move_list.moves()[j]) < 7000 + fi + 1 by {
                            if j < prev.len() {
                                assert(move_list.moves()[j] == prev[j]);
                            }
                        }
                        assert forall|i: int, j: int| n0 <= i < j < move_list.moves().len() implies pawn_rank(
                            us,
                            #[trigger] move_list.moves()[i],
                        ) < pawn_rank(us, #[trigger] move_list.moves()[j]) by {
                            assert(move_list.moves()[i] == prev[i]);
                            if j < prev.len() {
                                assert(move_list.moves()[j] == prev[j]);
                            }
                        }
                        assert(has_bit(before, fi));
                        assert forall|f: int|
                            0 <= f < fi + 1 && has_bit(b0, f) implies exists|j: int|
                                n0 <= j < move_list.moves().len() && (#[trigger] move_list.moves()[j]).mtype()
                                    == MoveType::EnPassant && move_list.moves()[j].from_n() == f
                                    && move_list.moves()[j].to_n() == ep.idx() by {
                            if f == fi {
                                assert(move_list.moves()[prev.len() as int].from_n() == f);
                            } else if f < nf {
                                let j = choose|j: int|
                                    n0 <= j < prev.len() && (#[trigger] prev[j]).mtype()
                                        == MoveType::EnPassant && prev[j].from_n() == f && prev[j].to_n()
                                        == ep.idx();
                                assert(move_list.moves()[j] == prev[j]);
                            } else {
                                assert(!has_bit(before, f));
                            }
                        }
                        nf = fi + 1;
                        assert forall|i: int| 0 <= i < 64 implies (#[trigger] has_bit(b, i) <==> (has_bit(b0, i) && i >= nf)) by {
                            if i != fi {
                                assert(has_bit(b, i) == has_bit(before, i));
                            }
                        }
                    }
                }
                proof {
                    assert forall|f: int| nf <= f < 64 implies !has_bit(b0, f) by {
                        assert(!has_bit(b, f)) by {
                            lemma_zero_has_no_bit(f);
                        }
                    }
                    let att = pawn_attacks_spec(bit(ep.idx()), them);
                    assert(pawns_not_on_7 == pushable_pawns(*pos, us));
                    assert forall|f: int|
                        0 <= f < 64 && has_bit(pushable_pawns(*pos, us), f) && has_bit(att, f) implies exists|j: int|
                            n0 <= j < move_list.moves().len() && (#[trigger] move_list.moves()[j]).mtype()
                                == MoveType::EnPassant && move_list.moves()[j].from_n() == f
                                && move_list.moves()[j].to_n() == ep.idx() by {
                        lemma_pawn_bits(pawns_not_on_7, att, f);
                    }
                }
            }
        }
    }
    proof {
        let fin = move_list.moves();
        assert(pawn_list_good(fin, n0, *pos, us, gen_type, target, 7064));
        assert forall|i: int, j: int| n0 <= i < j < fin.len() implies #[trigger] fin[i] != #[trigger] fin[j] by {
            assert(pawn_rank(us, fin[i]) < pawn_rank(us, fin[j]));
        }
        assert forall|f: int, to: int, j: int|
            has_bit(pos.pieces_spec(us, PieceType::Pawn) & rank7_of(us), f) && has_bit(
                pawn_attacks_spec(bit(f), us),
                to,
            ) && has_bit(pawn_enemies(*pos, us, gen_type), to) && 0 <= j < promotion_types(
                gen_type,
                true,
            ).len() implies #[trigger] has_promotion(fin, n0, f, to, promotion_types(gen_type, true)[j]) by {
            assert(pawns_on_7 == pos.pieces_spec(us, PieceType::Pawn) & rank7_of(us));
            assert(enemies == pawn_enemies(*pos, us, gen_type));
            if pawns_on_7 == 0 {
                lemma_zero_has_no_bit(f);
            } else {
                lemma_promotion_mono(fin, s_prom, n0, n0, f, to, promotion_types(gen_type, true)[j]);
            }
        }
        assert forall|f: int, to: int, j: int|
            has_bit(pos.pieces_spec(us, PieceType::Pawn) & rank7_of(us), f) && to == f + pawn_push_n(
                us,
            ) && 0 <= to < 64 && !has_bit(pos.type_sets()[0], to) && (gen_type == GenType::Evasions ==> has_bit(
                target,
                to,
            )) && 0 <= j < promotion_types(gen_type, false).len() implies #[trigger] has_promotion(
            fin,
            n0,
            f,
            to,
            promotion_types(gen_type, false)[j],
        ) by {
            assert(pawns_on_7 == pos.pieces_spec(us, PieceType::Pawn) & rank7_of(us));
            if pawns_on_7 == 0 {
                lemma_zero_has_no_bit(f);
            } else {
                lemma_not_bit(pos.type_sets()[0], to);
                lemma_promotion_mono(fin, s_prom, n0, n0, f, to, promotion_types(gen_type, false)[j]);
            }
        }
        if gen_type == GenType::Captures || gen_type == GenType::Evasions || gen_type
            == GenType::NonEvasions {
            assert forall|m: Move|
                m.raw_spec() < 4096 && has_bit(pushable_pawns(*pos, us), m.from_n()) && has_bit(
                    pawn_attacks_spec(bit(m.from_n()), us),
                    m.to_n(),
                ) && has_bit(pawn_enemies(*pos, us, gen_type), m.to_n()) implies #[trigger] fin.subrange(
                n0,
                fin.len() as int,
            ).contains(m) by {
                assert(s_cap.subrange(n0, s_cap.len() as int).contains(m));
                lemma_contains_mono(fin, s_cap, n0, s_cap.len() as int, n0, m);
            }
        }
        if gen_type != GenType::Captures {
            assert(pawns_not_on_7 == pushable_pawns(*pos, us));
            assert forall|m: Move|
                m.raw_spec() < 4096 && has_bit(pushable_pawns(*pos, us), m.from_n()) && m.to_n()
                    == m.from_n() + pawn_push_n(us) && !has_bit(pos.type_sets()[0], m.to_n()) && (gen_type
                    == GenType::Evasions ==> has_bit(target, m.to_n())) implies #[trigger] fin.subrange(
                n0,
                fin.len() as int,
            ).contains(m) by {
                lemma_not_bit(pos.type_sets()[0], m.to_n());
                assert(s_mid.subrange(n0, s_mid.len() as int).contains(m));
                lemma_contains_mono(fin, s_mid, n0, s_mid.len() as int, n0, m);
            }
            assert forall|m: Move|
                m.raw_spec() < 4096 && has_bit(pushable_pawns(*pos, us), m.from_n()) && !has_bit(
                    pos.type_sets()[0],
                    m.from_n() + pawn_push_n(us),
                ) && has_bit(rank3_of(us), m.from_n() + pawn_push_n(us)) && m.to_n() == m.from_n()
                    + 2 * pawn_push_n(us) && !has_bit(pos.type_sets()[0], m.to_n()) && (gen_type
                    == GenType::Evasions ==> has_bit(target, m.to_n())) implies #[trigger] fin.subrange(
                n0,
                fin.len() as int,
            ).contains(m) by {
                lemma_not_bit(pos.type_sets()[0], m.to_n());
                lemma_not_bit(pos.type_sets()[0], m.from_n() + pawn_push_n(us));
                assert(s_mid.subrange(n0, s_mid.len() as int).contains(m));
                lemma_contains_mono(fin, s_mid, n0, s_mid.len() as int, n0, m);
            }
        }
    }
}

/// The destinations that `generate_moves` gives a piece of type `pt` of
/// `us` on `from`: the squares of `target` that it attacks, narrowed to the
/// checking squares when `checks` is set and the piece cannot give a
/// discovered check (a queen never counts as able to).
pub open spec fn piece_targets(
    pos: Position,
    us: Color,
    pt: PieceType,
    target: u64,
    checks: bool,
    from: int,
) -> u64 {
    let b = attacks_spec(pt, from, pos.type_sets()[0]) & target;
    if checks && (pt == PieceType::Queen || !has_bit(
        pos.state().blockers_for_king[us.flip().idx()],
        from,
    )) {
        b & pos.state().check_squares[pt.idx()]
    } else {
        b
    }
}

/// The normal move with the given origin and destination numbers has these bits.
pub open spec fn normal_bits(from: int, to: int) -> int {
    from * 64 + to
}

/// Appends the moves of the pieces of type `pt` of `us` onto `target` (see
/// `piece_targets`): exactly one normal move for each such piece and each of
/// its destinations, in increasing order of origin, then of destination.
pub fn generate_moves(
    pos: &Position,
    t: &BitboardTables,
    move_list: &mut MoveList,
    us: Color,
    pt: PieceType,
    target: Bitboard,
    checks: bool,
)
    requires
        t.wf(),
        pos.board_ok(),
    ensures
        extends(final(move_list).moves(), old(move_list).moves()),
        forall|m: Move|
            final(move_list).moves().subrange(
                old(move_list).moves().len() as int,
                final(move_list).moves().len() as int,
            ).contains(m) <==> (m.raw_spec() < 4096 && has_bit(pos.pieces_spec(us, pt), m.from_n())
                && has_bit(piece_targets(*pos, us, pt, target, checks, m.from_n()), m.to_n())),
        forall|i: int, j: int|
            old(move_list).moves().len() <= i < j < final(move_list).moves().len() ==> (
            #[trigger] final(move_list).moves()[i]).raw_spec() < (
            #[trigger] final(move_list).moves()[j]).raw_spec(),
{
    let pieces0 = pos.pieces(us, pt);
    let mut bb = pieces0;
    let occ = pos.all_pieces();
    let ghost start = move_list.moves();
    let ghost n0 = start.len() as int;
    let ghost mut nf: int = 0;
    while bb != 0
        invariant
            t.wf(),
            pos.board_ok(),
            pieces0 == pos.pieces_spec(us, pt),
            occ == pos.type_sets()[0],
            n0 == start.len(),
            0 <= nf <= 64,
            forall|i: int| 0 <= i < 64 ==> (#[trigger] has_bit(bb, i) <==> (has_bit(pieces0, i) && i >= nf)),
            extends(move_list.moves(), start),
            forall|m: Move|
                move_list.moves().subrange(n0, move_list.moves().len() as int).contains(m) <==> (
                m.raw_spec() < 4096 && has_bit(pieces0, m.from_n()) && m.from_n() < nf && has_bit(
                    piece_targets(*pos, us, pt, target, checks, m.from_n()),
                    m.to_n(),
                )),
            forall|i: int, j: int|
                n0 <= i < j < move_list.moves().len() ==> (#[trigger] move_list.moves()[i]).raw_spec()
                    < (#[trigger] move_list.moves()[j]).raw_spec(),
            forall|i: int| n0 <= i < move_list.moves().len() ==> (#[trigger] move_list.moves()[i]).raw_spec() < nf * 64,
        decreases bb,
    {
        let ghost before = bb;
        let from = pop_lsb(&mut bb);
        let ghost f = from.idx();
        proof {
            assert(has_bit(before, f));
            assert forall|i: int| nf <= i < f implies !has_bit(pieces0, i) by {
                assert(!has_bit(before, i));
            }
        }
        let all_b = attacks_bb(t, pt, from, occ) & target;
        let mut b = all_b;
        if checks && (pt == PieceType::Queen || pos.blockers_for_king(us.opposite()) & from.bb()
            == 0) {
            b = b & pos.check_squares(pt);
        }
        proof {
            lemma_bit_mask(pos.state().blockers_for_king[us.flip().idx()], f);
        }
        let ghost targets = b;
        assert(targets == piece_targets(*pos, us, pt, target, checks, f));
        let ghost mut nt: int = 0;
        while b != 0
            invariant
                from.is_on_board(),
                f == from.idx(),
                nf <= f < 64,
                has_bit(pieces0, f),
                forall|i: int| nf <= i < f ==> !has_bit(pieces0, i),
                targets == piece_targets(*pos, us, pt, target, checks, f),
                0 <= nt <= 64,
                forall|i: int| 0 <= i < 64 ==> (#[trigger] has_bit(b, i) <==> (has_bit(targets, i) && i >= nt)),
                n0 == start.len(),
                extends(move_list.moves(), start),
                forall|m: Move|
                    move_list.moves().subrange(n0, move_list.moves().len() as int).contains(m) <==> (
                    m.raw_spec() < 4096 && has_bit(pieces0, m.from_n()) && ((m.from_n() < nf
                        && has_bit(piece_targets(*pos, us, pt, target, checks, m.from_n()), m.to_n()))
                        || (m.from_n() == f && m.to_n() < nt && has_bit(targets, m.to_n())))),
                forall|i: int, j: int|
                    n0 <= i < j < move_list.moves().len() ==> (#[trigger] move_list.moves()[i]).raw_spec()
                        < (#[trigger] move_list.moves()[j]).raw_spec(),
                forall|i: int| n0 <= i < move_list.moves().len() ==> (#[trigger] move_list.moves()[i]).raw_spec() < f * 64 + nt,
            decreases b,
        {
            let ghost before_b = b;
            let to = pop_lsb(&mut b);
            let ghost tt = to.idx();
            let ghost prev = move_list.moves();
            let mv = Move::new_from_to_sq(from, to);
            move_list.push_move(mv);
            proof {
                assert(has_bit(before_b, tt));
                let sub_old = prev.subrange(n0, prev.len() as int);
                let sub_new = move_list.moves().subrange(n0, move_list.moves().len() as int);
                assert(sub_new =~= sub_old.push(mv));
                assert forall|m: Move| sub_new.contains(m) <==> (m.raw_spec() < 4096 && has_bit(
                    pieces0,
                    m.from_n(),
                ) && ((m.from_n() < nf && has_bit(
                    piece_targets(*pos, us, pt, target, checks, m.from_n()),
                    m.to_n(),
                )) || (m.from_n() == f && m.to_n() < tt + 1 && has_bit(targets, m.to_n())))) by {
                    if m.raw_spec() < 4096 && m.from_n() == f && m.to_n() == tt {
                        lemma_move_eq(m, mv);
                        assert(sub_new[sub_new.len() - 1] == mv);
                    }
                    if sub_new.contains(m) {
                        let k = choose|k: int| 0 <= k < sub_new.len() && sub_new[k] == m;
                        if k < sub_old.len() {
                            assert(sub_old.contains(m));
                        }
                    }
                    if sub_old.contains(m) {
                        let k = choose|k: int| 0 <= k < sub_old.len() && sub_old[k] == m;
                        assert(sub_new[k] == m);
                    }
                    if m.from_n() == f && m.to_n() < tt && has_bit(targets, m.to_n()) && m.raw_spec() < 4096 {
                        assert(has_bit(before_b, m.to_n()) || m.to_n() < nt);
                    }
                    if m.from_n() == f && nt <= m.to_n() < tt {
                        assert(!has_bit(before_b, m.to_n()));
                    }
                }
                nt = tt + 1;
                assert forall|i: int| 0 <= i < 64 implies (#[trigger] has_bit(b, i) <==> (has_bit(targets, i) && i >= nt)) by {
                    if i != tt {
                        assert(has_bit(b, i) == has_bit(before_b, i));
                    }
                    if nt - 1 > i && i >= 0 && has_bit(targets, i) && i >= nt - 1 {
                    }
                }
            }
        }
        proof {
            nf = f + 1;
            assert forall|i: int| 0 <= i < 64 implies (#[trigger] has_bit(bb, i) <==> (has_bit(pieces0, i) && i >= nf)) by {
                if i != f {
                    assert(has_bit(bb, i) == has_bit(before, i));
                }
            }
            assert forall|i: int| 0 <= i < 64 && has_bit(targets, i) implies i < nt by {
                assert(!has_bit(b, i)) by {
                    lemma_zero_has_no_bit(i);
                }
            }
        }
    }
    proof {
        assert forall|i: int| nf <= i < 64 implies !has_bit(pieces0, i) by {
            assert(!has_bit(bb, i)) by {
                lemma_zero_has_no_bit(i);
            }
        }
    }
}

/// A set bit of a one-square set shifted with an edge mask comes from that
/// square, and the same shift of a set holding the square has it too.
proof fn lemma_diag_shift(p: u64, msk: u64, f: int, t: int, k: u64)
    requires
        0 <= f < 64,
        0 <= t < 64,
        1 <= k < 16,
        has_bit(p, f),
    ensures
        has_bit(((1u64 << (f as u64)) & !msk) << k, t) ==> t == f + k && has_bit((p & !msk) << k, t),
        has_bit(((1u64 << (f as u64)) & !msk) >> k, t) ==> f == t + k && has_bit((p & !msk) >> k, t),
{
    let ff = f as u64;
    let tt = t as u64;
    assert(((((((1u64 << ff) & !msk) << k) >> tt) & 1u64 == 1u64) ==> (ff + k == tt && ((((p & !msk)
        << k) >> tt) & 1u64 == 1u64))) && ((((((1u64 << ff) & !msk) >> k) >> tt) & 1u64 == 1u64) ==> (
    tt + k == ff && ((((p & !msk) >> k) >> tt) & 1u64 == 1u64)))) by (bit_vector)
        requires
            ff < 64,
            tt < 64,
            1 <= k < 16,
            (p >> ff) & 1u64 == 1u64,
    ;
}

/// The square in front of the en-passant square (where the double-pushed
/// pawn stands) is in `target`: in check, an en-passant capture is then not
/// generated.
pub open spec fn ep_blocks(pos: Position, us: Color, target: u64) -> bool {
    let a = pos.state().ep_square.idx() + pawn_push_n(us);
    0 <= a < 64 && has_bit(target, a)
}

/// Where a set bit of a shifted set comes from, and the one-square form of a
/// masked diagonal step.
proof fn lemma_shift_source(p: u64, msk: u64, t: int, k: u64)
    requires
        0 <= t < 64,
        1 <= k < 17,
    ensures
        has_bit(p << k, t) ==> t >= k && has_bit(p, t - k),
        has_bit(p >> k, t) ==> t + k < 64 && has_bit(p, t + k),
        has_bit((p & !msk) << k, t) ==> t >= k && has_bit(p, t - k) && !has_bit(msk, t - k)
            && has_bit(((1u64 << ((t - k) as u64)) & !msk) << k, t),
        has_bit((p & !msk) >> k, t) ==> t + k < 64 && has_bit(p, t + k) && !has_bit(msk, t + k)
            && has_bit(((1u64 << ((t + k) as u64)) & !msk) >> k, t),
{
    let tt = t as u64;
    let dn = if tt >= k {
        (tt - k) as u64
    } else {
        0u64
    };
    let up = (tt + k) as u64;
    assert((((p << k) >> tt) & 1u64 == 1u64 ==> tt >= k && (p >> dn) & 1u64 == 1u64) && (((p >> k)
        >> tt) & 1u64 == 1u64 ==> up < 64 && (p >> up) & 1u64 == 1u64) && ((((p & !msk) << k) >> tt)
        & 1u64 == 1u64 ==> tt >= k && (p >> dn) & 1u64 == 1u64 && !((msk >> dn) & 1u64 == 1u64) && ((((
    1u64 << dn) & !msk) << k) >> tt) & 1u64 == 1u64) && ((((p & !msk) >> k) >> tt) & 1u64 == 1u64
        ==> up < 64 && (p >> up) & 1u64 == 1u64 && !((msk >> up) & 1u64 == 1u64) && ((((1u64 << up)
        & !msk) >> k) >> tt) & 1u64 == 1u64)) by (bit_vector)
        requires
            tt < 64,
            1 <= k < 17,
            tt >= k ==> dn == tt - k,
            up == tt + k,
    ;
}

/// Order of the promotion piece types in which they are emitted.
pub open spec fn promo_idx(pt: PieceType) -> int {
    match pt {
        PieceType::Queen => 0,
        PieceType::Rook => 1,
        PieceType::Bishop => 2,
        _ => 3,
    }
}

/// A rank that the pawn generator's output follows strictly: by kind of
/// move (single push, double push, promotion by right capture, left capture
/// and push, right capture, left capture, en passant), then by destination
/// (origin for en passant) and promotion piece.
pub open spec fn pawn_rank(us: Color, m: Move) -> int {
    let d = m.to_n() - m.from_n();
    let p = pawn_push_n(us);
    let ur = if us == Color::White {
        9int
    } else {
        -9int
    };
    let ul = if us == Color::White {
        7int
    } else {
        -7int
    };
    match m.mtype() {
        MoveType::Normal => if d == p {
            m.to_n()
        } else if d == 2 * p {
            1000 + m.to_n()
        } else if d == ur {
            5000 + m.to_n()
        } else {
            6000 + m.to_n()
        },
        MoveType::Promotion => (if d == ur {
            2000int
        } else if d == ul {
            3000int
        } else {
            4000int
        }) + m.to_n() * 4 + promo_idx(m.promo_type()),
        _ => 7000 + m.from_n(),
    }
}

/// Move `m` is one of the pawn moves of `us` that `generate_pawn_moves`
/// produces for mode `gen_type` and target set `target`: a single or double
/// push, a capture, a promotion by capture or push to one of the piece
/// types the mode selects, or an en-passant capture.
pub open spec fn pawn_move_ok(pos: Position, us: Color, gen_type: GenType, target: u64, m: Move) -> bool {
    let f = m.from_n();
    let t = m.to_n();
    let occ = pos.type_sets()[0];
    let push = pawn_push_n(us);
    let p7 = pos.pieces_spec(us, PieceType::Pawn) & rank7_of(us);
    let caps = gen_type == GenType::Captures || gen_type == GenType::Evasions || gen_type
        == GenType::NonEvasions;
    let tgt = gen_type == GenType::Evasions ==> has_bit(target, t);
    ||| (gen_type != GenType::Captures && m.raw_spec() < 4096 && has_bit(pushable_pawns(pos, us), f)
        && t == f + push && !has_bit(occ, t) && tgt)
    ||| (gen_type != GenType::Captures && m.raw_spec() < 4096 && has_bit(pushable_pawns(pos, us), f)
        && !has_bit(occ, f + push) && has_bit(rank3_of(us), f + push) && t == f + 2 * push
        && !has_bit(occ, t) && tgt)
    ||| (caps && m.raw_spec() < 4096 && has_bit(pushable_pawns(pos, us), f) && has_bit(
        pawn_attacks_spec(bit(f), us),
        t,
    ) && has_bit(pawn_enemies(pos, us, gen_type), t))
    ||| (m.mtype() == MoveType::Promotion && has_bit(p7, f) && has_bit(
        pawn_attacks_spec(bit(f), us),
        t,
    ) && has_bit(pawn_enemies(pos, us, gen_type), t) && promotion_types(gen_type, true).contains(
        m.promo_type(),
    ))
    ||| (m.mtype() == MoveType::Promotion && has_bit(p7, f) && t == f + push && !has_bit(occ, t)
        && tgt && promotion_types(gen_type, false).contains(m.promo_type()))
    ||| (caps && m.mtype() == MoveType::EnPassant && pos.state().ep_square != Square::SqNone && !(
    gen_type == GenType::Evasions && ep_blocks(pos, us, target)) && t
        == pos.state().ep_square.idx() && has_bit(pushable_pawns(pos, us), f) && has_bit(
        pawn_attacks_spec(bit(t), us.flip()),
        f,
    ))
}

/// The first `n0` moves of `s` aside, every move is a pawn move of the mode,
/// ranks strictly increase, and all ranks are below `bound`.
pub open spec fn pawn_list_good(
    s: Seq<Move>,
    n0: int,
    pos: Position,
    us: Color,
    gen_type: GenType,
    target: u64,
    bound: int,
) -> bool {
    &&& forall|j: int|
        n0 <= j < s.len() ==> pawn_move_ok(pos, us, gen_type, target, #[trigger] s[j]) && pawn_rank(
            us,
            s[j],
        ) < bound
    &&& forall|i: int, j: int|
        n0 <= i < j < s.len() ==> pawn_rank(us, #[trigger] s[i]) < pawn_rank(us, #[trigger] s[j])
}

/// The moves appended from `s_old` to `s_new` are pawn moves of the mode with
/// strictly increasing ranks in `[lo, hi)`.
pub open spec fn pawn_segment_good(
    s_old: Seq<Move>,
    s_new: Seq<Move>,
    pos: Position,
    us: Color,
    gen_type: GenType,
    target: u64,
    lo: int,
    hi: int,
) -> bool {
    &&& forall|j: int|
        s_old.len() <= j < s_new.len() ==> pawn_move_ok(pos, us, gen_type, target, #[trigger] s_new[j])
            && lo <= pawn_rank(us, s_new[j]) < hi
    &&& forall|i: int, j: int|
        s_old.len() <= i < j < s_new.len() ==> pawn_rank(us, #[trigger] s_new[i]) < pawn_rank(
            us,
            #[trigger] s_new[j],
        )
}

proof fn lemma_pawn_list_extend(
    s_old: Seq<Move>,
    s_new: Seq<Move>,
    n0: int,
    pos: Position,
    us: Color,
    gen_type: GenType,
    target: u64,
    bound: int,
    lo: int,
    hi: int,
)
    requires
        extends(s_new, s_old),
        0 <= n0 <= s_old.len(),
        pawn_list_good(s_old, n0, pos, us, gen_type, target, bound),
        bound <= lo <= hi,
        pawn_segment_good(s_old, s_new, pos, us, gen_type, target, lo, hi),
    ensures
        pawn_list_good(s_new, n0, pos, us, gen_type, target, hi),
{
    assert forall|j: int| n0 <= j < s_new.len() implies pawn_move_ok(pos, us, gen_type, target, #[trigger] s_new[j])
        && pawn_rank(us, s_new[j]) < hi by {
        if j < s_old.len() {
            assert(s_new[j] == s_old[j]);
        }
    }
    assert forall|i: int, j: int| n0 <= i < j < s_new.len() implies pawn_rank(us, #[trigger] s_new[i])
        < pawn_rank(us, #[trigger] s_new[j]) by {
        if j < s_old.len() {
            assert(s_new[j] == s_old[j] && s_new[i] == s_old[i]);
        } else if i < s_old.len() {
            assert(s_new[i] == s_old[i]);
        }
    }
}

/// The direction in which pawns of `us` advance.
pub open spec fn up_dir(us: Color) -> Direction {
    if us == Color::White {
        Direction::North
    } else {
        Direction::South
    }
}

pub open spec fn up_right_dir(us: Color) -> Direction {
    if us == Color::White {
        Direction::NorthEast
    } else {
        Direction::SouthWest
    }
}

pub open spec fn up_left_dir(us: Color) -> Direction {
    if us == Color::White {
        Direction::NorthWest
    } else {
        Direction::SouthEast
    }
}

/// A pawn of `p` reaching `t` by the step `d` of `us` started from `t - d`,
/// and for a diagonal step `t` is among the pawn attacks from there.
proof fn lemma_pawn_source(p: u64, us: Color, d: Direction, t: int)
    requires
        0 <= t < 64,
        d == up_dir(us) || d == up_right_dir(us) || d == up_left_dir(us),
        has_bit(shift_spec(p, d), t),
    ensures
        0 <= t - d.num() < 64,
        has_bit(p, t - d.num()),
        d != up_dir(us) ==> has_bit(pawn_attacks_spec(bit(t - d.num()), us), t),
{
    lemma_shift_source(p, FILEH_BB, t, 8);
    lemma_shift_source(p, FILEH_BB, t, 9);
    lemma_shift_source(p, FILEA_BB, t, 9);
    lemma_shift_source(p, FILEH_BB, t, 7);
    lemma_shift_source(p, FILEA_BB, t, 7);
    if d != up_dir(us) {
        let f = t - d.num();
        let one = bit(f);
        lemma_pawn_bits(shift_spec(one, up_left_dir(us)), shift_spec(one, up_right_dir(us)), t);
        lemma_pawn_bits(shift_spec(one, up_right_dir(us)), shift_spec(one, up_left_dir(us)), t);
    }
}

/// What `push_pawn_steps` promises of the moves it appended from `s_old` to `s_new`.
pub open spec fn steps_appended(s_old: Seq<Move>, s_new: Seq<Move>, b: u64, back: int) -> bool {
    &&& extends(s_new, s_old)
    &&& forall|j: int|
        s_old.len() <= j < s_new.len() ==> {
            let m = #[trigger] s_new[j];
            &&& m.raw_spec() < 4096
            &&& m.mtype() == MoveType::Normal
            &&& has_bit(b, m.to_n())
            &&& m.from_n() == m.to_n() - back
        }
    &&& forall|i: int, j: int|
        s_old.len() <= i < j < s_new.len() ==> (#[trigger] s_new[i]).to_n() < (#[trigger] s_new[j]).to_n()
}

/// What `promote_all` promises of the moves it appended from `s_old` to `s_new`.
pub open spec fn promotions_appended(
    s_old: Seq<Move>,
    s_new: Seq<Move>,
    b: u64,
    d: Direction,
    types: Seq<PieceType>,
) -> bool {
    &&& extends(s_new, s_old)
    &&& forall|j: int|
        s_old.len() <= j < s_new.len() ==> {
            let m = #[trigger] s_new[j];
            &&& m.mtype() == MoveType::Promotion
            &&& has_bit(b, m.to_n())
            &&& m.from_n() == m.to_n() - d.num()
            &&& types.contains(m.promo_type())
        }
    &&& forall|i: int, j: int|
        s_old.len() <= i < j < s_new.len() ==> (#[trigger] s_new[i]).to_n() * 4 + promo_idx(
            s_new[i].promo_type(),
        ) < (#[trigger] s_new[j]).to_n() * 4 + promo_idx(s_new[j].promo_type())
}

proof fn lemma_seg_push(
    pos: Position,
    us: Color,
    gen_type: GenType,
    target: u64,
    s_old: Seq<Move>,
    s_new: Seq<Move>,
    b: u64,
    p: u64,
    e: u64,
    double: bool,
)
    requires
        gen_type != GenType::Captures,
        p == pushable_pawns(pos, us),
        e == !pos.type_sets()[0],
        ({
            let c1 = shift_spec(p, up_dir(us)) & e;
            let raw = if double {
                shift_spec(c1 & rank3_of(us), up_dir(us)) & e
            } else {
                c1
            };
            b == if gen_type == GenType::Evasions {
                raw & target
            } else {
                raw
            }
        }),
        steps_appended(
            s_old,
            s_new,
            b,
            if double {
                2 * up_dir(us).num()
            } else {
                up_dir(us).num()
            },
        ),
    ensures
        pawn_segment_good(
            s_old,
            s_new,
            pos,
            us,
            gen_type,
            target,
            if double {
                1000int
            } else {
                0int
            },
            if double {
                2000int
            } else {
                1000int
            },
        ),
{
    let up = up_dir(us);
    let c1 = shift_spec(p, up) & e;
    let occ = pos.type_sets()[0];
    assert forall|j: int| s_old.len() <= j < s_new.len() implies pawn_move_ok(
        pos,
        us,
        gen_type,
        target,
        #[trigger] s_new[j],
    ) && (if double {
        1000int
    } else {
        0int
    }) <= pawn_rank(us, s_new[j]) < (if double {
        2000int
    } else {
        1000int
    }) by {
        let m = s_new[j];
        let t = m.to_n();
        let raw = if double {
            shift_spec(c1 & rank3_of(us), up) & e
        } else {
            c1
        };
        lemma_pawn_bits(raw, target, t);
        lemma_pawn_bits(shift_spec(if double {
            c1 & rank3_of(us)
        } else {
            p
        }, up), e, t);
        lemma_not_bit(occ, t);
        if double {
            lemma_pawn_source(c1 & rank3_of(us), us, up, t);
            let mid = t - up.num();
            lemma_pawn_bits(c1, rank3_of(us), mid);
            lemma_pawn_bits(shift_spec(p, up), e, mid);
            lemma_pawn_source(p, us, up, mid);
            lemma_not_bit(occ, mid);
        } else {
            lemma_pawn_source(p, us, up, t);
        }
    }
}

proof fn lemma_seg_diag(
    pos: Position,
    us: Color,
    gen_type: GenType,
    target: u64,
    s_old: Seq<Move>,
    s_new: Seq<Move>,
    b: u64,
    p: u64,
    enemies: u64,
    right: bool,
)
    requires
        gen_type == GenType::Captures || gen_type == GenType::Evasions || gen_type == GenType::NonEvasions,
        p == pushable_pawns(pos, us),
        enemies == pawn_enemies(pos, us, gen_type),
        b == shift_spec(
            p,
            if right {
                up_right_dir(us)
            } else {
                up_left_dir(us)
            },
        ) & enemies,
        steps_appended(
            s_old,
            s_new,
            b,
            if right {
                up_right_dir(us).num()
            } else {
                up_left_dir(us).num()
            },
        ),
    ensures
        pawn_segment_good(
            s_old,
            s_new,
            pos,
            us,
            gen_type,
            target,
            if right {
                5000int
            } else {
                6000int
            },
            if right {
                6000int
            } else {
                7000int
            },
        ),
{
    let d = if right {
        up_right_dir(us)
    } else {
        up_left_dir(us)
    };
    assert forall|j: int| s_old.len() <= j < s_new.len() implies pawn_move_ok(
        pos,
        us,
        gen_type,
        target,
        #[trigger] s_new[j],
    ) && (if right {
        5000int
    } else {
        6000int
    }) <= pawn_rank(us, s_new[j]) < (if right {
        6000int
    } else {
        7000int
    }) by {
        let t = s_new[j].to_n();
        lemma_pawn_bits(shift_spec(p, d), enemies, t);
        lemma_pawn_source(p, us, d, t);
    }
}

proof fn lemma_seg_promo(
    pos: Position,
    us: Color,
    gen_type: GenType,
    target: u64,
    s_old: Seq<Move>,
    s_new: Seq<Move>,
    b: u64,
    p7: u64,
    x: u64,
    kind: int,
)
    requires
        0 <= kind < 3,
        p7 == pos.pieces_spec(us, PieceType::Pawn) & rank7_of(us),
        kind < 2 ==> x == pawn_enemies(pos, us, gen_type),
        kind == 2 ==> x == !pos.type_sets()[0],
        ({
            let d = if kind == 0 {
                up_right_dir(us)
            } else if kind == 1 {
                up_left_dir(us)
            } else {
                up_dir(us)
            };
            let raw = shift_spec(p7, d) & x;
            &&& b == if kind == 2 && gen_type == GenType::Evasions {
                raw & target
            } else {
                raw
            }
            &&& promotions_appended(s_old, s_new, b, d, promotion_types(gen_type, kind < 2))
        }),
    ensures
        pawn_segment_good(s_old, s_new, pos, us, gen_type, target, 2000 + kind * 1000, 3000 + kind * 1000),
{
    let d = if kind == 0 {
        up_right_dir(us)
    } else if kind == 1 {
        up_left_dir(us)
    } else {
        up_dir(us)
    };
    let raw = shift_spec(p7, d) & x;
    assert forall|j: int| s_old.len() <= j < s_new.len() implies pawn_move_ok(
        pos,
        us,
        gen_type,
        target,
        #[trigger] s_new[j],
    ) && 2000 + kind * 1000 <= pawn_rank(us, s_new[j]) < 3000 + kind * 1000 by {
        let t = s_new[j].to_n();
        lemma_pawn_bits(raw, target, t);
        lemma_pawn_bits(shift_spec(p7, d), x, t);
        lemma_pawn_source(p7, us, d, t);
        lemma_not_bit(pos.type_sets()[0], t);
    }
}

/// The pawn moves of `us` for mode `gen_type` and target set `target` all
/// appear in `s` from position `lo` on: pushes, double pushes, captures,
/// en-passant captures and promotions to every piece type the mode selects.
pub open spec fn pawn_moves_listed(
    s: Seq<Move>,
    lo: int,
    pos: Position,
    us: Color,
    gen_type: GenType,
    target: u64,
) -> bool {
    &&& (gen_type != GenType::Captures ==> forall|m: Move|
        m.raw_spec() < 4096 && has_bit(pushable_pawns(pos, us), m.from_n()) && m.to_n()
            == m.from_n() + pawn_push_n(us) && !has_bit(pos.type_sets()[0], m.to_n()) && (gen_type
            == GenType::Evasions ==> has_bit(target, m.to_n())) ==> #[trigger] s.subrange(lo, s.len() as int).contains(m))
    &&& (gen_type != GenType::Captures ==> forall|m: Move|
        m.raw_spec() < 4096 && has_bit(pushable_pawns(pos, us), m.from_n()) && !has_bit(
            pos.type_sets()[0],
            m.from_n() + pawn_push_n(us),
        ) && has_bit(rank3_of(us), m.from_n() + pawn_push_n(us)) && m.to_n() == m.from_n() + 2
            * pawn_push_n(us) && !has_bit(pos.type_sets()[0], m.to_n()) && (gen_type
            == GenType::Evasions ==> has_bit(target, m.to_n())) ==> #[trigger] s.subrange(lo, s.len() as int).contains(m))
    &&& ((gen_type == GenType::Captures || gen_type == GenType::Evasions || gen_type
        == GenType::NonEvasions) ==> forall|m: Move|
        m.raw_spec() < 4096 && has_bit(pushable_pawns(pos, us), m.from_n()) && has_bit(
            pawn_attacks_spec(bit(m.from_n()), us),
            m.to_n(),
        ) && has_bit(pawn_enemies(pos, us, gen_type), m.to_n()) ==> #[trigger] s.subrange(lo, s.len() as int).contains(m))
    &&& ((gen_type == GenType::Captures || gen_type == GenType::Evasions || gen_type
        == GenType::NonEvasions) && pos.state().ep_square != Square::SqNone && !(gen_type
        == GenType::Evasions && ep_blocks(pos, us, target)) ==> forall|f: int|
        0 <= f < 64 && has_bit(pushable_pawns(pos, us), f) && has_bit(
            pawn_attacks_spec(bit(pos.state().ep_square.idx()), us.flip()),
            f,
        ) ==> exists|j: int|
            lo <= j < s.len() && (
            #[trigger] s[j]).mtype() == MoveType::EnPassant && s[j].from_n() == f
                && s[j].to_n() == pos.state().ep_square.idx())
    &&& (forall|f: int, to: int, j: int|
        has_bit(pos.pieces_spec(us, PieceType::Pawn) & rank7_of(us), f) && has_bit(
            pawn_attacks_spec(bit(f), us),
            to,
        ) && has_bit(pawn_enemies(pos, us, gen_type), to) && 0 <= j < promotion_types(
            gen_type,
            true,
        ).len() ==> #[trigger] has_promotion(
            s,
            lo,
            f,
            to,
            promotion_types(gen_type, true)[j],
        ))
    &&& (forall|f: int, to: int, j: int|
        has_bit(pos.pieces_spec(us, PieceType::Pawn) & rank7_of(us), f) && to == f + pawn_push_n(
            us,
        ) && 0 <= to < 64 && !has_bit(pos.type_sets()[0], to) && (gen_type == GenType::Evasions ==> has_bit(
            target,
            to,
        )) && 0 <= j < promotion_types(gen_type, false).len() ==> #[trigger] has_promotion(
            s,
            lo,
            f,
            to,
            promotion_types(gen_type, false)[j],
        ))
}

proof fn lemma_pawn_listed_mono(
    a: Seq<Move>,
    b: Seq<Move>,
    lo: int,
    n0: int,
    pos: Position,
    us: Color,
    gen_type: GenType,
    target: u64,
)
    requires
        extends(a, b),
        0 <= n0 <= lo <= b.len(),
        pawn_moves_listed(b, lo, pos, us, gen_type, target),
    ensures
        pawn_moves_listed(a, n0, pos, us, gen_type, target),
{
    assert forall|m: Move| b.subrange(lo, b.len() as int).contains(m) implies #[trigger] a.subrange(
        n0,
        a.len() as int,
    ).contains(m) by {
        lemma_contains_mono(a, b, lo, b.len() as int, n0, m);
    }
    assert forall|f: int, to: int, pt: PieceType| has_promotion(b, lo, f, to, pt) implies #[trigger] has_promotion(
        a,
        n0,
        f,
        to,
        pt,
    ) by {
        lemma_promotion_mono(a, b, lo, n0, f, to, pt);
    }
    if (gen_type == GenType::Captures || gen_type == GenType::Evasions || gen_type
        == GenType::NonEvasions) && pos.state().ep_square != Square::SqNone && !(gen_type
        == GenType::Evasions && ep_blocks(pos, us, target)) {
        let ep = pos.state().ep_square.idx();
        assert forall|f: int|
            0 <= f < 64 && has_bit(pushable_pawns(pos, us), f) && has_bit(
                pawn_attacks_spec(bit(ep), us.flip()),
                f,
            ) implies exists|j: int|
            n0 <= j < a.len() && (#[trigger] a[j]).mtype() == MoveType::EnPassant && a[j].from_n() == f
                && a[j].to_n() == ep by {
            let j = choose|j: int|
                lo <= j < b.len() && (#[trigger] b[j]).mtype() == MoveType::EnPassant && b[j].from_n() == f
                    && b[j].to_n() == ep;
            assert(a[j] == b[j]);
        }
    }
}

/// The pieces that pawns of `us` may capture in mode `gen_type`.
pub open spec fn pawn_enemies(pos: Position, us: Color, gen_type: GenType) -> u64 {
    if gen_type == GenType::Evasions {
        pos.state().checkers_bb
    } else {
        pos.color_sets()[us.flip().idx()]
    }
}

proof fn lemma_not_bit(x: u64, i: int)
    requires
        0 <= i < 64,
    ensures
        has_bit(!x, i) == !has_bit(x, i),
{
    let j = i as u64;
    assert((((!x) >> j) & 1u64 == 1u64) == !((x >> j) & 1u64 == 1u64)) by (bit_vector)
        requires
            j < 64,
    ;
}

proof fn lemma_zero_has_no_bit(i: int)
    ensures
        !has_bit(0u64, i),
{
    if 0 <= i < 64 {
        let j = i as u64;
        assert((0u64 >> j) & 1u64 == 0u64) by (bit_vector);
    }
}

proof fn lemma_bit_mask(x: u64, i: int)
    requires
        0 <= i < 64,
    ensures
        has_bit(x, i) == (x & (1u64 << (i as u64)) != 0),
{
    let j = i as u64;
    assert(((x >> j) & 1u64 == 1u64) == (x & (1u64 << j) != 0)) by (bit_vector)
        requires
            j < 64,
    ;
}


/// The squares the non-king pieces of `us` may move to in mode `gen_type`:
/// in check, the checker and the squares between it and the king; otherwise
/// every square not held by `us` (non-evasions), the enemy pieces
/// (captures), or the empty squares (quiets).
pub open spec fn mode_target(pos: Position, us: Color, gen_type: GenType) -> u64 {
    let k = pos.king_sq(us);
    let checkers = pos.state().checkers_bb;
    let c = vstd::std_specs::bits::u64_trailing_zeros(checkers) as int;
    match gen_type {
        GenType::Evasions => if k == 64 || checkers == 0 {
            0
        } else {
            between_spec(k, c) | bit(c)
        },
        GenType::NonEvasions => !pos.color_sets()[us.idx()],
        GenType::Captures => pos.color_sets()[us.flip().idx()],
        _ => !pos.type_sets()[0],
    }
}

/// The squares the king of `us` may move to in mode `gen_type`.
pub open spec fn king_target(pos: Position, us: Color, gen_type: GenType) -> u64 {
    match gen_type {
        GenType::Evasions | GenType::NonEvasions => !pos.color_sets()[us.idx()],
        GenType::Captures => pos.color_sets()[us.flip().idx()],
        _ => !pos.type_sets()[0],
    }
}

proof fn lemma_contains_mono(a: Seq<Move>, b: Seq<Move>, lo: int, hi: int, n0: int, m: Move)
    requires
        extends(a, b),
        0 <= n0 <= lo <= hi <= b.len(),
        b.subrange(lo, hi).contains(m),
    ensures
        a.subrange(n0, a.len() as int).contains(m),
{
    let k = choose|k: int| 0 <= k < hi - lo && b.subrange(lo, hi)[k] == m;
    assert(a.subrange(n0, a.len() as int)[lo + k - n0] == m);
}

/// Appends the pseudo-legal moves of `us` of generation type `gen_type`
/// (not `Legal` nor `QuietChecks`): pawn moves, then knight, bishop, rook and
/// queen moves onto `mode_target` (none in double check), then king moves
/// onto `king_target` and, for quiets and non-evasions, castling. Every
/// normal move of a knight, bishop, rook, queen or king of `us` onto its
/// target set is among the appended moves.
pub fn generate_all(
    pos: &Position,
    t: &BitboardTables,
    move_list: &mut MoveList,
    us: Color,
    gen_type: GenType,
)
    requires
        t.wf(),
        pos.board_ok(),
    ensures
        extends(final(move_list).moves(), old(move_list).moves()),
        gen_type != GenType::Evasions || popcount(pos.state().checkers_bb) <= 1 ==> pawn_moves_listed(
            final(move_list).moves(),
            old(move_list).moves().len() as int,
            *pos,
            us,
            gen_type,
            mode_target(*pos, us, gen_type),
        ),
        forall|m: Move, pt: PieceType|
            #![trigger final(move_list).moves().subrange(
                old(move_list).moves().len() as int,
                final(move_list).moves().len() as int,
            ).contains(m), pos.pieces_spec(us, pt)]
            m.raw_spec() < 4096 && (pt == PieceType::Knight || pt == PieceType::Bishop || pt
                == PieceType::Rook || pt == PieceType::Queen) && has_bit(
                pos.pieces_spec(us, pt),
                m.from_n(),
            ) && (gen_type != GenType::Evasions || popcount(pos.state().checkers_bb) <= 1)
                && has_bit(
                piece_targets(*pos, us, pt, mode_target(*pos, us, gen_type), false, m.from_n()),
                m.to_n(),
            ) ==> final(move_list).moves().subrange(
                old(move_list).moves().len() as int,
                final(move_list).moves().len() as int,
            ).contains(m),
        forall|m: Move|
            m.raw_spec() < 4096 && has_bit(pos.pieces_spec(us, PieceType::King), m.from_n())
                && has_bit(
                piece_targets(
                    *pos,
                    us,
                    PieceType::King,
                    king_target(*pos, us, gen_type),
                    false,
                    m.from_n(),
                ),
                m.to_n(),
            ) ==> #[trigger] final(move_list).moves().subrange(
                old(move_list).moves().len() as int,
                final(move_list).moves().len() as int,
            ).contains(m),
{
    let ghost start = move_list.moves();
    let ghost n0 = start.len() as int;
    let ghost mut pawn_seq = start;
    let ghost mut pawn_lo = n0;
    let ksq = pos.square(us, PieceType::King);
    let checkers = pos.checkers();
    let own = pos.pieces_by_color(us);
    if gen_type != GenType::Evasions || !more_than_one(checkers) {
        let target: Bitboard = match gen_type {
            GenType::Evasions => {
                if ksq == Square::SqNone || checkers == 0 {
                    0
                } else {
                    proof {
                        vstd::std_specs::bits::axiom_u64_trailing_zeros(checkers);
                    }
                    let checker = Square::new_from_n(checkers.trailing_zeros() as i32);
                    between_bb(t, ksq, checker) | checker.bb()
                }
            },
            GenType::NonEvasions => !own,
            GenType::Captures => pos.pieces_by_color(us.opposite()),
            _ => !pos.all_pieces(),
        };
        assert(target == mode_target(*pos, us, gen_type));
        let ghost l0 = move_list.moves().len() as int;
        generate_pawn_moves(pos, t, move_list, gen_type, us, target);
        let ghost sp = move_list.moves();
        proof {
            pawn_seq = sp;
            pawn_lo = l0;
        }
        let ghost l1 = move_list.moves().len() as int;
        generate_moves(pos, t, move_list, us, PieceType::Knight, target, false);
        let ghost s1 = move_list.moves();
        generate_moves(pos, t, move_list, us, PieceType::Bishop, target, false);
        let ghost s2 = move_list.moves();
        generate_moves(pos, t, move_list, us, PieceType::Rook, target, false);
        let ghost s3 = move_list.moves();
        generate_moves(pos, t, move_list, us, PieceType::Queen, target, false);
        let ghost s4 = move_list.moves();
        proof {
            assert forall|m: Move, pt: PieceType|
                m.raw_spec() < 4096 && (pt == PieceType::Knight || pt == PieceType::Bishop || pt
                    == PieceType::Rook || pt == PieceType::Queen) && has_bit(
                    pos.pieces_spec(us, pt),
                    m.from_n(),
                ) && has_bit(
                    piece_targets(*pos, us, pt, target, false, m.from_n()),
                    m.to_n(),
                ) implies s4.subrange(n0, s4.len() as int).contains(m) by {
                if pt == PieceType::Knight {
                    lemma_contains_mono(s4, s1, l1, s1.len() as int, n0, m);
                } else if pt == PieceType::Bishop {
                    lemma_contains_mono(s4, s2, s1.len() as int, s2.len() as int, n0, m);
                } else if pt == PieceType::Rook {
                    lemma_contains_mono(s4, s3, s2.len() as int, s3.len() as int, n0, m);
                } else {
                    lemma_contains_mono(s4, s4, s3.len() as int, s4.len() as int, n0, m);
                }
            }
        }
    }
    let ghost s5 = move_list.moves();
    if ksq != Square::SqNone {
        let kt = match gen_type {
            GenType::Evasions => !own,
            GenType::NonEvasions => !own,
            GenType::Captures => pos.pieces_by_color(us.opposite()),
            _ => !pos.all_pieces(),
        };
        let ghost l6 = move_list.moves().len() as int;
        generate_moves(pos, t, move_list, us, PieceType::King, kt, false);
        let ghost s6 = move_list.moves();
        if gen_type == GenType::Quiets || gen_type == GenType::NonEvasions {
            let (ks, qs): (usize, usize) = if us == Color::White {
                (1, 2)
            } else {
                (4, 8)
            };
            if pos.can_castle_bits(ks) && !pos.castling_impeded(ks) {
                let rsq = pos.castling_rook_square(ks);
                move_list.push_move(Move::make(MoveType::Castling, ksq, rsq, PieceType::Knight));
            }
            if pos.can_castle_bits(qs) && !pos.castling_impeded(qs) {
                let rsq = pos.castling_rook_square(qs);
                move_list.push_move(Move::make(MoveType::Castling, ksq, rsq, PieceType::Knight));
            }
        }
        let ghost s7 = move_list.moves();
        proof {
            assert(extends(s7, s6));
            assert forall|m: Move|
                m.raw_spec() < 4096 && has_bit(pos.pieces_spec(us, PieceType::King), m.from_n())
                    && has_bit(
                    piece_targets(*pos, us, PieceType::King, kt, false, m.from_n()),
                    m.to_n(),
                ) implies s7.subrange(n0, s7.len() as int).contains(m) by {
                lemma_contains_mono(s7, s6, l6, s6.len() as int, n0, m);
            }
        }
    }
    proof {
        let fin = move_list.moves();
        if gen_type != GenType::Evasions || popcount(pos.state().checkers_bb) <= 1 {
            lemma_pawn_listed_mono(fin, pawn_seq, pawn_lo, n0, *pos, us, gen_type, mode_target(*pos, us, gen_type));
        }
        assert forall|m: Move, pt: PieceType|
            m.raw_spec() < 4096 && (pt == PieceType::Knight || pt == PieceType::Bishop || pt
                == PieceType::Rook || pt == PieceType::Queen) && has_bit(
                pos.pieces_spec(us, pt),
                m.from_n(),
            ) && (gen_type != GenType::Evasions || popcount(pos.state().checkers_bb) <= 1)
                && has_bit(
                piece_targets(*pos, us, pt, mode_target(*pos, us, gen_type), false, m.from_n()),
                m.to_n(),
            ) implies fin.subrange(n0, fin.len() as int).contains(m) by {
            lemma_contains_mono(fin, s5, n0, s5.len() as int, n0, m);
        }
        assert forall|m: Move|
            m.raw_spec() < 4096 && has_bit(pos.pieces_spec(us, PieceType::King), m.from_n())
                && has_bit(
                piece_targets(
                    *pos,
                    us,
                    PieceType::King,
                    king_target(*pos, us, gen_type),
                    false,
                    m.from_n(),
                ),
                m.to_n(),
            ) implies fin.subrange(n0, fin.len() as int).contains(m) by {
            if ksq == Square::SqNone {
                assert(pos.pieces_spec(us, PieceType::King) == 0);
                lemma_zero_has_no_bit(m.from_n());
            }
        }
    }
}

/// The pseudo-legal generation mode that generation mode `gen_type` filters.
pub open spec fn base_mode(pos: Position, gen_type: GenType) -> GenType {
    match gen_type {
        GenType::Legal => if pos.state().checkers_bb != 0 {
            GenType::Evasions
        } else {
            GenType::NonEvasions
        },
        GenType::QuietChecks => GenType::Quiets,
        _ => gen_type,
    }
}

/// Move `m` is a normal move of a knight, bishop, rook, queen or king of the
/// side to move onto its target set in mode `g` (see `generate_all`).
pub open spec fn piece_move_in_mode(pos: Position, g: GenType, m: Move) -> bool {
    let us = pos.side();
    let f = m.from_n();
    let by_piece = exists|pt: PieceType|
        (pt == PieceType::Knight || pt == PieceType::Bishop || pt == PieceType::Rook || pt
            == PieceType::Queen) && #[trigger] has_bit(pos.pieces_spec(us, pt), f) && (g
            != GenType::Evasions || popcount(pos.state().checkers_bb) <= 1) && has_bit(
            piece_targets(pos, us, pt, mode_target(pos, us, g), false, f),
            m.to_n(),
        );
    let by_king = has_bit(pos.pieces_spec(us, PieceType::King), f) && has_bit(
        piece_targets(pos, us, PieceType::King, king_target(pos, us, g), false, f),
        m.to_n(),
    );
    m.raw_spec() < 4096 && (by_piece || by_king)
}

proof fn lemma_piece_moves_listed(pos: Position, g: GenType, s: Seq<Move>)
    requires
        forall|m: Move, pt: PieceType|
            #![trigger s.contains(m), pos.pieces_spec(pos.side(), pt)]
            m.raw_spec() < 4096 && (pt == PieceType::Knight || pt == PieceType::Bishop || pt
                == PieceType::Rook || pt == PieceType::Queen) && has_bit(
                pos.pieces_spec(pos.side(), pt),
                m.from_n(),
            ) && (g != GenType::Evasions || popcount(pos.state().checkers_bb) <= 1) && has_bit(
                piece_targets(pos, pos.side(), pt, mode_target(pos, pos.side(), g), false, m.from_n()),
                m.to_n(),
            ) ==> s.contains(m),
        forall|m: Move|
            m.raw_spec() < 4096 && has_bit(pos.pieces_spec(pos.side(), PieceType::King), m.from_n())
                && has_bit(
                piece_targets(
                    pos,
                    pos.side(),
                    PieceType::King,
                    king_target(pos, pos.side(), g),
                    false,
                    m.from_n(),
                ),
                m.to_n(),
            ) ==> #[trigger] s.contains(m),
    ensures
        forall|m: Move| piece_move_in_mode(pos, g, m) ==> #[trigger] s.contains(m),
{
}

/// Whether mode `gen_type` keeps move `m` of its base mode.
pub open spec fn kept(pos: Position, gen_type: GenType, m: Move) -> bool {
    &&& move_shape_ok(pos.board_spec(), m, pos.side())
    &&& gen_type == GenType::Legal ==> pos.legal_spec(m)
    &&& gen_type == GenType::QuietChecks ==> pos.gives_check_spec(m)
}

/// The moves of the side to move of generation type `gen_type`: those of the
/// base mode (`Evasions` or `NonEvasions` for `Legal`, `Quiets` for
/// `QuietChecks`) that can be handed to `do_move`, and for `Legal` that
/// `legal` accepts, for `QuietChecks` that give check. Every move returned
/// is kept, and every knight, bishop, rook, queen or king move of the base
/// mode that is kept is returned.
pub fn generate(pos: &Position, t: &BitboardTables, gen_type: GenType) -> (r: MoveList)
    requires
        t.wf(),
        pos.board_ok(),
    ensures
        forall|i: int| 0 <= i < r.moves().len() ==> kept(*pos, gen_type, #[trigger] r.moves()[i]),
        forall|i: int|
            0 <= i < r.moves().len() ==> move_shape_ok(pos.board_spec(), #[trigger] r.moves()[i], pos.side()),
        forall|m: Move|
            piece_move_in_mode(*pos, base_mode(*pos, gen_type), m) && kept(*pos, gen_type, m)
                ==> #[trigger] r.moves().contains(m),
{
    let us = pos.side_to_move();
    let base = match gen_type {
        GenType::Legal => if pos.checkers() != 0 {
            GenType::Evasions
        } else {
            GenType::NonEvasions
        },
        GenType::QuietChecks => GenType::Quiets,
        _ => gen_type,
    };
    assert(base == base_mode(*pos, gen_type));
    let mut all = MoveList::new();
    generate_all(pos, t, &mut all, us, base);
    proof {
        assert(all.moves().subrange(0, all.moves().len() as int) =~= all.moves());
        lemma_piece_moves_listed(*pos, base, all.moves());
    }
    let mut list = MoveList::new();
    let mut i: usize = 0;
    while i < all.len()
        invariant
            t.wf(),
            pos.board_ok(),
            i <= all.moves().len(),
            forall|m: Move|
                piece_move_in_mode(*pos, base_mode(*pos, gen_type), m) ==> #[trigger] all.moves().contains(m),
            forall|j: int| 0 <= j < list.moves().len() ==> kept(*pos, gen_type, #[trigger] list.moves()[j]),
            forall|j: int|
                0 <= j < i ==> kept(*pos, gen_type, #[trigger] all.moves()[j]) ==> list.moves().contains(
                    all.moves()[j],
                ),
        decreases all.moves().len() - i,
    {
        let m = all.get(i);
        let ghost prev = list.moves();
        let mut keep = false;
        if pos.is_shape_ok(m) {
            keep = match gen_type {
                GenType::Legal => pos.legal(t, m),
                GenType::QuietChecks => pos.gives_check(t, m),
                _ => true,
            };
        }
        assert(keep == kept(*pos, gen_type, m));
        if keep {
            list.push_move(m);
        }
        proof {
            assert forall|j: int|
                0 <= j < i + 1 && kept(*pos, gen_type, #[trigger] all.moves()[j]) implies list.moves().contains(
                all.moves()[j],
            ) by {
                if j < i {
                    let k = choose|k: int| 0 <= k < prev.len() && prev[k] == all.moves()[j];
                    assert(list.moves()[k] == all.moves()[j]);
                } else {
                    assert(list.moves()[list.moves().len() - 1] == m);
                }
            }
        }
        i += 1;
    }
    proof {
        assert forall|m: Move|
            piece_move_in_mode(*pos, base_mode(*pos, gen_type), m) && kept(*pos, gen_type, m)
                implies #[trigger] list.moves().contains(m) by {
            assert(all.moves().contains(m));
            let k = choose|k: int| 0 <= k < all.moves().len() && all.moves()[k] == m;
            assert(kept(*pos, gen_type, all.moves()[k]));
            assert(0 <= k < i);
            assert(list.moves().contains(all.moves()[k]));
        }
    }
    list
}

/// Number of leaves of the legal-move tree of depth `depth`; the position is
/// left exactly as it was.
pub fn perft(pos: &mut Position, t: &BitboardTables, z: &Zobrist, depth: u32) -> (r: u64)
    requires
        t.wf(),
        old(pos).wf(*z),
        old(pos).history_spec().len() + depth < 0x7000_0000,
        old(pos).ply() + depth < 0x7000_0000,
        old(pos).state().rule_50 + depth < 0x7000_0000,
        old(pos).state().plies_from_null + depth < 0x7000_0000,
    ensures
        final(pos).same_as(*old(pos)),
        final(pos).wf(*z),
        depth == 0 ==> r == 1,
    decreases depth,
{
    if depth == 0 {
        return 1;
    }
    let list = generate(pos, t, GenType::Legal);
    if depth == 1 {
        return list.len() as u64;
    }
    let mut nodes: u64 = 0;
    let mut i: usize = 0;
    let ghost p0 = *pos;
    while i < list.len()
        invariant
            t.wf(),
            pos.wf(*z),
            pos.same_as(p0),
            p0.wf(*z),
            1 < depth,
            p0.history_spec().len() + depth < 0x7000_0000,
            p0.ply() + depth < 0x7000_0000,
            p0.state().rule_50 + depth < 0x7000_0000,
            p0.state().plies_from_null + depth < 0x7000_0000,
            i <= list.moves().len(),
            forall|j: int|
                0 <= j < list.moves().len() ==> move_shape_ok(p0.board_spec(), #[trigger] list.moves()[j], p0.side()),
        decreases list.moves().len() - i,
    {
        let m = list.get(i);
        let ghost before = *pos;
        pos.do_move(t, z, m);
        let ghost after = *pos;
        let n = perft(pos, t, z, depth - 1);
        proof {
            assert(pos.undo_ok(*z, m));
        }
        pos.undo_move(z, m);
        proof {
            crate::position::lemma_do_undo_round_trip(*z, before, after, *pos, m);
        }
        nodes = nodes.saturating_add(n);
        i += 1;
    }
    nodes
}

} // verus!
