use vstd::prelude::*;
use crate::misc::Prng;
use crate::types::{
    Bitboard, Color, Direction, PieceType, Square, make_square, has_bit, FILEA_BB, RANK1_BB,
};

verus! {

pub const FILEB_BB: Bitboard = FILEA_BB << 1u64;

pub const FILEC_BB: Bitboard = FILEA_BB << 2u64;

pub const FILED_BB: Bitboard = FILEA_BB << 3u64;

pub const FILEE_BB: Bitboard = FILEA_BB << 4u64;

pub const FILEF_BB: Bitboard = FILEA_BB << 5u64;

pub const FILEG_BB: Bitboard = FILEA_BB << 6u64;

pub const FILEH_BB: Bitboard = FILEA_BB << 7u64;

pub const RANK2_BB: Bitboard = RANK1_BB << 8u64;

pub const RANK3_BB: Bitboard = RANK1_BB << 16u64;

pub const RANK4_BB: Bitboard = RANK1_BB << 24u64;

pub const RANK5_BB: Bitboard = RANK1_BB << 32u64;

pub const RANK6_BB: Bitboard = RANK1_BB << 40u64;

pub const RANK7_BB: Bitboard = RANK1_BB << 48u64;

pub const RANK8_BB: Bitboard = RANK1_BB << 56u64;

/// The one-square set of square number `s`.
pub open spec fn bit(s: int) -> u64 {
    1u64 << (s as u64)
}

/// Number of set bits.
pub open spec fn popcount(b: u64) -> nat
    decreases b,
{
    if b == 0 {
        0
    } else {
        (b % 2) as nat + popcount(b / 2)
    }
}

pub open spec fn abs(x: int) -> int {
    if x < 0 {
        -x
    } else {
        x
    }
}

/// Chebyshev distance between square numbers `a` and `b`.
pub open spec fn sq_distance(a: int, b: int) -> int {
    let df = abs(a % 8 - b % 8);
    let dr = abs(a / 8 - b / 8);
    if df > dr {
        df
    } else {
        dr
    }
}

/// A step of `d` from square `s` stays on the board without wrapping round an edge.
pub open spec fn step_ok(s: int, d: int) -> bool {
    0 <= s + d < 64 && sq_distance(s, s + d) <= 2
}

/// The one-square set of `s + d` when that step is safe, else the empty set.
pub open spec fn safe_dest(s: int, d: int) -> u64 {
    if step_ok(s, d) {
        bit(s + d)
    } else {
        0
    }
}

/// The squares a slider on `s` reaches in direction `d` within `fuel` steps:
/// up to the edge, or up to and including the first occupied square.
pub open spec fn ray(s: int, d: int, occ: u64, fuel: nat) -> u64
    decreases fuel,
{
    if fuel == 0 || !step_ok(s, d) {
        0
    } else if has_bit(occ, s + d) {
        bit(s + d)
    } else {
        bit(s + d) | ray(s + d, d, occ, (fuel - 1) as nat)
    }
}

/// The brute-force ray-cast attack of a rook (`rook`) or bishop on `s` with occupancy `occ`.
pub open spec fn slide(rook: bool, s: int, occ: u64) -> u64 {
    if rook {
        ray(s, 8, occ, 7) | ray(s, -8, occ, 7) | ray(s, 1, occ, 7) | ray(s, -1, occ, 7)
    } else {
        ray(s, 9, occ, 7) | ray(s, -7, occ, 7) | ray(s, 7, occ, 7) | ray(s, -9, occ, 7)
    }
}

/// Board-edge squares that cannot block a slider on `s`.
pub open spec fn edges(s: int) -> u64 {
    ((RANK1_BB | RANK8_BB) & !(RANK1_BB << ((8 * (s / 8)) as u64))) | ((FILEA_BB | FILEH_BB)
        & !(FILEA_BB << ((s % 8) as u64)))
}

/// The occupancy bits that decide a slider's attack from `s`.
pub open spec fn relevant_mask(rook: bool, s: int) -> u64 {
    slide(rook, s, 0) & !edges(s)
}

/// Attack of a rook or bishop on `s` as the tables give it: the ray-cast attack
/// for the relevant part of `occ`.
pub open spec fn slider_attack(rook: bool, s: int, occ: u64) -> u64 {
    slide(rook, s, occ & relevant_mask(rook, s))
}

pub open spec fn king_steps() -> Seq<int> {
    seq![-9, -8, -7, -1, 1, 7, 8, 9]
}

pub open spec fn knight_steps() -> Seq<int> {
    seq![-17, -15, -10, -6, 6, 10, 15, 17]
}

/// Union of the safe destinations of the first `n` steps of `steps` from `s`.
pub open spec fn step_attack(s: int, steps: Seq<int>, n: nat) -> u64
    decreases n,
{
    if n == 0 {
        0
    } else {
        step_attack(s, steps, (n - 1) as nat) | safe_dest(s, steps[n - 1])
    }
}

/// `b` shifted one step in direction `d`, dropping squares that would wrap round an edge.
pub open spec fn shift_spec(b: u64, d: Direction) -> u64 {
    match d {
        Direction::North => b << 8u64,
        Direction::South => b >> 8u64,
        Direction::East => (b & !FILEH_BB) << 1u64,
        Direction::West => (b & !FILEA_BB) >> 1u64,
        Direction::NorthEast => (b & !FILEH_BB) << 9u64,
        Direction::NorthWest => (b & !FILEA_BB) << 7u64,
        Direction::SouthEast => (b & !FILEH_BB) >> 7u64,
        Direction::SouthWest => (b & !FILEA_BB) >> 9u64,
    }
}

/// The squares attacked by the pawns of color `c` on `b`.
pub open spec fn pawn_attacks_spec(b: u64, c: Color) -> u64 {
    match c {
        Color::White => shift_spec(b, Direction::NorthWest) | shift_spec(b, Direction::NorthEast),
        Color::Black => shift_spec(b, Direction::SouthWest) | shift_spec(b, Direction::SouthEast),
    }
}

/// Empty-board attack of a piece of type `pt` on `s` (pawns excluded).
pub open spec fn pseudo_spec(pt: PieceType, s: int) -> u64 {
    match pt {
        PieceType::King => step_attack(s, king_steps(), 8),
        PieceType::Knight => step_attack(s, knight_steps(), 8),
        PieceType::Bishop => slider_attack(false, s, 0),
        PieceType::Rook => slider_attack(true, s, 0),
        PieceType::Queen => slider_attack(false, s, 0) | slider_attack(true, s, 0),
        _ => 0,
    }
}

/// Attack of a piece of type `pt` on `s` with occupancy `occ` (pawns excluded).
pub open spec fn attacks_spec(pt: PieceType, s: int, occ: u64) -> u64 {
    match pt {
        PieceType::Bishop => slider_attack(false, s, occ),
        PieceType::Rook => slider_attack(true, s, occ),
        PieceType::Queen => slider_attack(false, s, occ) | slider_attack(true, s, occ),
        _ => pseudo_spec(pt, s),
    }
}

/// The full line through `a` and `b` when they share a diagonal or a line, else empty.
pub open spec fn line_spec(a: int, b: int) -> u64 {
    if has_bit(pseudo_spec(PieceType::Rook, a), b) {
        (slider_attack(true, a, 0) & slider_attack(true, b, 0)) | bit(a) | bit(b)
    } else if has_bit(pseudo_spec(PieceType::Bishop, a), b) {
        (slider_attack(false, a, 0) & slider_attack(false, b, 0)) | bit(a) | bit(b)
    } else {
        0
    }
}

/// The squares strictly between `a` and `b` when they share a line or a
/// diagonal; empty when they do not.
pub open spec fn between_spec(a: int, b: int) -> u64 {
    if has_bit(pseudo_spec(PieceType::Rook, a), b) {
        slider_attack(true, a, bit(b)) & slider_attack(true, b, bit(a))
    } else if has_bit(pseudo_spec(PieceType::Bishop, a), b) {
        slider_attack(false, a, bit(b)) & slider_attack(false, b, bit(a))
    } else {
        0
    }
}

/// Relies on `u64::count_ones`: the number of ones in the binary representation.
#[verifier::external_body]
fn count_ones(b: u64) -> (r: u32)
    ensures
        r == popcount(b),
{
    b.count_ones()
}

/// Whether `bb` holds two squares or more.
pub fn more_than_one(bb: Bitboard) -> (r: bool)
    ensures
        r == (popcount(bb) > 1),
{
    count_ones(bb) > 1
}

/// Chebyshev distance between two squares.
pub fn distance(x: Square, y: Square) -> (r: u8)
    requires
        x.is_on_board(),
        y.is_on_board(),
    ensures
        r == sq_distance(x.idx(), y.idx()),
{
    square_distance_n(x.index(), y.index())
}

fn square_distance_n(a: usize, b: usize) -> (r: u8)
    requires
        a < 64,
        b < 64,
    ensures
        r == sq_distance(a as int, b as int),
{
    let fa = (a % 8) as i32;
    let fb = (b % 8) as i32;
    let ra = (a / 8) as i32;
    let rb = (b / 8) as i32;
    let df = if fa > fb {
        fa - fb
    } else {
        fb - fa
    };
    let dr = if ra > rb {
        ra - rb
    } else {
        rb - ra
    };
    if df > dr {
        df as u8
    } else {
        dr as u8
    }
}

/// `b` shifted one step in direction `d`, without wrapping round the board's edges.
pub fn shift(b: Bitboard, d: Direction) -> (r: Bitboard)
    ensures
        r == shift_spec(b, d),
{
    match d {
        Direction::North => b << 8u64,
        Direction::South => b >> 8u64,
        Direction::East => (b & !FILEH_BB) << 1u64,
        Direction::West => (b & !FILEA_BB) >> 1u64,
        Direction::NorthEast => (b & !FILEH_BB) << 9u64,
        Direction::NorthWest => (b & !FILEA_BB) << 7u64,
        Direction::SouthEast => (b & !FILEH_BB) >> 7u64,
        Direction::SouthWest => (b & !FILEA_BB) >> 9u64,
    }
}

/// `b` shifted two ranks forward for the side whose pawns advance in direction `d`.
pub fn shift_twice(b: Bitboard, d: Direction) -> (r: Bitboard)
    ensures
        d == Direction::North ==> r == b << 16u64,
        d == Direction::South ==> r == b >> 16u64,
        d != Direction::North && d != Direction::South ==> r == 0,
{
    match d {
        Direction::North => b << 16u64,
        Direction::South => b >> 16u64,
        _ => 0,
    }
}

/// The squares attacked by pawns of color `c` standing on `bb`.
pub fn pawn_attacks_bb(bb: Bitboard, c: Color) -> (r: Bitboard)
    ensures
        r == pawn_attacks_spec(bb, c),
{
    match c {
        Color::White => shift(bb, Direction::NorthWest) | shift(bb, Direction::NorthEast),
        Color::Black => shift(bb, Direction::SouthWest) | shift(bb, Direction::SouthEast),
    }
}

/// The set of rank `r`.
pub fn rank_bb(r: crate::types::Rank) -> (b: Bitboard)
    ensures
        b == RANK1_BB << ((8 * r.idx()) as u64),
{
    RANK1_BB << (8 * r.index()) as u64
}

/// The set of file `f`.
pub fn file_bb(f: crate::types::File) -> (b: Bitboard)
    ensures
        b == FILEA_BB << (f.idx() as u64),
{
    FILEA_BB << f.index() as u64
}

/// The least significant square of a non-empty set, as a one-square set.
pub fn least_significant_square_bb(bb: Bitboard) -> (r: Bitboard)
    requires
        bb != 0,
    ensures
        r == bb & (!bb).wrapping_add(1),
        r != 0,
        r & bb == r,
{
    let r = bb & (!bb).wrapping_add(1);
    assert(r != 0 && r & bb == r) by (bit_vector)
        requires
            bb != 0,
            r == bb & (!bb).wrapping_add(1),
    ;
    r
}

/// Removes the least significant square of a non-empty set and returns it.
pub fn pop_lsb(bb: &mut Bitboard) -> (r: Square)
    requires
        *old(bb) != 0,
    ensures
        r.is_on_board(),
        has_bit(*old(bb), r.idx()),
        *final(bb) == *old(bb) & (*old(bb) - 1) as u64,
        *final(bb) < *old(bb),
        !has_bit(*final(bb), r.idx()),
        forall|i: int| i != r.idx() ==> (has_bit(*final(bb), i) == has_bit(*old(bb), i)),
        forall|j: int| 0 <= j < r.idx() ==> !has_bit(*old(bb), j),
{
    let b = *bb;
    let t = b.trailing_zeros();
    proof {
        vstd::std_specs::bits::axiom_u64_trailing_zeros(b);
    }
    let n = b & (b - 1);
    let tt = t as u64;
    assert(forall|j: u64| 0 <= j < tt ==> #[trigger] (b >> j) & 1u64 == 0u64);
    proof {
        lemma_clear_lowest(b, tt);
    }
    *bb = n;
    assert forall|j: int| 0 <= j < t implies !has_bit(b, j) by {
        assert((b >> (j as u64)) & 1u64 == 0u64);
    }
    Square::new_from_n(t as i32)
}

proof fn lemma_clear_lowest(b: u64, t: u64)
    requires
        b != 0,
        t < 64,
        (b >> t) & 1u64 == 1u64,
        forall|j: u64| 0 <= j < t ==> #[trigger] (b >> j) & 1u64 == 0u64,
    ensures
        (b & ((b - 1) as u64)) < b,
        (((b & (b - 1) as u64) >> t) & 1u64) == 0u64,
        forall|i: u64|
            i < 64 && i != t ==> #[trigger] (((b & (b - 1) as u64) >> i) & 1u64) == ((b >> i)
                & 1u64),
{
    assert((b & ((b - 1) as u64)) < b) by (bit_vector)
        requires
            b != 0,
    ;
    assert(b & ((1u64 << t) - 1) as u64 == 0) by {
        lemma_low_bits_zero(b, t);
    }
    assert((((b & (b - 1) as u64) >> t) & 1u64) == 0u64) by (bit_vector)
        requires
            b != 0,
            t < 64,
            (b >> t) & 1u64 == 1u64,
            b & ((1u64 << t) - 1) as u64 == 0,
    ;
    assert forall|i: u64| i < 64 && i != t implies #[trigger] (((b & (b - 1) as u64) >> i) & 1u64)
        == ((b >> i) & 1u64) by {
        assert((((b & (b - 1) as u64) >> i) & 1u64) == ((b >> i) & 1u64)) by (bit_vector)
            requires
                b != 0,
                t < 64,
                i < 64,
                i != t,
                (b >> t) & 1u64 == 1u64,
                b & ((1u64 << t) - 1) as u64 == 0,
        ;
    }
}

proof fn lemma_low_bits_zero(b: u64, t: u64)
    requires
        t < 64,
        forall|j: u64| 0 <= j < t ==> #[trigger] (b >> j) & 1u64 == 0u64,
    ensures
        b & ((1u64 << t) - 1) as u64 == 0,
    decreases t,
{
    if t == 0 {
        assert(b & ((1u64 << 0u64) - 1) as u64 == 0) by (bit_vector);
    } else {
        let u = (t - 1) as u64;
        assert forall|j: u64| 0 <= j < u implies #[trigger] (b >> j) & 1u64 == 0u64 by {}
        lemma_low_bits_zero(b, u);
        assert((b >> u) & 1u64 == 0u64);
        assert(b & ((1u64 << t) - 1) as u64 == 0) by (bit_vector)
            requires
                t < 64,
                u == t - 1,
                b & ((1u64 << u) - 1) as u64 == 0,
                (b >> u) & 1u64 == 0u64,
        ;
    }
}

/// The one-square set of `s + step` when that step neither leaves the board nor
/// wraps round an edge, else the empty set.
pub fn safe_destination(s: Square, step: i32) -> (r: Bitboard)
    requires
        s.is_on_board(),
        -64 <= step <= 64,
    ensures
        r == safe_dest(s.idx(), step as int),
{
    let t = s.index() as i32 + step;
    if Square::is_square_valid(t) {
        let d = square_distance_n(s.index(), t as usize);
        if d <= 2 {
            1u64 << (t as u64)
        } else {
            0
        }
    } else {
        0
    }
}

fn ray_attack(s: usize, d: i32, occ: Bitboard, fuel: u32) -> (r: Bitboard)
    requires
        s < 64,
        is_slider_step(d as int),
    ensures
        r == ray(s as int, d as int, occ, fuel as nat),
    decreases fuel,
{
    if fuel == 0 {
        return 0;
    }
    let t = s as i32 + d;
    if !(0 <= t && t < 64) || square_distance_n(s, t as usize) > 2 {
        return 0;
    }
    let b = 1u64 << (t as u64);
    if (occ >> (t as u64)) & 1u64 == 1u64 {
        b
    } else {
        b | ray_attack(t as usize, d, occ, fuel - 1)
    }
}

pub open spec fn is_slider_step(d: int) -> bool {
    d == 8 || d == -8 || d == 1 || d == -1 || d == 9 || d == -9 || d == 7 || d == -7
}

/// Brute-force ray-cast attack of a rook or a bishop (`pt`) on `sq`: in each of the
/// piece's directions up to the edge or up to and including the first occupied square.
pub fn sliding_attack(pt: PieceType, sq: Square, occupied: Bitboard) -> (r: Bitboard)
    requires
        pt == PieceType::Rook || pt == PieceType::Bishop,
        sq.is_on_board(),
    ensures
        r == slide(pt == PieceType::Rook, sq.idx(), occupied),
{
    let s = sq.index();
    if pt == PieceType::Rook {
        ray_attack(s, 8, occupied, 7) | ray_attack(s, -8, occupied, 7) | ray_attack(
            s,
            1,
            occupied,
            7,
        ) | ray_attack(s, -1, occupied, 7)
    } else {
        ray_attack(s, 9, occupied, 7) | ray_attack(s, -7, occupied, 7) | ray_attack(
            s,
            7,
            occupied,
            7,
        ) | ray_attack(s, -9, occupied, 7)
    }
}

/// One square's entry of a magic table: `((occupied & mask) * magic) >> shift`,
/// plus `base`, is the slot of the attack in the piece class's flat table.
/// An entry without `valid` found no magic and is answered by ray-casting.
#[derive(Debug, Clone, Copy)]
pub struct Magic {
    mask: Bitboard,
    magic: Bitboard,
    base: usize,
    shift: u32,
    valid: bool,
}

/// The hash of occupancy `occ` under `mask`, `magic` and `shift`.
pub open spec fn magic_hash(mask: u64, magic: u64, shift: u32, occ: u64) -> int {
    ((occ & mask).wrapping_mul(magic) >> (shift as u64)) as int
}

/// Number of slots that a shift of `shift` addresses.
pub open spec fn region_size(shift: u32) -> int {
    (1u64 << ((64 - shift) as u64)) as int
}

impl Magic {
    pub closed spec fn mask_spec(self) -> u64 {
        self.mask
    }

    pub closed spec fn base_spec(self) -> int {
        self.base as int
    }

    pub closed spec fn valid_spec(self) -> bool {
        self.valid
    }

    pub closed spec fn size(self) -> int {
        region_size(self.shift)
    }

    pub closed spec fn hash(self, occ: u64) -> int {
        magic_hash(self.mask, self.magic, self.shift, occ)
    }

    /// The entry can be indexed: its region fits in memory.
    pub closed spec fn indexable(self) -> bool {
        1 <= self.shift <= 63 && self.base + region_size(self.shift) <= usize::MAX
    }

    /// The entry of a square whose table region is not yet set.
    pub fn default() -> (r: Magic)
        ensures
            r.mask_spec() == 0,
            r.base_spec() == 0,
            !r.valid_spec(),
    {
        Magic { mask: 0, magic: 0, base: 0, shift: 0, valid: false }
    }

    /// The flat-table slot of occupancy `occupied`.
    pub fn index(&self, occupied: Bitboard) -> (r: usize)
        requires
            self.indexable(),
        ensures
            r == self.base_spec() + self.hash(occupied),
            self.hash(occupied) < self.size(),
    {
        let h = (occupied & self.mask).wrapping_mul(self.magic) >> (self.shift as u64);
        proof {
            lemma_shift_bound(occupied & self.mask, self.magic, self.shift as u64);
        }
        self.base + h as usize
    }
}

proof fn lemma_shift_bound(x: u64, m: u64, s: u64)
    requires
        1 <= s <= 63,
    ensures
        (x.wrapping_mul(m) >> s) < (1u64 << ((64 - s) as u64)),
{
    let y = x.wrapping_mul(m);
    assert((y >> s) < (1u64 << ((64 - s) as u64))) by (bit_vector)
        requires
            1 <= s <= 63,
    ;
}

/// The entry of square `s` answers every occupancy with `slider_attack`.
pub closed spec fn magic_ok(m: Magic, table: Seq<u64>, rook: bool, s: int) -> bool {
    &&& m.mask == relevant_mask(rook, s)
    &&& m.valid ==> {
        &&& m.indexable()
        &&& m.shift == 64 - popcount(m.mask)
        &&& m.base + region_size(m.shift) <= table.len()
        &&& forall|c: u64|
            #![trigger m.hash(c)]
            c & m.mask == c ==> table[m.base + m.hash(c)] == slide(rook, s, c)
    }
}

pub closed spec fn magics_ok(magics: Seq<Magic>, table: Seq<u64>, rook: bool) -> bool {
    &&& magics.len() == 64
    &&& forall|s: int| 0 <= s < 64 ==> magic_ok(#[trigger] magics[s], table, rook, s)
    &&& regions_packed(magics, 64)
    &&& bases_ok(magics, table)
}

/// Each square's region starts where the earlier squares' regions end, and
/// the table holds exactly the regions of all 64 squares.
#[verifier::opaque]
pub closed spec fn bases_ok(magics: Seq<Magic>, table: Seq<u64>) -> bool {
    &&& forall|s: int| 0 <= s < 64 ==> (#[trigger] magics[s]).base == region_base(magics, s)
    &&& table.len() == region_base(magics, 64)
}

/// The table slots that square entry `m` reserved: its whole region when it
/// has a shift, none otherwise (a square whose mask is empty or too large).
pub closed spec fn reserved(m: Magic) -> int {
    if 1 <= m.shift <= 63 {
        region_size(m.shift)
    } else {
        0
    }
}

/// Where the region of square `s` starts: the regions of the squares before
/// it, one after another.
pub closed spec fn region_base(magics: Seq<Magic>, s: int) -> int
    decreases s,
{
    if s <= 0 {
        0
    } else {
        region_base(magics, s - 1) + reserved(magics[s - 1])
    }
}

proof fn lemma_region_base_prefix(a: Seq<Magic>, b: Seq<Magic>, s: int)
    requires
        0 <= s <= a.len(),
        s <= b.len(),
        forall|i: int| 0 <= i < s ==> a[i] == b[i],
    ensures
        region_base(a, s) == region_base(b, s),
    decreases s,
{
    if s > 0 {
        lemma_region_base_prefix(a, b, s - 1);
    }
}

/// The table regions of the first `n` squares follow one another in square
/// order without overlapping.
pub closed spec fn regions_packed(magics: Seq<Magic>, n: int) -> bool {
    forall|a: int, b: int|
        0 <= a < b < n && (#[trigger] magics[a]).valid && (#[trigger] magics[b]).valid ==> magics[a].base
            + region_size(magics[a].shift) <= magics[b].base
}

proof fn lemma_subset_step(b: u64, m: u64, c: u64)
    requires
        b & m == b,
        c & m == c,
        b != m,
    ensures
        (b.wrapping_sub(m) & m) > b,
        c > b ==> c >= (b.wrapping_sub(m) & m),
        (b.wrapping_sub(m) & m) & m == (b.wrapping_sub(m) & m),
{
    assert(((b.wrapping_sub(m)) & m) > b) by (bit_vector)
        requires
            b & m == b,
            b != m,
    ;
    assert(c > b ==> c >= (b.wrapping_sub(m) & m)) by (bit_vector)
        requires
            b & m == b,
            c & m == c,
            b != m,
    ;
    assert((b.wrapping_sub(m) & m) & m == (b.wrapping_sub(m) & m)) by (bit_vector);
}

proof fn lemma_subset_le(c: u64, m: u64)
    requires
        c & m == c,
    ensures
        c <= m,
{
    assert(c <= m) by (bit_vector)
        requires
            c & m == c,
    ;
}

/// Every subset of `mask`, in increasing order, with its ray-cast attack
/// (the carry-rippler enumeration).
fn enumerate_subsets(pt: PieceType, sq: Square, mask: Bitboard) -> (r: (Vec<Bitboard>, Vec<Bitboard>))
    requires
        pt == PieceType::Rook || pt == PieceType::Bishop,
        sq.is_on_board(),
    ensures
        r.0.len() == r.1.len(),
        r.0.len() >= 1,
        forall|k: int| 0 <= k < r.0.len() ==> #[trigger] r.0@[k] & mask == r.0@[k],
        forall|k: int|
            0 <= k < r.0.len() ==> #[trigger] r.1@[k] == slide(pt == PieceType::Rook, sq.idx(), r.0@[k]),
        forall|c: u64| c & mask == c ==> r.0@.contains(c),
{
    let mut occupancy: Vec<Bitboard> = Vec::new();
    let mut reference: Vec<Bitboard> = Vec::new();
    let mut b: Bitboard = 0;
    assert(0u64 & mask == 0u64) by (bit_vector);
    loop
        invariant
            pt == PieceType::Rook || pt == PieceType::Bishop,
            sq.is_on_board(),
            b & mask == b,
            occupancy.len() == reference.len(),
            forall|k: int| 0 <= k < occupancy.len() ==> #[trigger] occupancy@[k] & mask == occupancy@[k],
            forall|k: int|
                0 <= k < occupancy.len() ==> #[trigger] reference@[k] == slide(
                    pt == PieceType::Rook,
                    sq.idx(),
                    occupancy@[k],
                ),
            forall|c: u64| c & mask == c && c < b ==> occupancy@.contains(c),
        decreases mask - b,
    {
        proof {
            lemma_subset_le(b, mask);
        }
        let ghost before = occupancy@;
        occupancy.push(b);
        assert(occupancy@ == before.push(b));
        reference.push(sliding_attack(pt, sq, b));
        assert(occupancy@[occupancy.len() - 1] == b);
        if b == mask {
            assert forall|c: u64| c & mask == c implies occupancy@.contains(c) by {
                lemma_subset_le(c, mask);
                if c < b {
                    assert(before.contains(c));
                    let k = choose|k: int| 0 <= k < before.len() && before[k] == c;
                    assert(occupancy@[k] == c);
                } else {
                    assert(occupancy@[occupancy.len() - 1] == c);
                }
            }
            return (occupancy, reference);
        }
        let ghost old_b = b;
        b = b.wrapping_sub(mask) & mask;
        proof {
            assert forall|c: u64| c & mask == c && c < b implies occupancy@.contains(c) by {
                lemma_subset_step(old_b, mask, c);
                if c < old_b {
                    assert(before.contains(c));
                    let k = choose|k: int| 0 <= k < before.len() && before[k] == c;
                    assert(occupancy@[k] == c);
                } else {
                    assert(c == old_b);
                    assert(occupancy@[occupancy.len() - 1] == c);
                }
            }
            lemma_subset_step(old_b, mask, old_b);
            lemma_subset_le(b, mask);
        }
    }
}

/// Upper bound on the candidate multipliers drawn for one square.
pub const MAGIC_BUDGET: u32 = 100000000;

proof fn lemma_magic_ok_extend(m: Magic, t1: Seq<u64>, t2: Seq<u64>, rook: bool, s: int)
    requires
        magic_ok(m, t1, rook, s),
        t2.len() >= t1.len(),
        forall|i: int| 0 <= i < t1.len() ==> t2[i] == t1[i],
    ensures
        magic_ok(m, t2, rook, s),
{
    if m.valid {
        assert forall|c: u64| c & m.mask == c implies t2[m.base + #[trigger] m.hash(c)] == slide(
            rook,
            s,
            c,
        ) by {
            lemma_shift_bound(c & m.mask, m.magic, m.shift as u64);
        }
    }
}

/// The fixed seed of the multiplier search for squares on rank `r`.
fn magic_seed(r: usize) -> (s: u64)
    ensures
        s != 0,
{
    match r {
        0 => 728,
        1 => 10316,
        2 => 55013,
        3 => 32803,
        4 => 12281,
        5 => 15100,
        6 => 16645,
        _ => 255,
    }
}

/// Finds a magic multiplier for `sq` and fills the square's region, appended to
/// `table`, with the attack of every subset of the relevant mask.
fn find_magic(pt: PieceType, sq: Square, table: &mut Vec<Bitboard>) -> (m: Magic)
    requires
        pt == PieceType::Rook || pt == PieceType::Bishop,
        sq.is_on_board(),
        old(table).len() <= 0x1000_0000,
    ensures
        magic_ok(m, final(table)@, pt == PieceType::Rook, sq.idx()),
        m.valid ==> m.base == old(table).len(),
        m.base == old(table).len(),
        final(table).len() == old(table).len() + reserved(m),
        final(table).len() >= old(table).len(),
        final(table).len() <= old(table).len() + 0x10000,
        forall|i: int| 0 <= i < old(table).len() ==> final(table)@[i] == old(table)@[i],
{
    let ghost rook = pt == PieceType::Rook;
    let edges = ((RANK1_BB | RANK8_BB) & !sq.rank_bb()) | ((FILEA_BB | FILEH_BB) & !sq.file_bb());
    let mask = sliding_attack(pt, sq, 0) & !edges;
    let bits = count_ones(mask);
    let base = table.len();
    if bits == 0 || bits > 16 {
        return Magic { mask, magic: 0, base, shift: 0, valid: false };
    }
    let shift: u32 = 64 - bits;
    assert((1u64 << (bits as u64)) <= 0x10000) by (bit_vector)
        requires
            1 <= bits <= 16,
    ;
    let size: usize = (1u64 << (bits as u64)) as usize;
    assert((64 - shift) as u64 == bits as u64);
    assert(size as int == region_size(shift));
    let ghost t0 = table@;
    let mut i: usize = 0;
    while i < size
        invariant
            i <= size,
            size <= 0x10000,
            table.len() == base + i,
            base == t0.len(),
            t0 == old(table)@,
            forall|j: int| 0 <= j < base ==> table@[j] == t0[j],
        decreases size - i,
    {
        table.push(0);
        i += 1;
    }
    let (occupancy, reference) = enumerate_subsets(pt, sq, mask);
    let mut epoch: Vec<u32> = Vec::new();
    let mut i: usize = 0;
    while i < size
        invariant
            i <= size,
            epoch.len() == i,
            forall|j: int| 0 <= j < i ==> epoch@[j] == 0,
        decreases size - i,
    {
        epoch.push(0);
        i += 1;
    }
    let mut m = Magic { mask, magic: 0, base, shift, valid: false };
    if search_magic(&mut m, &occupancy, &reference, &mut epoch, table, magic_seed(sq.index() / 8)) {
        let ghost m0 = m;
        m.valid = true;
        assert forall|c: u64| c & m.mask == c implies table@[m.base + #[trigger] m.hash(c)] == slide(
            rook,
            sq.idx(),
            c,
        ) by {
            assert(occupancy@.contains(c));
            let j = choose|j: int| 0 <= j < occupancy.len() && occupancy@[j] == c;
            assert(table@[m0.base + m0.hash(occupancy@[j])] == reference@[j]);
            assert(m.hash(c) == m0.hash(c));
        }
    }
    m
}

/// Draws candidate multipliers from the generator seeded with `seed` until one
/// hashes the enumerated occupancies without a harmful collision, or the budget
/// runs out. On success `m.magic` is that multiplier and the region is filled.
fn search_magic(
    m: &mut Magic,
    occupancy: &Vec<Bitboard>,
    reference: &Vec<Bitboard>,
    epoch: &mut Vec<u32>,
    table: &mut Vec<Bitboard>,
    seed: u64,
) -> (found: bool)
    requires
        old(m).indexable(),
        old(m).base + old(m).size() <= old(table).len(),
        old(epoch).len() == old(m).size(),
        forall|j: int| 0 <= j < old(epoch).len() ==> old(epoch)@[j] == 0,
        occupancy.len() == reference.len(),
        seed != 0,
    ensures
        final(m).mask == old(m).mask,
        final(m).base == old(m).base,
        final(m).shift == old(m).shift,
        final(m).valid == old(m).valid,
        final(table).len() == old(table).len(),
        forall|j: int| 0 <= j < old(m).base ==> final(table)@[j] == old(table)@[j],
        found ==> forall|j: int|
            0 <= j < occupancy.len() ==> final(table)@[final(m).base + #[trigger] final(m).hash(
                occupancy@[j],
            )] == reference@[j],
{
    let mut rng = Prng::new(seed);
    let mut budget: u32 = MAGIC_BUDGET;
    let mut cnt: u32 = 0;
    while budget > 0
        invariant
            m.mask == old(m).mask,
            m.base == old(m).base,
            m.shift == old(m).shift,
            m.valid == old(m).valid,
            m.indexable(),
            m.base + m.size() <= table.len(),
            table.len() == old(table).len(),
            forall|j: int| 0 <= j < m.base ==> table@[j] == old(table)@[j],
            epoch.len() == m.size(),
            forall|j: int| 0 <= j < epoch.len() ==> epoch@[j] <= cnt,
            cnt as int + budget as int <= MAGIC_BUDGET as int,
            occupancy.len() == reference.len(),
        decreases budget,
    {
        budget -= 1;
        let candidate = rng.sparse_rand();
        if count_ones(candidate.wrapping_mul(m.mask) >> 56u64) < 6 {
            continue;
        }
        cnt += 1;
        m.magic = candidate;
        if check_magic(m, occupancy, reference, epoch, cnt, table) {
            return true;
        }
    }
    false
}

/// Tries multiplier `m.magic`: hashes every enumerated occupancy, stamping the
/// slots it fills in this round with `cnt`, and reports whether two occupancies
/// with different attacks collided. On success every occupancy's slot holds its attack.
fn check_magic(
    m: &Magic,
    occupancy: &Vec<Bitboard>,
    reference: &Vec<Bitboard>,
    epoch: &mut Vec<u32>,
    cnt: u32,
    table: &mut Vec<Bitboard>,
) -> (ok: bool)
    requires
        m.indexable(),
        m.base + m.size() <= old(table).len(),
        old(epoch).len() == m.size(),
        forall|j: int| 0 <= j < old(epoch).len() ==> old(epoch)@[j] < cnt,
        occupancy.len() == reference.len(),
    ensures
        final(table).len() == old(table).len(),
        forall|j: int| 0 <= j < m.base ==> final(table)@[j] == old(table)@[j],
        final(epoch).len() == old(epoch).len(),
        forall|j: int| 0 <= j < final(epoch).len() ==> final(epoch)@[j] <= cnt,
        ok ==> forall|j: int|
            0 <= j < occupancy.len() ==> final(table)@[m.base + #[trigger] m.hash(occupancy@[j])]
                == reference@[j],
{
    let base = m.base;
    let mut k: usize = 0;
    let mut ok = true;
    proof {
        assert forall|c: u64| #[trigger] m.hash(c) < m.size() by {
            lemma_shift_bound(c & m.mask, m.magic, m.shift as u64);
        }
    }
    while k < occupancy.len()
        invariant
            m.indexable(),
            m.base + m.size() <= table.len(),
            base == m.base,
            table.len() == old(table).len(),
            forall|j: int| 0 <= j < base ==> table@[j] == old(table)@[j],
            epoch.len() == m.size(),
            forall|j: int| 0 <= j < epoch.len() ==> epoch@[j] <= cnt,
            occupancy.len() == reference.len(),
            k <= occupancy.len(),
            forall|c: u64| #[trigger] m.hash(c) < m.size(),
            forall|j: int|
                0 <= j < k ==> epoch@[#[trigger] m.hash(occupancy@[j])] == cnt && table@[base
                    + m.hash(occupancy@[j])] == reference@[j],
        ensures
            ok ==> k == occupancy.len(),
        decreases occupancy.len() - k,
    {
        let slot = m.index(occupancy[k]);
        let idx = slot - base;
        if epoch[idx] < cnt {
            let ghost e0 = epoch@;
            let ghost t1 = table@;
            epoch.set(idx, cnt);
            table.set(slot, reference[k]);
            assert forall|j: int| 0 <= j < k + 1 implies epoch@[#[trigger] m.hash(occupancy@[j])]
                == cnt && table@[base + m.hash(occupancy@[j])] == reference@[j] by {
                if j < k {
                    assert(e0[m.hash(occupancy@[j])] == cnt);
                    assert(m.hash(occupancy@[j]) != idx);
                    assert(t1[base + m.hash(occupancy@[j])] == reference@[j]);
                }
            }
        } else if table[slot] != reference[k] {
            ok = false;
            break;
        }
        k += 1;
    }
    ok
}

/// Builds the magic entries of piece class `pt` (rook or bishop) for all squares,
/// packing their table regions one after another into `table`.
pub fn init_magics(pt: PieceType, table: &mut Vec<Bitboard>, magics: &mut Vec<Magic>)
    requires
        pt == PieceType::Rook || pt == PieceType::Bishop,
        old(table).len() == 0,
        old(magics).len() == 0,
    ensures
        magics_ok(final(magics)@, final(table)@, pt == PieceType::Rook),
{
    let mut i: usize = 0;
    while i < 64
        invariant
            pt == PieceType::Rook || pt == PieceType::Bishop,
            i <= 64,
            magics.len() == i,
            table.len() <= i * 0x10000,
            forall|s: int| 0 <= s < i ==> magic_ok(#[trigger] magics@[s], table@, pt == PieceType::Rook, s),
            regions_packed(magics@, i as int),
            forall|s: int| 0 <= s < i ==> (#[trigger] magics@[s]).base == region_base(magics@, s),
            table.len() == region_base(magics@, i as int),
        decreases 64 - i,
    {
        let sq = Square::new_from_n(i as i32);
        let ghost t1 = table@;
        let m = find_magic(pt, sq, table);
        proof {
            assert forall|s: int| 0 <= s < i implies magic_ok(#[trigger] magics@[s], table@, pt == PieceType::Rook, s) by {
                lemma_magic_ok_extend(magics@[s], t1, table@, pt == PieceType::Rook, s);
            }
        }
        let ghost mg0 = magics@;
        magics.push(m);
        proof {
            lemma_region_base_prefix(magics@, mg0, i as int);
            assert(region_base(magics@, i + 1) == region_base(magics@, i as int) + reserved(m));
            assert forall|s: int| 0 <= s < i + 1 implies (#[trigger] magics@[s]).base == region_base(
                magics@,
                s,
            ) by {
                if s < i {
                    lemma_region_base_prefix(magics@, mg0, s);
                    assert(magics@[s] == mg0[s]);
                }
            }
            assert forall|a: int, b: int|
                0 <= a < b < i + 1 && (#[trigger] magics@[a]).valid && (#[trigger] magics@[b]).valid
                    implies magics@[a].base + region_size(magics@[a].shift) <= magics@[b].base by {
                if b == i {
                    assert(magic_ok(mg0[a], t1, pt == PieceType::Rook, a));
                } else {
                    assert(mg0[a] == magics@[a] && mg0[b] == magics@[b]);
                }
            }
        }
        i += 1;
    }
    proof {
        reveal(bases_ok);
    }
}

/// The rook and bishop magic entries with their flat attack tables.
pub struct SliderTables {
    rook_magics: Vec<Magic>,
    bishop_magics: Vec<Magic>,
    rook_table: Vec<Bitboard>,
    bishop_table: Vec<Bitboard>,
}

impl SliderTables {
    /// Every square's entry answers every occupancy with the ray-cast attack of
    /// its relevant part.
    pub closed spec fn wf(&self) -> bool {
        &&& magics_ok(self.rook_magics@, self.rook_table@, true)
        &&& magics_ok(self.bishop_magics@, self.bishop_table@, false)
    }

    /// Runs the magic search for both piece classes.
    pub fn new() -> (r: SliderTables)
        ensures
            r.wf(),
    {
        let mut rook_magics: Vec<Magic> = Vec::new();
        let mut bishop_magics: Vec<Magic> = Vec::new();
        let mut rook_table: Vec<Bitboard> = Vec::new();
        let mut bishop_table: Vec<Bitboard> = Vec::new();
        init_magics(PieceType::Rook, &mut rook_table, &mut rook_magics);
        init_magics(PieceType::Bishop, &mut bishop_table, &mut bishop_magics);
        SliderTables { rook_magics, bishop_magics, rook_table, bishop_table }
    }

    /// What a lookup of occupancy `occ` for square `s` reads: the slot that the
    /// square's magic hash selects, or, for a square without a magic, the ray cast.
    pub closed spec fn lookup_spec(&self, rook: bool, s: int, occ: u64) -> u64 {
        let m = if rook {
            self.rook_magics@[s]
        } else {
            self.bishop_magics@[s]
        };
        let table = if rook {
            self.rook_table@
        } else {
            self.bishop_table@
        };
        if m.valid {
            table[m.base + m.hash(occ)]
        } else {
            slide(rook, s, occ & m.mask)
        }
    }

    /// Rook attack from `s` with occupancy `occupied`.
    pub fn rook(&self, s: Square, occupied: Bitboard) -> (r: Bitboard)
        requires
            self.wf(),
            s.is_on_board(),
        ensures
            r == slider_attack(true, s.idx(), occupied),
            r == self.lookup_spec(true, s.idx(), occupied),
    {
        slider_lookup(&self.rook_magics, &self.rook_table, PieceType::Rook, s, occupied)
    }

    /// Bishop attack from `s` with occupancy `occupied`.
    pub fn bishop(&self, s: Square, occupied: Bitboard) -> (r: Bitboard)
        requires
            self.wf(),
            s.is_on_board(),
        ensures
            r == slider_attack(false, s.idx(), occupied),
            r == self.lookup_spec(false, s.idx(), occupied),
    {
        slider_lookup(&self.bishop_magics, &self.bishop_table, PieceType::Bishop, s, occupied)
    }
}

fn slider_lookup(
    magics: &Vec<Magic>,
    table: &Vec<Bitboard>,
    pt: PieceType,
    s: Square,
    occupied: Bitboard,
) -> (r: Bitboard)
    requires
        pt == PieceType::Rook || pt == PieceType::Bishop,
        magics_ok(magics@, table@, pt == PieceType::Rook),
        s.is_on_board(),
    ensures
        r == slider_attack(pt == PieceType::Rook, s.idx(), occupied),
        ({
            let m = magics@[s.idx()];
            r == if m.valid {
                table@[m.base + m.hash(occupied)]
            } else {
                slide(pt == PieceType::Rook, s.idx(), occupied & m.mask)
            }
        }),
{
    let m = magics[s.index()];
    assert(magic_ok(magics@[s.idx()], table@, pt == PieceType::Rook, s.idx()));
    let mask = m.mask;
    let c = occupied & mask;
    assert(c & mask == c) by (bit_vector)
        requires
            c == occupied & mask,
    ;
    if m.valid {
        let i = m.index(occupied);
        assert(m.hash(occupied) == m.hash(c));
        table[i]
    } else {
        sliding_attack(pt, s, c)
    }
}

/// The piece type whose table index is `n`.
pub open spec fn piece_type_of(n: int) -> PieceType {
    if n == 0 {
        PieceType::AllPieces
    } else if n == 1 {
        PieceType::Pawn
    } else if n == 2 {
        PieceType::Knight
    } else if n == 3 {
        PieceType::Bishop
    } else if n == 4 {
        PieceType::Rook
    } else if n == 5 {
        PieceType::Queen
    } else if n == 6 {
        PieceType::King
    } else {
        PieceType::NoPieceType
    }
}

pub open spec fn color_of(n: int) -> Color {
    if n == 0 {
        Color::White
    } else {
        Color::Black
    }
}

proof fn lemma_pair(a: int, b: int)
    requires
        0 <= a,
        0 <= b < 64,
    ensures
        (a * 64 + b) / 64 == a,
        (a * 64 + b) % 64 == b,
{
    vstd::arithmetic::div_mod::lemma_fundamental_div_mod_converse(a * 64 + b, 64, a, b);
}

fn piece_type_from_index(n: usize) -> (pt: PieceType)
    ensures
        pt == piece_type_of(n as int),
{
    match n {
        0 => PieceType::AllPieces,
        1 => PieceType::Pawn,
        2 => PieceType::Knight,
        3 => PieceType::Bishop,
        4 => PieceType::Rook,
        5 => PieceType::Queen,
        6 => PieceType::King,
        _ => PieceType::NoPieceType,
    }
}

/// Empty-board attack of a piece of type `pt` on `s`, pawns excluded.
pub fn attacks_bb_helper(
    pt: PieceType,
    s: Square,
    occupied: Bitboard,
    sliders: &SliderTables,
) -> (r: Bitboard)
    requires
        sliders.wf(),
        s.is_on_board(),
    ensures
        r == attacks_spec(pt, s.idx(), occupied),
{
    match pt {
        PieceType::Bishop => sliders.bishop(s, occupied),
        PieceType::Rook => sliders.rook(s, occupied),
        PieceType::Queen => sliders.bishop(s, occupied) | sliders.rook(s, occupied),
        PieceType::King => {
            reveal_with_fuel(step_attack, 9);
            0 | safe_destination(s, -9) | safe_destination(s, -8) | safe_destination(s, -7)
                | safe_destination(s, -1) | safe_destination(s, 1) | safe_destination(s, 7)
                | safe_destination(s, 8) | safe_destination(s, 9)
        },
        PieceType::Knight => {
            reveal_with_fuel(step_attack, 9);
            0 | safe_destination(s, -17) | safe_destination(s, -15) | safe_destination(s, -10)
                | safe_destination(s, -6) | safe_destination(s, 6) | safe_destination(s, 10)
                | safe_destination(s, 15) | safe_destination(s, 17)
        },
        _ => 0,
    }
}

/// Table of square distances, indexed by `64 * a + b`.
pub fn init_square_distance() -> (r: Vec<u8>)
    ensures
        r.len() == 4096,
        forall|i: int| 0 <= i < 4096 ==> #[trigger] r@[i] == sq_distance(i / 64, i % 64),
{
    let mut r: Vec<u8> = Vec::new();
    let mut a: usize = 0;
    while a < 64
        invariant
            a <= 64,
            r.len() == a * 64,
            forall|i: int| 0 <= i < r.len() ==> #[trigger] r@[i] == sq_distance(i / 64, i % 64),
        decreases 64 - a,
    {
        let mut b: usize = 0;
        while b < 64
            invariant
                a < 64,
                b <= 64,
                r.len() == a * 64 + b,
                forall|i: int| 0 <= i < r.len() ==> #[trigger] r@[i] == sq_distance(i / 64, i % 64),
            decreases 64 - b,
        {
            proof {
                lemma_pair(a as int, b as int);
            }
            r.push(square_distance_n(a, b));
            b += 1;
        }
        a += 1;
    }
    r
}

/// Table of the population counts of all 16-bit numbers.
pub fn init_popcnt() -> (r: Vec<u8>)
    ensures
        r.len() == 65536,
        forall|i: int| 0 <= i < 65536 ==> #[trigger] r@[i] == popcount(i as u64),
{
    let mut r: Vec<u8> = Vec::new();
    let mut i: u64 = 0;
    while i < 65536
        invariant
            i <= 65536,
            r.len() == i,
            forall|j: int| 0 <= j < r.len() ==> #[trigger] r@[j] == popcount(j as u64),
        decreases 65536 - i,
    {
        let c = count_ones(i);
        proof {
            lemma_popcount_small(i);
        }
        r.push(c as u8);
        i += 1;
    }
    r
}

proof fn lemma_popcount_small(b: u64)
    requires
        b < 65536,
    ensures
        popcount(b) <= 16,
    decreases b,
{
    reveal_with_fuel(pow2_nat, 17);
    lemma_popcount_le_bits(b, 16);
}

proof fn lemma_popcount_le_bits(b: u64, n: nat)
    requires
        (b as int) < pow2_nat(n),
    ensures
        popcount(b) <= n,
    decreases n,
{
    if b != 0 {
        if n == 0 {
        } else {
            lemma_popcount_le_bits(b / 2, (n - 1) as nat);
        }
    }
}

pub open spec fn pow2_nat(n: nat) -> int
    decreases n,
{
    if n == 0 {
        1
    } else {
        2 * pow2_nat((n - 1) as nat)
    }
}

/// Empty-board attacks of every piece type from every square, indexed by `64 * type + square`.
fn init_pseudo_attacks(sliders: &SliderTables) -> (r: Vec<Bitboard>)
    requires
        sliders.wf(),
    ensures
        r.len() == 512,
        forall|i: int| 0 <= i < 512 ==> #[trigger] r@[i] == pseudo_spec(piece_type_of(i / 64), i % 64),
{
    let mut r: Vec<Bitboard> = Vec::new();
    let mut p: usize = 0;
    while p < 8
        invariant
            sliders.wf(),
            p <= 8,
            r.len() == p * 64,
            forall|i: int| 0 <= i < r.len() ==> #[trigger] r@[i] == pseudo_spec(piece_type_of(i / 64), i % 64),
        decreases 8 - p,
    {
        let pt = piece_type_from_index(p);
        let mut s: usize = 0;
        while s < 64
            invariant
                sliders.wf(),
                p < 8,
                s <= 64,
                pt == piece_type_of(p as int),
                r.len() == p * 64 + s,
                forall|i: int| 0 <= i < r.len() ==> #[trigger] r@[i] == pseudo_spec(piece_type_of(i / 64), i % 64),
            decreases 64 - s,
        {
            proof {
                lemma_pair(p as int, s as int);
            }
            let sq = Square::new_from_n(s as i32);
            let v = if pt == PieceType::Pawn || pt == PieceType::AllPieces || pt == PieceType::NoPieceType {
                0
            } else {
                attacks_bb_helper(pt, sq, 0, sliders)
            };
            r.push(v);
            s += 1;
        }
        p += 1;
    }
    r
}

/// Pawn attacks of both colors from every square, indexed by `64 * color + square`.
fn init_pawn_attacks() -> (r: Vec<Bitboard>)
    ensures
        r.len() == 128,
        forall|i: int| 0 <= i < 128 ==> #[trigger] r@[i] == pawn_attacks_spec(bit(i % 64), color_of(i / 64)),
{
    let mut r: Vec<Bitboard> = Vec::new();
    let mut c: usize = 0;
    while c < 2
        invariant
            c <= 2,
            r.len() == c * 64,
            forall|i: int| 0 <= i < r.len() ==> #[trigger] r@[i] == pawn_attacks_spec(bit(i % 64), color_of(i / 64)),
        decreases 2 - c,
    {
        let color = if c == 0 {
            Color::White
        } else {
            Color::Black
        };
        let mut s: usize = 0;
        while s < 64
            invariant
                c < 2,
                s <= 64,
                color == color_of(c as int),
                r.len() == c * 64 + s,
                forall|i: int| 0 <= i < r.len() ==> #[trigger] r@[i] == pawn_attacks_spec(bit(i % 64), color_of(i / 64)),
            decreases 64 - s,
        {
            proof {
                lemma_pair(c as int, s as int);
            }
            r.push(pawn_attacks_bb(1u64 << (s as u64), color));
            s += 1;
        }
        c += 1;
    }
    r
}

/// Magic equivalence: for every square, both piece classes and every subset
/// of the square's relevant-occupancy mask, the table lookup equals the
/// brute-force ray-cast attack for that occupancy.
pub proof fn lemma_magic_equivalence(t: &SliderTables, rook: bool, s: int, occ: u64)
    requires
        t.wf(),
        0 <= s < 64,
        occ & relevant_mask(rook, s) == occ,
    ensures
        t.lookup_spec(rook, s, occ) == slide(rook, s, occ),
{
    let m = if rook {
        t.rook_magics@[s]
    } else {
        t.bishop_magics@[s]
    };
    let table = if rook {
        t.rook_table@
    } else {
        t.bishop_table@
    };
    assert(magic_ok(m, table, rook, s));
    if m.valid {
        assert(table[m.base + m.hash(occ)] == slide(rook, s, occ));
    }
}

/// Whether bit `i` of `x` is set, tested with a one-square mask.
proof fn lemma_has_bit(x: u64, i: int)
    requires
        0 <= i < 64,
    ensures
        has_bit(x, i) == (x & bit(i) != 0),
{
    let j = i as u64;
    assert(((x >> j) & 1u64 == 1u64) == (x & (1u64 << j) != 0)) by (bit_vector)
        requires
            j < 64,
    ;
}

/// Line and between tables, indexed by `64 * a + b`.
fn init_lines(sliders: &SliderTables) -> (r: (Vec<Bitboard>, Vec<Bitboard>))
    requires
        sliders.wf(),
    ensures
        r.0.len() == 4096,
        r.1.len() == 4096,
        forall|i: int| 0 <= i < 4096 ==> #[trigger] r.0@[i] == line_spec(i / 64, i % 64),
        forall|i: int| 0 <= i < 4096 ==> #[trigger] r.1@[i] == between_spec(i / 64, i % 64),
{
    let mut line: Vec<Bitboard> = Vec::new();
    let mut between: Vec<Bitboard> = Vec::new();
    let mut a: usize = 0;
    while a < 64
        invariant
            sliders.wf(),
            a <= 64,
            line.len() == a * 64,
            between.len() == a * 64,
            forall|i: int| 0 <= i < line.len() ==> #[trigger] line@[i] == line_spec(i / 64, i % 64),
            forall|i: int| 0 <= i < between.len() ==> #[trigger] between@[i] == between_spec(i / 64, i % 64),
        decreases 64 - a,
    {
        let s1 = Square::new_from_n(a as i32);
        let rook1 = sliders.rook(s1, 0);
        let bishop1 = sliders.bishop(s1, 0);
        let mut b: usize = 0;
        while b < 64
            invariant
                sliders.wf(),
                a < 64,
                b <= 64,
                s1.idx() == a,
                rook1 == pseudo_spec(PieceType::Rook, a as int),
                bishop1 == pseudo_spec(PieceType::Bishop, a as int),
                line.len() == a * 64 + b,
                between.len() == a * 64 + b,
                forall|i: int| 0 <= i < line.len() ==> #[trigger] line@[i] == line_spec(i / 64, i % 64),
                forall|i: int| 0 <= i < between.len() ==> #[trigger] between@[i] == between_spec(i / 64, i % 64),
            decreases 64 - b,
        {
            proof {
                lemma_pair(a as int, b as int);
                lemma_has_bit(rook1, b as int);
                lemma_has_bit(bishop1, b as int);
            }
            let s2 = Square::new_from_n(b as i32);
            let b1 = 1u64 << (a as u64);
            let b2 = 1u64 << (b as u64);
            if rook1 & b2 != 0 {
                line.push((rook1 & sliders.rook(s2, 0)) | b1 | b2);
                between.push(sliders.rook(s1, b2) & sliders.rook(s2, b1));
            } else if bishop1 & b2 != 0 {
                line.push((bishop1 & sliders.bishop(s2, 0)) | b1 | b2);
                between.push(sliders.bishop(s1, b2) & sliders.bishop(s2, b1));
            } else {
                line.push(0);
                between.push(0);
            }
            b += 1;
        }
        a += 1;
    }
    (line, between)
}

/// All attack and geometry tables, built once by `init` and then only read.
pub struct BitboardTables {
    sliders: SliderTables,
    square_distance: Vec<u8>,
    popcnt: Vec<u8>,
    pseudo_attacks: Vec<Bitboard>,
    pawn_attacks: Vec<Bitboard>,
    line: Vec<Bitboard>,
    between: Vec<Bitboard>,
}

impl BitboardTables {
    /// Every table holds what its spec function says.
    pub closed spec fn wf(&self) -> bool {
        &&& self.sliders.wf()
        &&& self.square_distance.len() == 4096
        &&& forall|i: int|
            0 <= i < 4096 ==> #[trigger] self.square_distance@[i] == sq_distance(i / 64, i % 64)
        &&& self.popcnt.len() == 65536
        &&& forall|i: int| 0 <= i < 65536 ==> #[trigger] self.popcnt@[i] == popcount(i as u64)
        &&& self.pseudo_attacks.len() == 512
        &&& forall|i: int|
            0 <= i < 512 ==> #[trigger] self.pseudo_attacks@[i] == pseudo_spec(
                piece_type_of(i / 64),
                i % 64,
            )
        &&& self.pawn_attacks.len() == 128
        &&& forall|i: int|
            0 <= i < 128 ==> #[trigger] self.pawn_attacks@[i] == pawn_attacks_spec(
                bit(i % 64),
                color_of(i / 64),
            )
        &&& self.line.len() == 4096
        &&& forall|i: int| 0 <= i < 4096 ==> #[trigger] self.line@[i] == line_spec(i / 64, i % 64)
        &&& self.between.len() == 4096
        &&& forall|i: int|
            0 <= i < 4096 ==> #[trigger] self.between@[i] == between_spec(i / 64, i % 64)
    }

    /// Distance table lookup.
    pub fn square_distance(&self, x: Square, y: Square) -> (r: u8)
        requires
            self.wf(),
            x.is_on_board(),
            y.is_on_board(),
        ensures
            r == sq_distance(x.idx(), y.idx()),
    {
        proof {
            lemma_pair(x.idx(), y.idx());
        }
        self.square_distance[x.index() * 64 + y.index()]
    }

    /// The magic tables.
    pub fn sliders(&self) -> (r: &SliderTables)
        requires
            self.wf(),
        ensures
            r.wf(),
            *r == self.sliders_spec(),
    {
        &self.sliders
    }

    pub closed spec fn sliders_spec(&self) -> SliderTables {
        self.sliders
    }

    /// Population count of a 16-bit number, by table.
    pub fn popcount16(&self, n: u16) -> (r: u8)
        requires
            self.wf(),
        ensures
            r == popcount(n as u64),
    {
        self.popcnt[n as usize]
    }
}

/// The tables derived from the magic tables: empty-board attacks by piece
/// type, pawn attacks by color, lines and between-sets.
pub fn init_other_tables(sliders: &SliderTables) -> (r: (Vec<Bitboard>, Vec<Bitboard>, Vec<Bitboard>, Vec<Bitboard>))
    requires
        sliders.wf(),
    ensures
        r.0.len() == 512,
        forall|i: int| 0 <= i < 512 ==> #[trigger] r.0@[i] == pseudo_spec(piece_type_of(i / 64), i % 64),
        r.1.len() == 128,
        forall|i: int| 0 <= i < 128 ==> #[trigger] r.1@[i] == pawn_attacks_spec(bit(i % 64), color_of(i / 64)),
        r.2.len() == 4096,
        r.3.len() == 4096,
        forall|i: int| 0 <= i < 4096 ==> #[trigger] r.2@[i] == line_spec(i / 64, i % 64),
        forall|i: int| 0 <= i < 4096 ==> #[trigger] r.3@[i] == between_spec(i / 64, i % 64),
{
    let pseudo_attacks = init_pseudo_attacks(sliders);
    let pawn_attacks = init_pawn_attacks();
    let (line, between) = init_lines(sliders);
    (pseudo_attacks, pawn_attacks, line, between)
}

/// Builds every table: the magic attack tables first, then the tables derived from them.
pub fn init() -> (r: BitboardTables)
    ensures
        r.wf(),
{
    let square_distance = init_square_distance();
    let popcnt = init_popcnt();
    let sliders = SliderTables::new();
    let (pseudo_attacks, pawn_attacks, line, between) = init_other_tables(&sliders);
    BitboardTables { sliders, square_distance, popcnt, pseudo_attacks, pawn_attacks, line, between }
}

/// The squares that a pawn of color `c` on `s` attacks.
pub fn get_pawn_attacks_bb(t: &BitboardTables, c: Color, s: Square) -> (r: Bitboard)
    requires
        t.wf(),
        s.is_on_board(),
    ensures
        r == pawn_attacks_spec(bit(s.idx()), c),
{
    proof {
        lemma_pair(c.idx(), s.idx());
    }
    t.pawn_attacks[c.index() * 64 + s.index()]
}

/// Empty-board attack of a piece of type `pt` on `s` (empty for pawns).
pub fn get_pseudo_attacks(t: &BitboardTables, pt: PieceType, s: Square) -> (r: Bitboard)
    requires
        t.wf(),
        s.is_on_board(),
    ensures
        r == pseudo_spec(pt, s.idx()),
{
    proof {
        lemma_pair(pt.idx(), s.idx());
    }
    t.pseudo_attacks[pt.index() * 64 + s.index()]
}

/// Empty-board attack of a piece of type `pt` on `s` (empty for pawns).
pub fn pseudo_attacks_bb(t: &BitboardTables, pt: PieceType, s: Square) -> (r: Bitboard)
    requires
        t.wf(),
        s.is_on_board(),
    ensures
        r == pseudo_spec(pt, s.idx()),
{
    get_pseudo_attacks(t, pt, s)
}

/// Whether `s3` lies on the line through `s1` and `s2`.
pub fn alligned(t: &BitboardTables, s1: Square, s2: Square, s3: Square) -> (r: bool)
    requires
        t.wf(),
        s1.is_on_board(),
        s2.is_on_board(),
        s3.is_on_board(),
    ensures
        r == has_bit(line_spec(s1.idx(), s2.idx()), s3.idx()),
{
    proof {
        lemma_pair(s1.idx(), s2.idx());
    }
    let a = t.line[s1.index() * 64 + s2.index()];
    proof {
        lemma_has_bit(a, s3.idx());
    }
    a & s3.bb() != 0
}

/// The line through `s1` and `s2` when they are aligned, else empty.
pub fn line_bb(t: &BitboardTables, s1: Square, s2: Square) -> (r: Bitboard)
    requires
        t.wf(),
        s1.is_on_board(),
        s2.is_on_board(),
    ensures
        r == line_spec(s1.idx(), s2.idx()),
{
    proof {
        lemma_pair(s1.idx(), s2.idx());
    }
    t.line[s1.index() * 64 + s2.index()]
}

/// The squares strictly between `s1` and `s2`; empty when they are not aligned.
pub fn between_bb(t: &BitboardTables, s1: Square, s2: Square) -> (r: Bitboard)
    requires
        t.wf(),
        s1.is_on_board(),
        s2.is_on_board(),
    ensures
        r == between_spec(s1.idx(), s2.idx()),
{
    proof {
        lemma_pair(s1.idx(), s2.idx());
    }
    t.between[s1.index() * 64 + s2.index()]
}

/// Attack of a piece of type `pt` on `s` with occupancy `occupied` (empty for pawns).
pub fn attacks_bb(t: &BitboardTables, pt: PieceType, s: Square, occupied: Bitboard) -> (r: Bitboard)
    requires
        t.wf(),
        s.is_on_board(),
    ensures
        r == attacks_spec(pt, s.idx(), occupied),
{
    match pt {
        PieceType::Bishop => t.sliders.bishop(s, occupied),
        PieceType::Rook => t.sliders.rook(s, occupied),
        PieceType::Queen => t.sliders.bishop(s, occupied) | t.sliders.rook(s, occupied),
        _ => get_pseudo_attacks(t, pt, s),
    }
}

/// Bishop attack from `s` with occupancy `occupied`.
pub fn bishop_attacks_bb(t: &BitboardTables, s: Square, occupied: Bitboard) -> (r: Bitboard)
    requires
        t.wf(),
        s.is_on_board(),
    ensures
        r == slider_attack(false, s.idx(), occupied),
        r == t.sliders_spec().lookup_spec(false, s.idx(), occupied),
{
    t.sliders.bishop(s, occupied)
}

/// Rook attack from `s` with occupancy `occupied`.
pub fn rook_attacks_bb(t: &BitboardTables, s: Square, occupied: Bitboard) -> (r: Bitboard)
    requires
        t.wf(),
        s.is_on_board(),
    ensures
        r == slider_attack(true, s.idx(), occupied),
        r == t.sliders_spec().lookup_spec(true, s.idx(), occupied),
{
    t.sliders.rook(s, occupied)
}


/// Where the drawing of a set shows square (`r`, `f`): the middle of the
/// `f`-th cell of the row of rank `r`, rows from rank 8 down.
pub open spec fn pretty_cell(r: int, f: int) -> int {
    34 + (7 - r) * 70 + 4 * f + 2
}

/// Where the drawing's row of rank `r` ends (the newline after the rank number).
pub open spec fn pretty_row_end(r: int) -> int {
    34 + 70 * (7 - r) + 35
}

/// Where the border line under the row of rank `r` ends.
pub open spec fn pretty_border_end(r: int) -> int {
    34 + 70 * (7 - r) + 69
}

/// A drawing of `b` as an 8 by 8 grid, rank 8 on top: 626 characters on 18
/// lines, an `X` in a cell exactly when its square is in `b`.
pub fn pretty(b: Bitboard) -> (s: String)
    ensures
        s@.len() == 626,
        forall|r: int, f: int|
            0 <= r < 8 && 0 <= f < 8 ==> (s@[#[trigger] pretty_cell(r, f)] == 'X') == has_bit(b, 8 * r + f),
        forall|r: int, f: int|
            0 <= r < 8 && 0 <= f < 8 && !has_bit(b, 8 * r + f) ==> s@[#[trigger] pretty_cell(r, f)] == ' ',
{
    let v = pretty_bytes(b);
    let s = ascii_to_string(v);
    assert forall|r: int, f: int| 0 <= r < 8 && 0 <= f < 8 implies (s@[#[trigger] pretty_cell(r, f)]
        == 'X') == has_bit(b, 8 * r + f) by {
        assert(s@[pretty_cell(r, f)] == v@[pretty_cell(r, f)] as char);
    }
    s
}

pub(crate) fn push_all(v: &mut Vec<u8>, text: &Vec<u8>)
    ensures
        final(v)@ == old(v)@ + text@,
{
    let mut i: usize = 0;
    while i < text.len()
        invariant
            i <= text.len(),
            v@ == old(v)@ + text@.subrange(0, i as int),
        decreases text.len() - i,
    {
        v.push(text[i]);
        proof {
            assert(text@.subrange(0, i + 1) == text@.subrange(0, i as int).push(text@[i as int]));
        }
        i += 1;
    }
    assert(text@.subrange(0, text.len() as int) == text@);
}

/// The bytes of the drawing of `b`: a bordered grid, rank 8 on top, `X` on members,
/// each rank followed by its number, and the file letters underneath; 18
/// lines of which the first ends at byte 33 and rank `r`'s two end at bytes
/// 34 + 70 * (7 - r) + 35 and + 69.
pub fn pretty_bytes(b: Bitboard) -> (v: Vec<u8>)
    ensures
        v@.len() == 626,
        forall|i: int| 0 <= i < v@.len() ==> v@[i] < 128,
        forall|r: int, f: int|
            0 <= r < 8 && 0 <= f < 8 ==> v@[#[trigger] pretty_cell(r, f)] == if has_bit(b, 8 * r + f) {
                88u8
            } else {
                32u8
            },
        v@[33] == 10u8,
        v@[625] == 10u8,
        forall|r: int| 0 <= r < 8 ==> v@[#[trigger] pretty_row_end(r)] == 10u8,
        forall|r: int| 0 <= r < 8 ==> v@[#[trigger] pretty_border_end(r)] == 10u8,
{
    let mut border: Vec<u8> = Vec::new();
    let mut k: usize = 0;
    while k < 8
        invariant
            k <= 8,
            border@.len() == 4 * k,
            forall|i: int| 0 <= i < border@.len() ==> border@[i] < 128,
        decreases 8 - k,
    {
        push_all(&mut border, &vec![43u8, 45u8, 45u8, 45u8]);
        k += 1;
    }
    push_all(&mut border, &vec![43u8, 10u8]);
    assert(border@.len() == 34 && border@[33] == 10u8);
    let mut v: Vec<u8> = Vec::new();
    push_all(&mut v, &border);
    let mut r: usize = 8;
    while r > 0
        invariant
            r <= 8,
            border@.len() == 34,
            border@[33] == 10u8,
            v@.len() == 34 + (8 - r) * 70,
            v@[33] == 10u8,
            forall|i: int| 0 <= i < v@.len() ==> v@[i] < 128,
            forall|i: int| 0 <= i < border@.len() ==> border@[i] < 128,
            forall|rr: int, f: int|
                r <= rr < 8 && 0 <= f < 8 ==> v@[#[trigger] pretty_cell(rr, f)] == if has_bit(
                    b,
                    8 * rr + f,
                ) {
                    88u8
                } else {
                    32u8
                },
            forall|rr: int| r <= rr < 8 ==> v@[#[trigger] pretty_row_end(rr)] == 10u8,
            forall|rr: int| r <= rr < 8 ==> v@[#[trigger] pretty_border_end(rr)] == 10u8,
        decreases r,
    {
        r -= 1;
        let mut f: usize = 0;
        while f < 8
            invariant
                r < 8,
                f <= 8,
                v@.len() == 34 + (7 - r) * 70 + 4 * f,
                v@[33] == 10u8,
                forall|i: int| 0 <= i < v@.len() ==> v@[i] < 128,
                forall|rr: int, ff: int|
                    (r < rr < 8 && 0 <= ff < 8) || (rr == r && 0 <= ff < f) ==> v@[#[trigger] pretty_cell(
                        rr,
                        ff,
                    )] == if has_bit(b, 8 * rr + ff) {
                        88u8
                    } else {
                        32u8
                    },
                forall|rr: int| r < rr < 8 ==> v@[#[trigger] pretty_row_end(rr)] == 10u8,
                forall|rr: int| r < rr < 8 ==> v@[#[trigger] pretty_border_end(rr)] == 10u8,
            decreases 8 - f,
        {
            let sq = make_square(f, r);
            let ghost before = v@;
            proof {
                lemma_has_bit(b, 8 * r + f);
            }
            if b & sq.bb() != 0 {
                push_all(&mut v, &vec![124u8, 32u8, 88u8, 32u8]);
            } else {
                push_all(&mut v, &vec![124u8, 32u8, 32u8, 32u8]);
            }
            assert(v@[pretty_cell(r as int, f as int)] == v@[before.len() as int + 2]);
            f += 1;
        }
        let ghost before2 = v@;
        push_all(&mut v, &vec![124u8, 32u8, 49u8 + r as u8, 10u8]);
        push_all(&mut v, &border);
        assert(v@[pretty_row_end(r as int)] == 10u8);
        assert(v@[pretty_border_end(r as int)] == border@[33]);
    }
    push_all(
        &mut v,
        &vec![32u8, 32u8, 97u8, 32u8, 32u8, 32u8, 98u8, 32u8, 32u8, 32u8, 99u8, 32u8, 32u8, 32u8, 100u8, 32u8, 32u8, 32u8, 101u8, 32u8, 32u8, 32u8, 102u8, 32u8, 32u8, 32u8, 103u8, 32u8, 32u8, 32u8, 104u8, 10u8],
    );
    v
}

/// Relies on `String::from_utf8`: ASCII bytes are valid UTF-8, so it
/// succeeds, and each byte becomes the character with that code.
#[verifier::external_body]
pub(crate) fn ascii_to_string(v: Vec<u8>) -> (s: String)
    requires
        forall|i: int| 0 <= i < v@.len() ==> v@[i] < 128,
    ensures
        s@.len() == v@.len(),
        forall|i: int| 0 <= i < v@.len() ==> s@[i] == v@[i] as char,
{
    match String::from_utf8(v) {
        Ok(s) => s,
        Err(_) => String::new(),
    }
}

} // verus!
