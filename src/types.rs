use vstd::prelude::*;

verus! {

/// A set of squares: bit `i` is set exactly when square `i` is a member.
pub type Bitboard = u64;

pub type Value = i32;

pub type Key = u64;

pub type Depth = i32;

pub const MAX_MOVES: usize = 256;

pub const MAX_PLY: i32 = 246;

pub const VALUE_ZERO: Value = 0;

pub const VALUE_MATE: Value = 32000;

pub const PAWN_VALUE: Value = 208;

pub const KNIGHT_VALUE: Value = 781;

pub const BISHOP_VALUE: Value = 825;

pub const ROOK_VALUE: Value = 1276;

pub const QUEEN_VALUE: Value = 2538;

pub const RANK1_BB: Bitboard = 0xFF;

pub const FILEA_BB: Bitboard = 0x0101010101010101;

/// Number of squares on the board.
pub const SQNB: usize = 64;

/// Size of a table indexed by a piece's packed value.
pub const PNB: usize = 16;

/// Size of a table indexed by a piece type.
pub const PTNB: usize = 8;

pub const COLORNB: usize = 2;

/// Size of a table indexed by a set of castling rights.
pub const CRNB: usize = 16;

pub const FNB: usize = 8;

pub const RNB: usize = 8;

/// Whether bit `i` of `b` is set.
pub open spec fn has_bit(b: u64, i: int) -> bool {
    0 <= i < 64 && (b >> (i as u64)) & 1u64 == 1u64
}

#[derive(Debug, Clone, Copy, PartialEq, Eq, Structural)]
pub enum Color {
    White,
    Black,
}

impl Color {
    pub open spec fn idx(self) -> int {
        match self {
            Color::White => 0,
            Color::Black => 1,
        }
    }

    pub open spec fn flip(self) -> Color {
        match self {
            Color::White => Color::Black,
            Color::Black => Color::White,
        }
    }

    pub fn index(&self) -> (r: usize)
        ensures
            r == self.idx(),
    {
        match self {
            Color::White => 0,
            Color::Black => 1,
        }
    }

    /// The other color.
    pub fn opposite(&self) -> (r: Color)
        ensures
            r == self.flip(),
    {
        match self {
            Color::White => Color::Black,
            Color::Black => Color::White,
        }
    }
}

impl core::ops::Not for Color {
    type Output = Color;

    fn not(self) -> Color {
        self.opposite()
    }
}

impl vstd::std_specs::ops::NotSpecImpl for Color {
    open spec fn obeys_not_spec() -> bool {
        true
    }

    open spec fn not_req(self) -> bool {
        true
    }

    open spec fn not_spec(self) -> Color {
        self.flip()
    }
}

#[derive(Debug, Clone, Copy, PartialEq, Eq, Structural)]
pub enum Bound {
    BoundNone,
    BoundUpper,
    BoundLower,
    BoundExact,
}

#[derive(Debug, Clone, Copy, PartialEq, Eq, Structural)]
pub enum PieceType {
    AllPieces,
    Pawn,
    Knight,
    Bishop,
    Rook,
    Queen,
    King,
    NoPieceType,
}

impl PieceType {
    /// Table index of the piece type; `NoPieceType` has none of its own and maps to 7.
    pub open spec fn idx(self) -> int {
        match self {
            PieceType::AllPieces => 0,
            PieceType::Pawn => 1,
            PieceType::Knight => 2,
            PieceType::Bishop => 3,
            PieceType::Rook => 4,
            PieceType::Queen => 5,
            PieceType::King => 6,
            PieceType::NoPieceType => 7,
        }
    }

    /// A type that a real piece can have.
    pub open spec fn is_real(self) -> bool {
        1 <= self.idx() <= 6
    }

    pub fn index(&self) -> (r: usize)
        ensures
            r == self.idx(),
    {
        match self {
            PieceType::AllPieces => 0,
            PieceType::Pawn => 1,
            PieceType::Knight => 2,
            PieceType::Bishop => 3,
            PieceType::Rook => 4,
            PieceType::Queen => 5,
            PieceType::King => 6,
            PieceType::NoPieceType => 7,
        }
    }

    /// The numeric value used by the packed piece encoding; -1 for `NoPieceType`.
    pub fn to_num(&self) -> (r: i32)
        ensures
            *self != PieceType::NoPieceType ==> r == self.idx(),
            *self == PieceType::NoPieceType ==> r == -1,
    {
        match self {
            PieceType::NoPieceType => -1,
            _ => self.index() as i32,
        }
    }
}

#[derive(Debug, Clone, Copy, PartialEq, Eq, Structural)]
pub enum Piece {
    NoPiece,
    WPawn,
    WKnight,
    WBishop,
    WRook,
    WQueen,
    WKing,
    BPawn,
    BKnight,
    BBishop,
    BRook,
    BQueen,
    BKing,
}

impl Piece {
    /// Packed value: 8 * color + type, 0 for no piece.
    pub open spec fn idx(self) -> int {
        match self {
            Piece::NoPiece => 0,
            Piece::WPawn => 1,
            Piece::WKnight => 2,
            Piece::WBishop => 3,
            Piece::WRook => 4,
            Piece::WQueen => 5,
            Piece::WKing => 6,
            Piece::BPawn => 9,
            Piece::BKnight => 10,
            Piece::BBishop => 11,
            Piece::BRook => 12,
            Piece::BQueen => 13,
            Piece::BKing => 14,
        }
    }

    pub open spec fn ptype(self) -> PieceType {
        match self {
            Piece::NoPiece => PieceType::NoPieceType,
            Piece::WPawn | Piece::BPawn => PieceType::Pawn,
            Piece::WKnight | Piece::BKnight => PieceType::Knight,
            Piece::WBishop | Piece::BBishop => PieceType::Bishop,
            Piece::WRook | Piece::BRook => PieceType::Rook,
            Piece::WQueen | Piece::BQueen => PieceType::Queen,
            Piece::WKing | Piece::BKing => PieceType::King,
        }
    }

    /// Color of a real piece (White for `NoPiece`, which has none).
    pub open spec fn pcolor(self) -> Color {
        if self.idx() >= 8 {
            Color::Black
        } else {
            Color::White
        }
    }

    pub fn index(&self) -> (r: usize)
        ensures
            r == self.idx(),
    {
        match self {
            Piece::NoPiece => 0,
            Piece::WPawn => 1,
            Piece::WKnight => 2,
            Piece::WBishop => 3,
            Piece::WRook => 4,
            Piece::WQueen => 5,
            Piece::WKing => 6,
            Piece::BPawn => 9,
            Piece::BKnight => 10,
            Piece::BBishop => 11,
            Piece::BRook => 12,
            Piece::BQueen => 13,
            Piece::BKing => 14,
        }
    }

    pub fn type_of(&self) -> (r: PieceType)
        ensures
            r == self.ptype(),
    {
        match self {
            Piece::NoPiece => PieceType::NoPieceType,
            Piece::WPawn | Piece::BPawn => PieceType::Pawn,
            Piece::WKnight | Piece::BKnight => PieceType::Knight,
            Piece::WBishop | Piece::BBishop => PieceType::Bishop,
            Piece::WRook | Piece::BRook => PieceType::Rook,
            Piece::WQueen | Piece::BQueen => PieceType::Queen,
            Piece::WKing | Piece::BKing => PieceType::King,
        }
    }

    pub fn color(&self) -> (r: Color)
        requires
            *self != Piece::NoPiece,
        ensures
            r == self.pcolor(),
    {
        match self {
            Piece::BPawn | Piece::BKnight | Piece::BBishop | Piece::BRook | Piece::BQueen
            | Piece::BKing => Color::Black,
            _ => Color::White,
        }
    }

    /// The piece whose packed value is `i`.
    pub fn new_from_n(i: usize) -> (r: Piece)
        requires
            i <= 6 || 9 <= i <= 14,
        ensures
            r.idx() == i,
    {
        match i {
            0 => Piece::NoPiece,
            1 => Piece::WPawn,
            2 => Piece::WKnight,
            3 => Piece::WBishop,
            4 => Piece::WRook,
            5 => Piece::WQueen,
            6 => Piece::WKing,
            9 => Piece::BPawn,
            10 => Piece::BKnight,
            11 => Piece::BBishop,
            12 => Piece::BRook,
            13 => Piece::BQueen,
            _ => Piece::BKing,
        }
    }

    /// The same piece type in the other color.
    pub open spec fn swapped(self) -> Piece {
        make_piece_spec(self.pcolor().flip(), self.ptype())
    }
}

impl core::ops::Not for Piece {
    type Output = Piece;

    fn not(self) -> Piece {
        make_piece(self.color().opposite(), self.type_of())
    }
}

impl vstd::std_specs::ops::NotSpecImpl for Piece {
    open spec fn obeys_not_spec() -> bool {
        true
    }

    open spec fn not_req(self) -> bool {
        self != Piece::NoPiece
    }

    open spec fn not_spec(self) -> Piece {
        self.swapped()
    }
}

pub open spec fn make_piece_spec(c: Color, pt: PieceType) -> Piece {
    match (c, pt) {
        (Color::White, PieceType::Pawn) => Piece::WPawn,
        (Color::White, PieceType::Knight) => Piece::WKnight,
        (Color::White, PieceType::Bishop) => Piece::WBishop,
        (Color::White, PieceType::Rook) => Piece::WRook,
        (Color::White, PieceType::Queen) => Piece::WQueen,
        (Color::White, PieceType::King) => Piece::WKing,
        (Color::Black, PieceType::Pawn) => Piece::BPawn,
        (Color::Black, PieceType::Knight) => Piece::BKnight,
        (Color::Black, PieceType::Bishop) => Piece::BBishop,
        (Color::Black, PieceType::Rook) => Piece::BRook,
        (Color::Black, PieceType::Queen) => Piece::BQueen,
        (Color::Black, PieceType::King) => Piece::BKing,
        _ => Piece::NoPiece,
    }
}

/// The piece of color `c` and type `pt`.
pub fn make_piece(c: Color, pt: PieceType) -> (r: Piece)
    requires
        pt.is_real(),
    ensures
        r == make_piece_spec(c, pt),
        r.ptype() == pt,
        r.pcolor() == c,
        r != Piece::NoPiece,
{
    match c {
        Color::White => make_white_piece(pt),
        Color::Black => make_black_piece(pt),
    }
}

pub fn make_white_piece(pt: PieceType) -> (r: Piece)
    requires
        pt.is_real(),
    ensures
        r == make_piece_spec(Color::White, pt),
{
    match pt {
        PieceType::Pawn => Piece::WPawn,
        PieceType::Knight => Piece::WKnight,
        PieceType::Bishop => Piece::WBishop,
        PieceType::Rook => Piece::WRook,
        PieceType::Queen => Piece::WQueen,
        _ => Piece::WKing,
    }
}

pub fn make_black_piece(pt: PieceType) -> (r: Piece)
    requires
        pt.is_real(),
    ensures
        r == make_piece_spec(Color::Black, pt),
{
    match pt {
        PieceType::Pawn => Piece::BPawn,
        PieceType::Knight => Piece::BKnight,
        PieceType::Bishop => Piece::BBishop,
        PieceType::Rook => Piece::BRook,
        PieceType::Queen => Piece::BQueen,
        _ => Piece::BKing,
    }
}

/// The material value of a piece; kings and empty squares count 0.
pub fn piece_value(pc: Piece) -> (r: Value)
    ensures
        r == piece_value_spec(pc),
{
    match pc.type_of() {
        PieceType::Pawn => PAWN_VALUE,
        PieceType::Knight => KNIGHT_VALUE,
        PieceType::Bishop => BISHOP_VALUE,
        PieceType::Rook => ROOK_VALUE,
        PieceType::Queen => QUEEN_VALUE,
        _ => VALUE_ZERO,
    }
}

pub open spec fn piece_value_spec(pc: Piece) -> int {
    match pc.ptype() {
        PieceType::Pawn => PAWN_VALUE as int,
        PieceType::Knight => KNIGHT_VALUE as int,
        PieceType::Bishop => BISHOP_VALUE as int,
        PieceType::Rook => ROOK_VALUE as int,
        PieceType::Queen => QUEEN_VALUE as int,
        _ => 0,
    }
}

#[derive(Debug, Clone, Copy, PartialEq, Eq, Structural)]
pub enum Direction {
    North,
    East,
    South,
    West,
    NorthWest,
    NorthEast,
    SouthEast,
    SouthWest,
}

pub open spec fn is_direction_num(n: int) -> bool {
    n == 8 || n == 1 || n == -8 || n == -1 || n == 7 || n == 9 || n == -7 || n == -9
}

impl Direction {
    /// The step, in square numbers, of one move in this direction.
    pub open spec fn num(self) -> int {
        match self {
            Direction::North => 8,
            Direction::East => 1,
            Direction::South => -8,
            Direction::West => -1,
            Direction::NorthWest => 7,
            Direction::NorthEast => 9,
            Direction::SouthEast => -7,
            Direction::SouthWest => -9,
        }
    }

    pub fn to_num(&self) -> (r: i32)
        ensures
            r == self.num(),
    {
        match self {
            Direction::North => 8,
            Direction::East => 1,
            Direction::South => -8,
            Direction::West => -1,
            Direction::NorthWest => 7,
            Direction::NorthEast => 9,
            Direction::SouthEast => -7,
            Direction::SouthWest => -9,
        }
    }

    pub fn from_num(n: i32) -> (r: Direction)
        requires
            is_direction_num(n as int),
        ensures
            r.num() == n,
    {
        match n {
            8 => Direction::North,
            1 => Direction::East,
            -8 => Direction::South,
            -1 => Direction::West,
            7 => Direction::NorthWest,
            9 => Direction::NorthEast,
            -7 => Direction::SouthEast,
            _ => Direction::SouthWest,
        }
    }
}

impl core::ops::Add<Direction> for Direction {
    type Output = Direction;

    fn add(self, rhs: Direction) -> Direction {
        Direction::from_num(self.to_num() + rhs.to_num())
    }
}

impl vstd::std_specs::ops::AddSpecImpl<Direction> for Direction {
    open spec fn obeys_add_spec() -> bool {
        true
    }

    open spec fn add_req(self, rhs: Direction) -> bool {
        is_direction_num(self.num() + rhs.num())
    }

    open spec fn add_spec(self, rhs: Direction) -> Direction {
        choose|d: Direction| d.num() == self.num() + rhs.num()
    }
}

impl core::ops::Sub<Direction> for Direction {
    type Output = Direction;

    fn sub(self, rhs: Direction) -> Direction {
        Direction::from_num(self.to_num() - rhs.to_num())
    }
}

impl vstd::std_specs::ops::SubSpecImpl<Direction> for Direction {
    open spec fn obeys_sub_spec() -> bool {
        true
    }

    open spec fn sub_req(self, rhs: Direction) -> bool {
        is_direction_num(self.num() - rhs.num())
    }

    open spec fn sub_spec(self, rhs: Direction) -> Direction {
        choose|d: Direction| d.num() == self.num() - rhs.num()
    }
}

impl core::ops::Mul<i32> for Direction {
    type Output = i32;

    fn mul(self, rhs: i32) -> i32 {
        rhs * self.to_num()
    }
}

impl vstd::std_specs::ops::MulSpecImpl<i32> for Direction {
    open spec fn obeys_mul_spec() -> bool {
        true
    }

    open spec fn mul_req(self, rhs: i32) -> bool {
        -1000000 <= rhs <= 1000000
    }

    open spec fn mul_spec(self, rhs: i32) -> i32 {
        (rhs * self.num()) as i32
    }
}

#[derive(Debug, Clone, Copy, PartialEq, Eq, Structural)]
pub enum File {
    FileA,
    FileB,
    FileC,
    FileD,
    FileE,
    FileF,
    FileG,
    FileH,
}

impl File {
    pub open spec fn idx(self) -> int {
        match self {
            File::FileA => 0,
            File::FileB => 1,
            File::FileC => 2,
            File::FileD => 3,
            File::FileE => 4,
            File::FileF => 5,
            File::FileG => 6,
            File::FileH => 7,
        }
    }

    pub fn index(&self) -> (r: usize)
        ensures
            r == self.idx(),
    {
        match self {
            File::FileA => 0,
            File::FileB => 1,
            File::FileC => 2,
            File::FileD => 3,
            File::FileE => 4,
            File::FileF => 5,
            File::FileG => 6,
            File::FileH => 7,
        }
    }

    pub fn new_from_n(n: usize) -> (r: File)
        requires
            n < 8,
        ensures
            r.idx() == n,
    {
        match n {
            0 => File::FileA,
            1 => File::FileB,
            2 => File::FileC,
            3 => File::FileD,
            4 => File::FileE,
            5 => File::FileF,
            6 => File::FileG,
            _ => File::FileH,
        }
    }
}

#[derive(Debug, Clone, Copy, PartialEq, Eq, Structural)]
pub enum Rank {
    Rank1,
    Rank2,
    Rank3,
    Rank4,
    Rank5,
    Rank6,
    Rank7,
    Rank8,
}

impl Rank {
    pub open spec fn idx(self) -> int {
        match self {
            Rank::Rank1 => 0,
            Rank::Rank2 => 1,
            Rank::Rank3 => 2,
            Rank::Rank4 => 3,
            Rank::Rank5 => 4,
            Rank::Rank6 => 5,
            Rank::Rank7 => 6,
            Rank::Rank8 => 7,
        }
    }

    pub fn index(&self) -> (r: usize)
        ensures
            r == self.idx(),
    {
        match self {
            Rank::Rank1 => 0,
            Rank::Rank2 => 1,
            Rank::Rank3 => 2,
            Rank::Rank4 => 3,
            Rank::Rank5 => 4,
            Rank::Rank6 => 5,
            Rank::Rank7 => 6,
            Rank::Rank8 => 7,
        }
    }

    pub fn new_from_n(n: usize) -> (r: Rank)
        requires
            n < 8,
        ensures
            r.idx() == n,
    {
        match n {
            0 => Rank::Rank1,
            1 => Rank::Rank2,
            2 => Rank::Rank3,
            3 => Rank::Rank4,
            4 => Rank::Rank5,
            5 => Rank::Rank6,
            6 => Rank::Rank7,
            _ => Rank::Rank8,
        }
    }
}

#[derive(Debug, Clone, Copy, PartialEq, Eq, Structural)]
pub enum Square {
    SqA1,
    SqB1,
    SqC1,
    SqD1,
    SqE1,
    SqF1,
    SqG1,
    SqH1,
    SqA2,
    SqB2,
    SqC2,
    SqD2,
    SqE2,
    SqF2,
    SqG2,
    SqH2,
    SqA3,
    SqB3,
    SqC3,
    SqD3,
    SqE3,
    SqF3,
    SqG3,
    SqH3,
    SqA4,
    SqB4,
    SqC4,
    SqD4,
    SqE4,
    SqF4,
    SqG4,
    SqH4,
    SqA5,
    SqB5,
    SqC5,
    SqD5,
    SqE5,
    SqF5,
    SqG5,
    SqH5,
    SqA6,
    SqB6,
    SqC6,
    SqD6,
    SqE6,
    SqF6,
    SqG6,
    SqH6,
    SqA7,
    SqB7,
    SqC7,
    SqD7,
    SqE7,
    SqF7,
    SqG7,
    SqH7,
    SqA8,
    SqB8,
    SqC8,
    SqD8,
    SqE8,
    SqF8,
    SqG8,
    SqH8,
    SqNone,
}

impl Square {
    /// The square numbered `n`, `SqNone` off the board.
    pub open spec fn from_idx(n: int) -> Square {
        if !(0 <= n < 64) {
            Square::SqNone
        } else if n / 8 == 0 {
            Square::on_rank1(n % 8)
        } else if n / 8 == 1 {
            Square::on_rank2(n % 8)
        } else if n / 8 == 2 {
            Square::on_rank3(n % 8)
        } else if n / 8 == 3 {
            Square::on_rank4(n % 8)
        } else if n / 8 == 4 {
            Square::on_rank5(n % 8)
        } else if n / 8 == 5 {
            Square::on_rank6(n % 8)
        } else if n / 8 == 6 {
            Square::on_rank7(n % 8)
        } else if n / 8 == 7 {
            Square::on_rank8(n % 8)
        } else {
            Square::SqNone
        }
    }

    pub open spec fn on_rank1(f: int) -> Square {
        if f == 0 {
            Square::SqA1
        } else if f == 1 {
            Square::SqB1
        } else if f == 2 {
            Square::SqC1
        } else if f == 3 {
            Square::SqD1
        } else if f == 4 {
            Square::SqE1
        } else if f == 5 {
            Square::SqF1
        } else if f == 6 {
            Square::SqG1
        } else {
            Square::SqH1
        }
    }

    pub open spec fn on_rank2(f: int) -> Square {
        if f == 0 {
            Square::SqA2
        } else if f == 1 {
            Square::SqB2
        } else if f == 2 {
            Square::SqC2
        } else if f == 3 {
            Square::SqD2
        } else if f == 4 {
            Square::SqE2
        } else if f == 5 {
            Square::SqF2
        } else if f == 6 {
            Square::SqG2
        } else {
            Square::SqH2
        }
    }

    pub open spec fn on_rank3(f: int) -> Square {
        if f == 0 {
            Square::SqA3
        } else if f == 1 {
            Square::SqB3
        } else if f == 2 {
            Square::SqC3
        } else if f == 3 {
            Square::SqD3
        } else if f == 4 {
            Square::SqE3
        } else if f == 5 {
            Square::SqF3
        } else if f == 6 {
            Square::SqG3
        } else {
            Square::SqH3
        }
    }

    pub open spec fn on_rank4(f: int) -> Square {
        if f == 0 {
            Square::SqA4
        } else if f == 1 {
            Square::SqB4
        } else if f == 2 {
            Square::SqC4
        } else if f == 3 {
            Square::SqD4
        } else if f == 4 {
            Square::SqE4
        } else if f == 5 {
            Square::SqF4
        } else if f == 6 {
            Square::SqG4
        } else {
            Square::SqH4
        }
    }

    pub open spec fn on_rank5(f: int) -> Square {
        if f == 0 {
            Square::SqA5
        } else if f == 1 {
            Square::SqB5
        } else if f == 2 {
            Square::SqC5
        } else if f == 3 {
            Square::SqD5
        } else if f == 4 {
            Square::SqE5
        } else if f == 5 {
            Square::SqF5
        } else if f == 6 {
            Square::SqG5
        } else {
            Square::SqH5
        }
    }

    pub open spec fn on_rank6(f: int) -> Square {
        if f == 0 {
            Square::SqA6
        } else if f == 1 {
            Square::SqB6
        } else if f == 2 {
            Square::SqC6
        } else if f == 3 {
            Square::SqD6
        } else if f == 4 {
            Square::SqE6
        } else if f == 5 {
            Square::SqF6
        } else if f == 6 {
            Square::SqG6
        } else {
            Square::SqH6
        }
    }

    pub open spec fn on_rank7(f: int) -> Square {
        if f == 0 {
            Square::SqA7
        } else if f == 1 {
            Square::SqB7
        } else if f == 2 {
            Square::SqC7
        } else if f == 3 {
            Square::SqD7
        } else if f == 4 {
            Square::SqE7
        } else if f == 5 {
            Square::SqF7
        } else if f == 6 {
            Square::SqG7
        } else {
            Square::SqH7
        }
    }

    pub open spec fn on_rank8(f: int) -> Square {
        if f == 0 {
            Square::SqA8
        } else if f == 1 {
            Square::SqB8
        } else if f == 2 {
            Square::SqC8
        } else if f == 3 {
            Square::SqD8
        } else if f == 4 {
            Square::SqE8
        } else if f == 5 {
            Square::SqF8
        } else if f == 6 {
            Square::SqG8
        } else {
            Square::SqH8
        }
    }

    /// The square's number: file + 8 * rank, and 64 for `SqNone`.
    pub open spec fn idx(self) -> int {
        match self {
            Square::SqA1 => 0,
            Square::SqB1 => 1,
            Square::SqC1 => 2,
            Square::SqD1 => 3,
            Square::SqE1 => 4,
            Square::SqF1 => 5,
            Square::SqG1 => 6,
            Square::SqH1 => 7,
            Square::SqA2 => 8,
            Square::SqB2 => 9,
            Square::SqC2 => 10,
            Square::SqD2 => 11,
            Square::SqE2 => 12,
            Square::SqF2 => 13,
            Square::SqG2 => 14,
            Square::SqH2 => 15,
            Square::SqA3 => 16,
            Square::SqB3 => 17,
            Square::SqC3 => 18,
            Square::SqD3 => 19,
            Square::SqE3 => 20,
            Square::SqF3 => 21,
            Square::SqG3 => 22,
            Square::SqH3 => 23,
            Square::SqA4 => 24,
            Square::SqB4 => 25,
            Square::SqC4 => 26,
            Square::SqD4 => 27,
            Square::SqE4 => 28,
            Square::SqF4 => 29,
            Square::SqG4 => 30,
            Square::SqH4 => 31,
            Square::SqA5 => 32,
            Square::SqB5 => 33,
            Square::SqC5 => 34,
            Square::SqD5 => 35,
            Square::SqE5 => 36,
            Square::SqF5 => 37,
            Square::SqG5 => 38,
            Square::SqH5 => 39,
            Square::SqA6 => 40,
            Square::SqB6 => 41,
            Square::SqC6 => 42,
            Square::SqD6 => 43,
            Square::SqE6 => 44,
            Square::SqF6 => 45,
            Square::SqG6 => 46,
            Square::SqH6 => 47,
            Square::SqA7 => 48,
            Square::SqB7 => 49,
            Square::SqC7 => 50,
            Square::SqD7 => 51,
            Square::SqE7 => 52,
            Square::SqF7 => 53,
            Square::SqG7 => 54,
            Square::SqH7 => 55,
            Square::SqA8 => 56,
            Square::SqB8 => 57,
            Square::SqC8 => 58,
            Square::SqD8 => 59,
            Square::SqE8 => 60,
            Square::SqF8 => 61,
            Square::SqG8 => 62,
            Square::SqH8 => 63,
            Square::SqNone => 64,
        }
    }

    /// The square's number, 64 for `SqNone`.
    pub fn index(&self) -> (r: usize)
        ensures
            r == self.idx(),
    {
        match self {
            Square::SqA1 => 0,
            Square::SqB1 => 1,
            Square::SqC1 => 2,
            Square::SqD1 => 3,
            Square::SqE1 => 4,
            Square::SqF1 => 5,
            Square::SqG1 => 6,
            Square::SqH1 => 7,
            Square::SqA2 => 8,
            Square::SqB2 => 9,
            Square::SqC2 => 10,
            Square::SqD2 => 11,
            Square::SqE2 => 12,
            Square::SqF2 => 13,
            Square::SqG2 => 14,
            Square::SqH2 => 15,
            Square::SqA3 => 16,
            Square::SqB3 => 17,
            Square::SqC3 => 18,
            Square::SqD3 => 19,
            Square::SqE3 => 20,
            Square::SqF3 => 21,
            Square::SqG3 => 22,
            Square::SqH3 => 23,
            Square::SqA4 => 24,
            Square::SqB4 => 25,
            Square::SqC4 => 26,
            Square::SqD4 => 27,
            Square::SqE4 => 28,
            Square::SqF4 => 29,
            Square::SqG4 => 30,
            Square::SqH4 => 31,
            Square::SqA5 => 32,
            Square::SqB5 => 33,
            Square::SqC5 => 34,
            Square::SqD5 => 35,
            Square::SqE5 => 36,
            Square::SqF5 => 37,
            Square::SqG5 => 38,
            Square::SqH5 => 39,
            Square::SqA6 => 40,
            Square::SqB6 => 41,
            Square::SqC6 => 42,
            Square::SqD6 => 43,
            Square::SqE6 => 44,
            Square::SqF6 => 45,
            Square::SqG6 => 46,
            Square::SqH6 => 47,
            Square::SqA7 => 48,
            Square::SqB7 => 49,
            Square::SqC7 => 50,
            Square::SqD7 => 51,
            Square::SqE7 => 52,
            Square::SqF7 => 53,
            Square::SqG7 => 54,
            Square::SqH7 => 55,
            Square::SqA8 => 56,
            Square::SqB8 => 57,
            Square::SqC8 => 58,
            Square::SqD8 => 59,
            Square::SqE8 => 60,
            Square::SqF8 => 61,
            Square::SqG8 => 62,
            Square::SqH8 => 63,
            Square::SqNone => 64,
        }
    }

    /// The square with number `n`, or `SqNone` when `n` is off the board.
    pub fn new_from_n(n: i32) -> (r: Square)
        ensures
            r == Square::from_idx(n as int),
            0 <= n < 64 ==> r.idx() == n,
            !(0 <= n < 64) ==> r == Square::SqNone,
    {
        match n {
            0 => Square::SqA1,
            1 => Square::SqB1,
            2 => Square::SqC1,
            3 => Square::SqD1,
            4 => Square::SqE1,
            5 => Square::SqF1,
            6 => Square::SqG1,
            7 => Square::SqH1,
            8 => Square::SqA2,
            9 => Square::SqB2,
            10 => Square::SqC2,
            11 => Square::SqD2,
            12 => Square::SqE2,
            13 => Square::SqF2,
            14 => Square::SqG2,
            15 => Square::SqH2,
            16 => Square::SqA3,
            17 => Square::SqB3,
            18 => Square::SqC3,
            19 => Square::SqD3,
            20 => Square::SqE3,
            21 => Square::SqF3,
            22 => Square::SqG3,
            23 => Square::SqH3,
            24 => Square::SqA4,
            25 => Square::SqB4,
            26 => Square::SqC4,
            27 => Square::SqD4,
            28 => Square::SqE4,
            29 => Square::SqF4,
            30 => Square::SqG4,
            31 => Square::SqH4,
            32 => Square::SqA5,
            33 => Square::SqB5,
            34 => Square::SqC5,
            35 => Square::SqD5,
            36 => Square::SqE5,
            37 => Square::SqF5,
            38 => Square::SqG5,
            39 => Square::SqH5,
            40 => Square::SqA6,
            41 => Square::SqB6,
            42 => Square::SqC6,
            43 => Square::SqD6,
            44 => Square::SqE6,
            45 => Square::SqF6,
            46 => Square::SqG6,
            47 => Square::SqH6,
            48 => Square::SqA7,
            49 => Square::SqB7,
            50 => Square::SqC7,
            51 => Square::SqD7,
            52 => Square::SqE7,
            53 => Square::SqF7,
            54 => Square::SqG7,
            55 => Square::SqH7,
            56 => Square::SqA8,
            57 => Square::SqB8,
            58 => Square::SqC8,
            59 => Square::SqD8,
            60 => Square::SqE8,
            61 => Square::SqF8,
            62 => Square::SqG8,
            63 => Square::SqH8,
            _ => Square::SqNone,
        }
    }

    pub open spec fn is_on_board(self) -> bool {
        self != Square::SqNone
    }

    pub open spec fn file_n(self) -> int {
        self.idx() % 8
    }

    pub open spec fn rank_n(self) -> int {
        self.idx() / 8
    }

    /// The square mirrored top to bottom.
    pub fn flip_rank(&self) -> (r: Square)
        requires
            self.is_on_board(),
        ensures
            r.idx() == (7 - self.rank_n()) * 8 + self.file_n(),
    {
        let i = self.index();
        Square::new_from_n(((7 - i / 8) * 8 + i % 8) as i32)
    }

    /// The square mirrored left to right.
    pub fn flip_file(&self) -> (r: Square)
        requires
            self.is_on_board(),
        ensures
            r.idx() == self.rank_n() * 8 + 7 - self.file_n(),
    {
        let i = self.index();
        Square::new_from_n(((i / 8) * 8 + 7 - i % 8) as i32)
    }

    pub fn file_of(&self) -> (r: File)
        requires
            self.is_on_board(),
        ensures
            r.idx() == self.file_n(),
    {
        File::new_from_n(self.index() % 8)
    }

    pub fn rank_of(&self) -> (r: Rank)
        requires
            self.is_on_board(),
        ensures
            r.idx() == self.rank_n(),
    {
        Rank::new_from_n(self.index() / 8)
    }

    /// The rank of the square as seen from color `c`'s side of the board.
    pub fn relative_rank(&self, c: Color) -> (r: Rank)
        requires
            self.is_on_board(),
        ensures
            r.idx() == relative_rank_n(c, self.rank_n()),
    {
        relative_rank(c, self.rank_of())
    }

    /// The one-square set.
    pub fn bb(&self) -> (r: Bitboard)
        requires
            self.is_on_board(),
        ensures
            r == 1u64 << (self.idx() as u64),
    {
        1u64 << (self.index() as u64)
    }

    /// The set of all squares on this square's rank.
    pub fn rank_bb(&self) -> (r: Bitboard)
        requires
            self.is_on_board(),
        ensures
            r == RANK1_BB << ((8 * self.rank_n()) as u64),
    {
        RANK1_BB << (8 * (self.index() / 8)) as u64
    }

    /// The set of all squares on this square's file.
    pub fn file_bb(&self) -> (r: Bitboard)
        requires
            self.is_on_board(),
        ensures
            r == FILEA_BB << (self.file_n() as u64),
    {
        FILEA_BB << (self.index() % 8) as u64
    }

    pub fn rank_distance_from(&self, s: Square) -> (r: i32)
        requires
            self.is_on_board(),
            s.is_on_board(),
        ensures
            r == abs_int(self.rank_n() - s.rank_n()),
    {
        let d = (self.index() / 8) as i32 - (s.index() / 8) as i32;
        if d < 0 {
            -d
        } else {
            d
        }
    }

    pub fn file_distance_from(&self, s: Square) -> (r: i32)
        requires
            self.is_on_board(),
            s.is_on_board(),
        ensures
            r == abs_int(self.file_n() - s.file_n()),
    {
        let d = (self.index() % 8) as i32 - (s.index() % 8) as i32;
        if d < 0 {
            -d
        } else {
            d
        }
    }

    pub fn is_square_valid(square: i32) -> (r: bool)
        ensures
            r == (0 <= square < 64),
    {
        0 <= square && square < 64
    }

    /// The square as seen from color `c`'s side: itself for White, mirrored for Black.
    pub fn relative_square(&self, c: Color) -> (r: Square)
        requires
            self.is_on_board(),
        ensures
            c == Color::White ==> r == *self,
            c == Color::Black ==> r.idx() == (7 - self.rank_n()) * 8 + self.file_n(),
    {
        match c {
            Color::White => *self,
            Color::Black => self.flip_rank(),
        }
    }
}

pub open spec fn abs_int(x: int) -> int {
    if x < 0 {
        -x
    } else {
        x
    }
}

/// The square reached from square number `n` by a step of `d`, or `SqNone`.
pub open spec fn step_square(n: int, d: int) -> Square {
    Square::from_idx(n + d)
}

impl core::ops::Add<Direction> for Square {
    type Output = Square;

    fn add(self, rhs: Direction) -> Square {
        Square::new_from_n(self.index() as i32 + rhs.to_num())
    }
}

impl vstd::std_specs::ops::AddSpecImpl<Direction> for Square {
    open spec fn obeys_add_spec() -> bool {
        true
    }

    open spec fn add_req(self, rhs: Direction) -> bool {
        true
    }

    open spec fn add_spec(self, rhs: Direction) -> Square {
        step_square(self.idx(), rhs.num())
    }
}

impl core::ops::Sub<Direction> for Square {
    type Output = Square;

    fn sub(self, rhs: Direction) -> Square {
        Square::new_from_n(self.index() as i32 - rhs.to_num())
    }
}

impl vstd::std_specs::ops::SubSpecImpl<Direction> for Square {
    open spec fn obeys_sub_spec() -> bool {
        true
    }

    open spec fn sub_req(self, rhs: Direction) -> bool {
        true
    }

    open spec fn sub_spec(self, rhs: Direction) -> Square {
        step_square(self.idx(), -rhs.num())
    }
}

impl core::ops::AddAssign<Direction> for Square {
    fn add_assign(&mut self, rhs: Direction) {
        *self = Square::new_from_n(self.index() as i32 + rhs.to_num());
    }
}

impl core::ops::SubAssign<Direction> for Square {
    fn sub_assign(&mut self, rhs: Direction) {
        *self = Square::new_from_n(self.index() as i32 - rhs.to_num());
    }
}

impl core::ops::BitAnd<Square> for u64 {
    type Output = u64;

    fn bitand(self, rhs: Square) -> u64 {
        self & square_bit(rhs)
    }
}

impl vstd::std_specs::ops::BitAndSpecImpl<Square> for u64 {
    open spec fn obeys_bitand_spec() -> bool {
        true
    }

    open spec fn bitand_req(self, rhs: Square) -> bool {
        rhs.is_on_board()
    }

    open spec fn bitand_spec(self, rhs: Square) -> u64 {
        self & (1u64 << (rhs.idx() as u64))
    }
}

impl core::ops::BitOr<Square> for u64 {
    type Output = u64;

    fn bitor(self, rhs: Square) -> u64 {
        self | square_bit(rhs)
    }
}

impl vstd::std_specs::ops::BitOrSpecImpl<Square> for u64 {
    open spec fn obeys_bitor_spec() -> bool {
        true
    }

    open spec fn bitor_req(self, rhs: Square) -> bool {
        rhs.is_on_board()
    }

    open spec fn bitor_spec(self, rhs: Square) -> u64 {
        self | (1u64 << (rhs.idx() as u64))
    }
}

impl core::ops::BitXor<Square> for u64 {
    type Output = u64;

    fn bitxor(self, rhs: Square) -> u64 {
        self ^ square_bit(rhs)
    }
}

impl vstd::std_specs::ops::BitXorSpecImpl<Square> for u64 {
    open spec fn obeys_bitxor_spec() -> bool {
        true
    }

    open spec fn bitxor_req(self, rhs: Square) -> bool {
        rhs.is_on_board()
    }

    open spec fn bitxor_spec(self, rhs: Square) -> u64 {
        self ^ (1u64 << (rhs.idx() as u64))
    }
}

/// The one-square set of `s`.
pub fn square_bit(s: Square) -> (r: Bitboard)
    requires
        s.is_on_board(),
    ensures
        r == 1u64 << (s.idx() as u64),
{
    s.bb()
}

pub open spec fn relative_rank_n(c: Color, r: int) -> int {
    match c {
        Color::White => r,
        Color::Black => 7 - r,
    }
}

/// The rank `rank` as seen from color `color`'s side.
pub fn relative_rank(color: Color, rank: Rank) -> (r: Rank)
    ensures
        r.idx() == relative_rank_n(color, rank.idx()),
{
    match color {
        Color::White => rank,
        Color::Black => Rank::new_from_n(7 - rank.index()),
    }
}

pub fn relative_rank_of_square(c: Color, s: Square) -> (r: Rank)
    requires
        s.is_on_board(),
    ensures
        r.idx() == relative_rank_n(c, s.rank_n()),
{
    relative_rank(c, s.rank_of())
}

/// The square on file `f` and rank `r`.
pub fn make_square(f: usize, r: usize) -> (s: Square)
    requires
        f < 8,
        r < 8,
    ensures
        s.idx() == 8 * r + f,
{
    Square::new_from_n((8 * r + f) as i32)
}

pub fn is_file_valid(s: i32) -> (r: bool)
    ensures
        r == (0 <= s < 8),
{
    0 <= s && s < 8
}

pub fn is_rank_valid(s: i32) -> (r: bool)
    ensures
        r == (0 <= s < 8),
{
    0 <= s && s < 8
}

/// The direction in which pawns of `color` advance.
pub fn pawn_push(color: Color) -> (r: Direction)
    ensures
        color == Color::White ==> r == Direction::North,
        color == Color::Black ==> r == Direction::South,
{
    match color {
        Color::White => Direction::North,
        Color::Black => Direction::South,
    }
}

pub open spec fn pawn_push_n(c: Color) -> int {
    match c {
        Color::White => 8,
        Color::Black => -8,
    }
}

/// A linear-congruential scramble of `seed` (mod 2^64).
pub fn make_key(seed: u64) -> (r: Key)
    ensures
        r as int == (seed as int * 6364136223846793005 + 1442695040888963407) % 0x10000000000000000,
{
    let r = seed.wrapping_mul(6364136223846793005u64).wrapping_add(1442695040888963407u64);
    assert(r as int == (seed as int * 6364136223846793005 + 1442695040888963407) % 0x10000000000000000) by (nonlinear_arith)
        requires
            r as int == ((seed as int * 6364136223846793005) % 0x10000000000000000 + 1442695040888963407) % 0x10000000000000000,
    {
    }
    r
}

/// Score of delivering mate in `ply` plies.
pub fn mate_in(ply: i32) -> (r: Value)
    requires
        ply >= VALUE_MATE - 0x7fff_ffff,
    ensures
        r == VALUE_MATE - ply,
{
    VALUE_MATE - ply
}

/// Score of being mated in `ply` plies.
pub fn mated_in(ply: i32) -> (r: Value)
    requires
        ply >= -0x8000_0000 + VALUE_MATE,
    ensures
        r == -VALUE_MATE + ply,
{
    -VALUE_MATE + ply
}

#[derive(Debug, Clone, Copy, PartialEq, Eq, Structural)]
pub enum MoveType {
    Normal,
    Promotion,
    EnPassant,
    Castling,
}

impl MoveType {
    /// The move type's value in the top two bits of a packed move.
    pub open spec fn flag(self) -> int {
        match self {
            MoveType::Normal => 0,
            MoveType::Promotion => 1,
            MoveType::EnPassant => 2,
            MoveType::Castling => 3,
        }
    }

    /// The move type's bits within a packed move.
    pub fn bits(&self) -> (r: u16)
        ensures
            r == self.flag() * 0x4000,
    {
        match self {
            MoveType::Normal => 0,
            MoveType::Promotion => 0x4000,
            MoveType::EnPassant => 0x8000,
            MoveType::Castling => 0xC000,
        }
    }
}

/// Whether `data` is the bit pattern of a move type.
pub fn is_valid_move_type(data: u16) -> (r: bool)
    ensures
        r == (data == 0 || data == 0x4000 || data == 0x8000 || data == 0xC000),
{
    data == 0 || data == 0x4000 || data == 0x8000 || data == 0xC000
}

#[derive(Debug, Clone, Copy, PartialEq, Eq, Structural)]
pub enum CastlingRights {
    NoCastling,
    WhiteOO,
    WhiteOOO,
    BlackOO,
    BlackOOO,
    KingSide,
    QueenSide,
    WhiteCastling,
    BlackCastling,
    AnyCastling,
    CastlingRightsNb,
}

pub open spec fn is_castling_rights_num(n: int) -> bool {
    n == 0 || n == 1 || n == 2 || n == 4 || n == 8 || n == 5 || n == 10 || n == 3 || n == 12
        || n == 15 || n == 16
}

impl CastlingRights {
    /// The rights as a bit set: bit 0 white king side, 1 white queen side,
    /// 2 black king side, 3 black queen side.
    pub open spec fn num(self) -> int {
        match self {
            CastlingRights::NoCastling => 0,
            CastlingRights::WhiteOO => 1,
            CastlingRights::WhiteOOO => 2,
            CastlingRights::BlackOO => 4,
            CastlingRights::BlackOOO => 8,
            CastlingRights::KingSide => 5,
            CastlingRights::QueenSide => 10,
            CastlingRights::WhiteCastling => 3,
            CastlingRights::BlackCastling => 12,
            CastlingRights::AnyCastling => 15,
            CastlingRights::CastlingRightsNb => 16,
        }
    }

    pub fn bits(&self) -> (r: i32)
        ensures
            r == self.num(),
    {
        match self {
            CastlingRights::NoCastling => 0,
            CastlingRights::WhiteOO => 1,
            CastlingRights::WhiteOOO => 2,
            CastlingRights::BlackOO => 4,
            CastlingRights::BlackOOO => 8,
            CastlingRights::KingSide => 5,
            CastlingRights::QueenSide => 10,
            CastlingRights::WhiteCastling => 3,
            CastlingRights::BlackCastling => 12,
            CastlingRights::AnyCastling => 15,
            CastlingRights::CastlingRightsNb => 16,
        }
    }

    /// The named set of rights whose bits are `n`.
    pub fn new_from_n(n: i32) -> (r: CastlingRights)
        requires
            is_castling_rights_num(n as int),
        ensures
            r.num() == n,
            r == castling_of_num(n as int),
    {
        match n {
            0 => CastlingRights::NoCastling,
            1 => CastlingRights::WhiteOO,
            2 => CastlingRights::WhiteOOO,
            4 => CastlingRights::BlackOO,
            8 => CastlingRights::BlackOOO,
            5 => CastlingRights::KingSide,
            10 => CastlingRights::QueenSide,
            3 => CastlingRights::WhiteCastling,
            12 => CastlingRights::BlackCastling,
            15 => CastlingRights::AnyCastling,
            _ => CastlingRights::CastlingRightsNb,
        }
    }

    /// The part of these rights that belongs to color `c`.
    pub fn of_color(&self, c: Color) -> (r: CastlingRights)
        ensures
            r.num() == (self.num() as u8 & color_castling_mask(c)) as int,
            r == castling_of_num((self.num() as u8 & color_castling_mask(c)) as int),
    {
        let m: u8 = match c {
            Color::White => 3,
            Color::Black => 12,
        };
        let b = self.bits() as u8;
        let v = b & m;
        assert(v == 0 || v == 1 || v == 2 || v == 4 || v == 8 || v == 5 || v == 10 || v == 3
            || v == 12 || v == 15 || v == 16) by (bit_vector)
            requires
                v == b & m,
                b == 0 || b == 1 || b == 2 || b == 4 || b == 8 || b == 5 || b == 10 || b == 3
                    || b == 12 || b == 15 || b == 16,
                m == 3 || m == 12,
        ;
        CastlingRights::new_from_n(v as i32)
    }
}

/// The castling-rights bits that belong to color `c`.
pub open spec fn color_castling_mask(c: Color) -> u8 {
    match c {
        Color::White => 3u8,
        Color::Black => 12u8,
    }
}

impl core::ops::BitAnd<Color> for CastlingRights {
    type Output = CastlingRights;

    fn bitand(self, rhs: Color) -> CastlingRights {
        self.of_color(rhs)
    }
}

impl vstd::std_specs::ops::BitAndSpecImpl<Color> for CastlingRights {
    open spec fn obeys_bitand_spec() -> bool {
        true
    }

    open spec fn bitand_req(self, rhs: Color) -> bool {
        true
    }

    open spec fn bitand_spec(self, rhs: Color) -> CastlingRights {
        castling_of_num((self.num() as u8 & color_castling_mask(rhs)) as int)
    }
}

impl vstd::std_specs::ops::BitAndSpecImpl<CastlingRights> for Color {
    open spec fn obeys_bitand_spec() -> bool {
        true
    }

    open spec fn bitand_req(self, rhs: CastlingRights) -> bool {
        true
    }

    open spec fn bitand_spec(self, rhs: CastlingRights) -> CastlingRights {
        castling_of_num((rhs.num() as u8 & color_castling_mask(self)) as int)
    }
}

/// The named set of castling rights whose bits are `n`.
pub open spec fn castling_of_num(n: int) -> CastlingRights {
    if n == 0 {
        CastlingRights::NoCastling
    } else if n == 1 {
        CastlingRights::WhiteOO
    } else if n == 2 {
        CastlingRights::WhiteOOO
    } else if n == 4 {
        CastlingRights::BlackOO
    } else if n == 8 {
        CastlingRights::BlackOOO
    } else if n == 5 {
        CastlingRights::KingSide
    } else if n == 10 {
        CastlingRights::QueenSide
    } else if n == 3 {
        CastlingRights::WhiteCastling
    } else if n == 12 {
        CastlingRights::BlackCastling
    } else if n == 15 {
        CastlingRights::AnyCastling
    } else {
        CastlingRights::CastlingRightsNb
    }
}

impl core::ops::BitAnd<CastlingRights> for Color {
    type Output = CastlingRights;

    fn bitand(self, rhs: CastlingRights) -> CastlingRights {
        rhs.of_color(self)
    }
}

proof fn lemma_move_fields(k: u16, p: u16, f: u16, t: u16)
    requires
        k < 4,
        p < 4,
        f < 64,
        t < 64,
    ensures
        ({
            let d = (k << 14) | (p << 12) | (f << 6) | t;
            &&& d % 64 == t
            &&& (d / 64) % 64 == f
            &&& d / 0x4000 == k
            &&& (d / 0x1000) % 4 == p
            &&& (d == 0 || d == 65) ==> f == t
            &&& p == 0 ==> d == k * 0x4000 + f * 64 + t
        }),
{
    assert(((k << 14) | (p << 12) | (f << 6) | t) % 64 == t && (p == 0 ==> ((k << 14) | (p << 12) | (f
        << 6) | t) == k * 0x4000 + f * 64 + t)) by (bit_vector)
        requires
            k < 4 && p < 4 && f < 64 && t < 64,
    ;
    assert((((k << 14) | (p << 12) | (f << 6) | t) / 64) % 64 == f) by (bit_vector)
        requires
            k < 4 && p < 4 && f < 64 && t < 64,
    ;
    assert(((k << 14) | (p << 12) | (f << 6) | t) / 0x4000 == k) by (bit_vector)
        requires
            k < 4 && p < 4 && f < 64 && t < 64,
    ;
    assert((((k << 14) | (p << 12) | (f << 6) | t) / 0x1000) % 4 == p) by (bit_vector)
        requires
            k < 4 && p < 4 && f < 64 && t < 64,
    ;
    assert((((k << 14) | (p << 12) | (f << 6) | t) == 0 || ((k << 14) | (p << 12) | (f << 6) | t)
        == 65) ==> f == t) by (bit_vector)
        requires
            k < 4 && p < 4 && f < 64 && t < 64,
    ;
}

/// Two moves with the same bits are the same move.
pub proof fn lemma_move_eq(a: Move, b: Move)
    requires
        a.raw_spec() == b.raw_spec(),
    ensures
        a == b,
{
}

/// A move packed in 16 bits: bits 0-5 the destination, 6-11 the origin,
/// 12-13 the promotion type (knight to queen), 14-15 the move type.
/// Two patterns are reserved: `null()` (0) and `none()` (65).
#[derive(Debug, Clone, Copy, PartialEq, Eq, Structural)]
pub struct Move {
    data: u16,
}

impl Move {
    pub closed spec fn raw_spec(self) -> u16 {
        self.data
    }

    pub open spec fn to_n(self) -> int {
        self.raw_spec() as int % 64
    }

    pub open spec fn from_n(self) -> int {
        (self.raw_spec() as int / 64) % 64
    }

    pub open spec fn kind(self) -> int {
        self.raw_spec() as int / 0x4000
    }

    pub open spec fn promo_n(self) -> int {
        (self.raw_spec() as int / 0x1000) % 4
    }

    /// The move type that the top two bits select.
    pub open spec fn mtype(self) -> MoveType {
        if self.kind() == 0 {
            MoveType::Normal
        } else if self.kind() == 1 {
            MoveType::Promotion
        } else if self.kind() == 2 {
            MoveType::EnPassant
        } else {
            MoveType::Castling
        }
    }

    pub open spec fn promo_type(self) -> PieceType {
        if self.promo_n() == 0 {
            PieceType::Knight
        } else if self.promo_n() == 1 {
            PieceType::Bishop
        } else if self.promo_n() == 2 {
            PieceType::Rook
        } else {
            PieceType::Queen
        }
    }

    pub open spec fn is_ok_spec(self) -> bool {
        self.raw_spec() != 0 && self.raw_spec() != 65
    }

    pub fn new(data: u16) -> (r: Move)
        ensures
            r.raw_spec() == data,
    {
        Move { data }
    }

    /// The normal move from `from` to `to`.
    pub fn new_from_to_sq(from: Square, to: Square) -> (r: Move)
        requires
            from.is_on_board(),
            to.is_on_board(),
        ensures
            r.raw_spec() == from.idx() * 64 + to.idx(),
            r.from_n() == from.idx(),
            r.to_n() == to.idx(),
            r.mtype() == MoveType::Normal,
    {
        let data = (from.index() * 64 + to.index()) as u16;
        Move { data }
    }

    /// A move of type `mt` from `from` to `to`, promoting to `promo` when `mt` is a promotion.
    pub fn make(mt: MoveType, from: Square, to: Square, promo: PieceType) -> (r: Move)
        requires
            from.is_on_board(),
            to.is_on_board(),
            mt == MoveType::Promotion ==> (promo == PieceType::Knight || promo == PieceType::Bishop
                || promo == PieceType::Rook || promo == PieceType::Queen),
        ensures
            r.from_n() == from.idx(),
            r.to_n() == to.idx(),
            r.mtype() == mt,
            mt == MoveType::Promotion ==> r.promo_type() == promo,
            mt != MoveType::Promotion ==> r.raw_spec() == mt.flag() * 0x4000 + from.idx() * 64 + to.idx(),
            r.is_ok_spec() <== from != to,
    {
        let p: u16 = if mt == MoveType::Promotion {
            (promo.index() - 2) as u16
        } else {
            0
        };
        let k: u16 = mt.bits() / 0x4000;
        let f = from.index() as u16;
        let t = to.index() as u16;
        let data: u16 = (k << 14) | (p << 12) | (f << 6) | t;
        proof {
            lemma_move_fields(k, p, f, t);
        }
        Move { data }
    }

    /// The twelve bits of origin and destination.
    pub fn from_to(&self) -> (r: u16)
        ensures
            r == self.raw_spec() as int % 4096,
    {
        self.data % 4096
    }

    pub fn from_sq(&self) -> (r: Square)
        ensures
            r.idx() == self.from_n(),
    {
        Square::new_from_n(((self.data / 64) % 64) as i32)
    }

    pub fn to_sq(&self) -> (r: Square)
        ensures
            r.idx() == self.to_n(),
    {
        Square::new_from_n((self.data % 64) as i32)
    }

    pub fn type_of(&self) -> (r: MoveType)
        ensures
            r == self.mtype(),
    {
        let k = self.data / 0x4000;
        if k == 0 {
            MoveType::Normal
        } else if k == 1 {
            MoveType::Promotion
        } else if k == 2 {
            MoveType::EnPassant
        } else {
            MoveType::Castling
        }
    }

    pub fn promotion_type(&self) -> (r: PieceType)
        ensures
            r == self.promo_type(),
    {
        let k = (self.data / 0x1000) % 4;
        if k == 0 {
            PieceType::Knight
        } else if k == 1 {
            PieceType::Bishop
        } else if k == 2 {
            PieceType::Rook
        } else {
            PieceType::Queen
        }
    }

    pub fn raw(&self) -> (r: u16)
        ensures
            r == self.raw_spec(),
    {
        self.data
    }

    pub fn is_nonzero(&self) -> (r: bool)
        ensures
            r == (self.raw_spec() != 0),
    {
        self.data != 0
    }

    /// The reserved "null move" pattern.
    pub fn null() -> (r: Move)
        ensures
            r.raw_spec() == 0,
    {
        Move { data: 0 }
    }

    /// The reserved "no move" pattern.
    pub fn none() -> (r: Move)
        ensures
            r.raw_spec() == 65,
    {
        Move { data: 65 }
    }

    /// Whether the move is neither of the two reserved patterns.
    pub fn is_ok(&self) -> (r: bool)
        ensures
            r == self.is_ok_spec(),
    {
        self.data != 65 && self.data != 0
    }
}

} // verus!
