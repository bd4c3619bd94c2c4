use vstd::prelude::*;
use crate::misc::{Prng, prng_output, prng_state};
use crate::types::{File, Key, Piece, Square};

verus! {

/// Seed of the key stream; fixed so that keys are the same in every run.
pub const ZOBRIST_SEED: u64 = 1070372;

/// Random keys for hashing positions: one per (piece, square), per en-passant
/// file, per set of castling rights, one for the side to move and one for
/// "no pawns".
pub struct Zobrist {
    psq: Vec<Key>,
    enpassant: Vec<Key>,
    castling: Vec<Key>,
    side: Key,
    nopawns: Key,
}

impl Zobrist {
    /// The table sizes, and every key is the stream output at its place:
    /// piece-square keys first, then en passant, castling, side, no-pawns.
    pub closed spec fn wf(&self) -> bool {
        &&& self.psq.len() == 1024
        &&& self.enpassant.len() == 8
        &&& self.castling.len() == 16
        &&& forall|i: int| 0 <= i < 1024 ==> #[trigger] self.psq@[i] == prng_output(ZOBRIST_SEED, (i + 1) as nat)
        &&& forall|i: int| 0 <= i < 8 ==> #[trigger] self.enpassant@[i] == prng_output(ZOBRIST_SEED, (1025 + i) as nat)
        &&& forall|i: int| 0 <= i < 16 ==> #[trigger] self.castling@[i] == prng_output(ZOBRIST_SEED, (1033 + i) as nat)
        &&& self.side == prng_output(ZOBRIST_SEED, 1049)
        &&& self.nopawns == prng_output(ZOBRIST_SEED, 1050)
    }

    pub closed spec fn psq_key(&self, pc: Piece, s: int) -> u64 {
        self.psq@[pc.idx() * 64 + s]
    }

    pub closed spec fn ep_key(&self, f: int) -> u64 {
        self.enpassant@[f]
    }

    pub closed spec fn castling_key(&self, cr: int) -> u64 {
        self.castling@[cr]
    }

    pub closed spec fn side_key(&self) -> u64 {
        self.side
    }

    pub closed spec fn nopawns_key(&self) -> u64 {
        self.nopawns
    }
}

/// Draws `n` keys from `rng`, which has produced `drawn` outputs so far.
fn draw_keys(rng: &mut Prng, n: usize, Ghost(drawn): Ghost<nat>) -> (r: Vec<Key>)
    requires
        old(rng).state() == prng_state(ZOBRIST_SEED, drawn),
    ensures
        r.len() == n,
        final(rng).state() == prng_state(ZOBRIST_SEED, (drawn + n) as nat),
        forall|i: int| 0 <= i < n ==> #[trigger] r@[i] == prng_output(ZOBRIST_SEED, (drawn + i + 1) as nat),
{
    let mut r: Vec<Key> = Vec::new();
    let mut i: usize = 0;
    while i < n
        invariant
            i <= n,
            r.len() == i,
            rng.state() == prng_state(ZOBRIST_SEED, (drawn + i) as nat),
            forall|j: int| 0 <= j < i ==> #[trigger] r@[j] == prng_output(ZOBRIST_SEED, (drawn + j + 1) as nat),
        decreases n - i,
    {
        let k = rng.rand();
        assert(prng_state(ZOBRIST_SEED, (drawn + i + 1) as nat) == crate::misc::xorshift(
            prng_state(ZOBRIST_SEED, (drawn + i) as nat),
        ));
        r.push(k);
        i += 1;
    }
    r
}

/// Draws all keys from the fixed-seed stream.
pub fn init_zobrist() -> (z: Zobrist)
    ensures
        z.wf(),
{
    let mut rng = Prng::new(ZOBRIST_SEED);
    let psq = draw_keys(&mut rng, 1024, Ghost(0));
    let enpassant = draw_keys(&mut rng, 8, Ghost(1024));
    let castling = draw_keys(&mut rng, 16, Ghost(1032));
    let side = rng.rand();
    assert(prng_state(ZOBRIST_SEED, 1049) == crate::misc::xorshift(prng_state(ZOBRIST_SEED, 1048)));
    let nopawns = rng.rand();
    assert(prng_state(ZOBRIST_SEED, 1050) == crate::misc::xorshift(prng_state(ZOBRIST_SEED, 1049)));
    Zobrist { psq, enpassant, castling, side, nopawns }
}

/// The key of the side to move.
pub fn get_zobrist_side(z: &Zobrist) -> (r: Key)
    ensures
        r == z.side_key(),
{
    z.side
}

/// The key of piece `pc` on square `s`.
pub fn get_zobrist_psq(z: &Zobrist, pc: Piece, s: Square) -> (r: Key)
    requires
        z.wf(),
        s.is_on_board(),
    ensures
        r == z.psq_key(pc, s.idx()),
{
    z.psq[pc.index() * 64 + s.index()]
}

/// The key of the set of castling rights `cr` (bits 0 to 3).
pub fn get_zobrist_castling(z: &Zobrist, cr: usize) -> (r: Key)
    requires
        z.wf(),
        cr < 16,
    ensures
        r == z.castling_key(cr as int),
{
    z.castling[cr]
}

/// The key of a position without pawns.
pub fn get_zorist_nopawns(z: &Zobrist) -> (r: Key)
    ensures
        r == z.nopawns_key(),
{
    z.nopawns
}

/// The key of an en-passant square on file `f`.
pub fn get_zobrist_enpassant(z: &Zobrist, f: File) -> (r: Key)
    requires
        z.wf(),
    ensures
        r == z.ep_key(f.idx()),
{
    z.enpassant[f.index()]
}

} // verus!
