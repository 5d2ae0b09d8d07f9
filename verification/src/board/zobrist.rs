use vstd::prelude::*;
use vstd::wrapping::u64_specs::{wrapping_add, wrapping_mul};
use crate::types::{Piece, Square};

verus! {

/// The increment of the SplitMix64 generator.
pub const GAMMA: u64 = 0x9e3779b97f4a7c15;

/// The seed of the hashing keys that boards use.
pub const ZOBRIST_SEED: u64 = 0xe65f2056120a3513;

/// The SplitMix64 output function applied to a state.
pub open spec fn mix64(z: u64) -> u64 {
    let a = wrapping_mul(z ^ (z >> 30u64), 0xbf58476d1ce4e5b9u64);
    let b = wrapping_mul(a ^ (a >> 27u64), 0x94d049bb133111ebu64);
    b ^ (b >> 31u64)
}

/// The state of a generator seeded with `seed` after `n` steps.
pub open spec fn splitmix_state(seed: u64, n: nat) -> u64 {
    ((seed + n * GAMMA) % 0x1_0000_0000_0000_0000) as u64
}

/// The `n`-th number (counting from 1) that a generator seeded with
/// `seed` produces.
pub open spec fn splitmix_output(seed: u64, n: nat) -> u64 {
    mix64(splitmix_state(seed, n))
}

/// The hashing key of piece `p` on square `s` (numbers `p` in 0..2 and
/// `s` in 0..81): the generator's output number `p * 81 + s + 1`.
pub open spec fn piece_key(p: int, s: int) -> u64 {
    splitmix_output(ZOBRIST_SEED, (p * 81 + s + 1) as nat)
}

/// The hashing key for `O` being the side to move: output number 163.
pub open spec fn stm_key() -> u64 {
    splitmix_output(ZOBRIST_SEED, 163)
}

/// The hashing key of the previous move being to square `s`: output
/// number `164 + s`.
pub open spec fn prev_move_key(s: int) -> u64 {
    splitmix_output(ZOBRIST_SEED, (164 + s) as nat)
}

/// One more step of the generator moves its state by `GAMMA`.
pub proof fn lemma_splitmix_step(seed: u64, n: nat)
    ensures
        wrapping_add(splitmix_state(seed, n), GAMMA) == splitmix_state(seed, n + 1),
{
    let m: int = 0x1_0000_0000_0000_0000;
    let s = seed + n * GAMMA;
    vstd::arithmetic::div_mod::lemma_add_mod_noop(s, GAMMA as int, m);
    vstd::arithmetic::div_mod::lemma_mod_twice(GAMMA as int, m);
    assert(s + GAMMA == seed + (n + 1) * GAMMA) by (nonlinear_arith)
        requires
            s == seed + n * GAMMA,
    ;
    vstd::arithmetic::div_mod::lemma_mod_bound(s, m);
    vstd::arithmetic::div_mod::lemma_mod_bound(s + GAMMA, m);
    vstd::arithmetic::div_mod::lemma_small_mod(GAMMA as nat, m as nat);
    let a = s % m;
    if a + GAMMA >= m {
        vstd::arithmetic::div_mod::lemma_mod_sub_multiples_vanish(a + GAMMA, m);
        vstd::arithmetic::div_mod::lemma_small_mod((a + GAMMA - m) as nat, m as nat);
    } else {
        vstd::arithmetic::div_mod::lemma_small_mod((a + GAMMA) as nat, m as nat);
    }
}

/// The SplitMix64 pseudo-random number generator.
#[derive(Debug, Clone)]
pub struct SplitMix64 {
    pub state: u64,
}

/// The SplitMix64 output function.
pub fn mix(z: u64) -> (r: u64)
    ensures
        r == mix64(z),
{
    let mut temp = z;
    temp = (temp ^ (temp >> 30)).wrapping_mul(0xbf58476d1ce4e5b9u64);
    temp = (temp ^ (temp >> 27)).wrapping_mul(0x94d049bb133111ebu64);
    temp ^ (temp >> 31)
}

impl SplitMix64 {
    /// A generator in state `state`.
    pub fn new(state: u64) -> (r: SplitMix64)
        ensures
            r.state == state,
    {
        SplitMix64 { state }
    }

    /// Steps the generator and returns its next number.
    pub fn next(&mut self) -> (r: u64)
        ensures
            final(self).state == wrapping_add(old(self).state, GAMMA),
            r == mix64(final(self).state),
    {
        self.state = self.state.wrapping_add(0x9e3779b97f4a7c15u64);
        mix(self.state)
    }
}

/// The `n`-th number (counting from 1) of a generator seeded with `seed`,
/// computed directly rather than by stepping.
pub fn splitmix_nth(seed: u64, n: u64) -> (r: u64)
    ensures
        r == splitmix_output(seed, n as nat),
{
    let step = n.wrapping_mul(GAMMA);
    let state = seed.wrapping_add(step);
    proof {
        let m: int = 0x1_0000_0000_0000_0000;
        vstd::arithmetic::div_mod::lemma_add_mod_noop(seed as int, n * GAMMA, m);
        vstd::arithmetic::div_mod::lemma_small_mod(seed as nat, m as nat);
        vstd::arithmetic::div_mod::lemma_mod_bound(n * GAMMA, m);
        let a: int = (n * GAMMA) % m;
        if seed + a >= m {
            vstd::arithmetic::div_mod::lemma_mod_sub_multiples_vanish(seed + a, m);
            vstd::arithmetic::div_mod::lemma_small_mod((seed + a - m) as nat, m as nat);
        } else {
            vstd::arithmetic::div_mod::lemma_small_mod((seed + a) as nat, m as nat);
        }
    }
    mix(state)
}

/// The hashing key of `piece` on `sq`.
pub fn piece_key_of(piece: Piece, sq: Square) -> (r: u64)
    ensures
        r == piece_key(piece@, sq@),
{
    let n: u64 = (piece.idx() * 81 + sq.idx() + 1) as u64;
    splitmix_nth(ZOBRIST_SEED, n)
}

/// The hashing key for `O` being the side to move.
pub fn stm_key_of() -> (r: u64)
    ensures
        r == stm_key(),
{
    splitmix_nth(ZOBRIST_SEED, 163)
}

/// The hashing key of a previous move to `sq`.
pub fn prev_move_key_of(sq: Square) -> (r: u64)
    ensures
        r == prev_move_key(sq@),
{
    let n: u64 = (164 + sq.idx()) as u64;
    splitmix_nth(ZOBRIST_SEED, n)
}

/// A table of hashing keys drawn from one generator: first the piece keys
/// (all squares of `X`, then all squares of `O`), then the side-to-move
/// key, then the previous-move keys.
#[derive(Debug, Clone)]
pub struct Zobrist {
    pub pieces: [[u64; 81]; 2],
    pub stm: u64,
    pub prev_move: [u64; 81],
}

impl Zobrist {
    /// The table drawn from a generator seeded with `seed`.
    pub fn new(seed: u64) -> (r: Zobrist)
        ensures
            forall|p: int, s: int|
                0 <= p < 2 && 0 <= s < 81 ==> #[trigger] r.pieces@[p]@[s] == splitmix_output(
                    seed,
                    (p * 81 + s + 1) as nat,
                ),
            r.stm == splitmix_output(seed, 163),
            forall|s: int| 0 <= s < 81 ==> #[trigger] r.prev_move@[s] == splitmix_output(seed, (164 + s) as nat),
    {
        let mut rng = SplitMix64::new(seed);
        let mut pieces: [[u64; 81]; 2] = [[0; 81]; 2];
        let mut piece: usize = 0;
        while piece < 2
            invariant
                piece <= 2,
                rng.state == splitmix_state(seed, (piece * 81) as nat),
                forall|p: int, s: int|
                    0 <= p < piece && 0 <= s < 81 ==> #[trigger] pieces@[p]@[s] == splitmix_output(
                        seed,
                        (p * 81 + s + 1) as nat,
                    ),
            decreases 2 - piece,
        {
            let mut row: [u64; 81] = [0; 81];
            let mut sq: usize = 0;
            while sq < 81
                invariant
                    piece < 2,
                    sq <= 81,
                    rng.state == splitmix_state(seed, (piece * 81 + sq) as nat),
                    forall|s: int| 0 <= s < sq ==> #[trigger] row@[s] == splitmix_output(seed, (piece * 81 + s + 1) as nat),
                decreases 81 - sq,
            {
                proof {
                    lemma_splitmix_step(seed, (piece * 81 + sq) as nat);
                }
                row[sq] = rng.next();
                sq += 1;
            }
            pieces[piece] = row;
            piece += 1;
        }
        proof {
            lemma_splitmix_step(seed, 162);
        }
        let stm = rng.next();
        let mut prev_move: [u64; 81] = [0; 81];
        let mut sq: usize = 0;
        while sq < 81
            invariant
                sq <= 81,
                rng.state == splitmix_state(seed, (163 + sq) as nat),
                forall|s: int| 0 <= s < sq ==> #[trigger] prev_move@[s] == splitmix_output(seed, (164 + s) as nat),
            decreases 81 - sq,
        {
            proof {
                lemma_splitmix_step(seed, (163 + sq) as nat);
            }
            prev_move[sq] = rng.next();
            sq += 1;
        }
        Zobrist { pieces, stm, prev_move }
    }
}

/// Law: the table drawn from `ZOBRIST_SEED` holds exactly the keys that
/// boards hash with.
pub proof fn law_zobrist_table_keys(z: Zobrist)
    requires
        forall|p: int, s: int|
            0 <= p < 2 && 0 <= s < 81 ==> #[trigger] z.pieces@[p]@[s] == splitmix_output(
                ZOBRIST_SEED,
                (p * 81 + s + 1) as nat,
            ),
        z.stm == splitmix_output(ZOBRIST_SEED, 163),
        forall|s: int| 0 <= s < 81 ==> #[trigger] z.prev_move@[s] == splitmix_output(ZOBRIST_SEED, (164 + s) as nat),
    ensures
        forall|p: int, s: int| 0 <= p < 2 && 0 <= s < 81 ==> #[trigger] z.pieces@[p]@[s] == piece_key(p, s),
        z.stm == stm_key(),
        forall|s: int| 0 <= s < 81 ==> #[trigger] z.prev_move@[s] == prev_move_key(s),
{
}

} // verus!
