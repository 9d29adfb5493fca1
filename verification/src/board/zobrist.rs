//! Zobrist keys.
//!
//! Every feature of a position (a piece on a square, the side to move, the
//! castling rights, the en-passant file) has a 64-bit key, and the hash of a
//! position is the exclusive or of the keys of its features. The keys are the
//! successive outputs of a SplitMix64 generator with a fixed seed, so that the
//! hash of a position is the same in every run.

use crate::board::piece::{Color, PieceType};
use crate::board::square::Square;
use vstd::arithmetic::div_mod::lemma_add_mod_noop;
use vstd::prelude::*;
use vstd::wrapping::u64_specs;

verus! {

/// The generator's seed.
pub const SEED: u64 = 0x1234_5678_9ABC_DEF0;

/// What the generator's state grows by at each step.
pub const GAMMA: u64 = 0x9E37_79B9_7F4A_7C15;

const MIX_1: u64 = 0xBF58_476D_1CE4_E5B9;

const MIX_2: u64 = 0x94D0_49BB_1331_11EB;

/// The generator's state after `n` steps.
pub open spec fn stream_state(n: nat) -> u64
    decreases n,
{
    if n == 0 {
        SEED
    } else {
        u64_specs::wrapping_add(stream_state((n - 1) as nat), GAMMA)
    }
}

/// The output function of SplitMix64.
pub closed spec fn mix(state: u64) -> u64 {
    let z1 = u64_specs::wrapping_mul(state ^ (state >> 30), MIX_1);
    let z2 = u64_specs::wrapping_mul(z1 ^ (z1 >> 27), MIX_2);
    z2 ^ (z2 >> 31)
}

/// The generator's output number `n`, counted from 0.
pub open spec fn stream(n: nat) -> u64 {
    mix(stream_state(n + 1))
}

/// The key of a piece on a square.
pub open spec fn piece_key(c: Color, pt: PieceType, sq: int) -> u64 {
    stream(((c.idx() * 6 + pt.idx()) * 64 + sq) as nat)
}

/// The key of Black being on move.
pub open spec fn side_key() -> u64 {
    stream(768)
}

/// The key of a set of castling rights.
pub open spec fn castling_key(rights: u8) -> u64 {
    stream((769 + rights % 16) as nat)
}

/// The key of an en-passant file.
pub open spec fn ep_key(file: int) -> u64 {
    stream((785 + file % 8) as nat)
}

proof fn lemma_stream_state(n: nat)
    ensures
        stream_state(n) as int == (SEED + n * GAMMA) % 0x1_0000_0000_0000_0000,
    decreases n,
{
    let m = 0x1_0000_0000_0000_0000int;
    if n > 0 {
        let k = (n - 1) as nat;
        lemma_stream_state(k);
        assert(n * GAMMA == k * GAMMA + GAMMA) by (nonlinear_arith)
            requires
                n == k + 1,
        ;
        lemma_add_mod_noop(SEED + k * GAMMA, GAMMA as int, m);
    }
}

/// Output number `n` of the generator.
fn key(n: u64) -> (r: u64)
    requires
        n < 1000,
    ensures
        r == stream(n as nat),
{
    let state: u64 = SEED.wrapping_add(GAMMA.wrapping_mul(n + 1));
    proof {
        let m = 0x1_0000_0000_0000_0000int;
        lemma_stream_state((n + 1) as nat);
        let g = GAMMA as int * (n + 1);
        assert(g == (n + 1) * GAMMA) by (nonlinear_arith)
            requires
                g == GAMMA as int * (n + 1),
        ;
        assert(0 <= g) by (nonlinear_arith)
            requires
                g == GAMMA as int * (n + 1),
                n >= 0,
                GAMMA >= 0,
        ;
        lemma_add_mod_noop(SEED as int, g, m);
    }
    let z1: u64 = (state ^ (state >> 30)).wrapping_mul(MIX_1);
    let z2: u64 = (z1 ^ (z1 >> 27)).wrapping_mul(MIX_2);
    z2 ^ (z2 >> 31)
}

/// The table of keys.
pub struct Zobrist {}

impl Zobrist {
    /// Key for a specific piece standing on a specific square.
    pub fn piece(&self, color: Color, piece_type: PieceType, sq: Square) -> (r: u64)
        requires
            sq.ok(),
        ensures
            r == piece_key(color, piece_type, sq.0 as int),
    {
        let c: u64 = color.index() as u64;
        let t: u64 = piece_type.index() as u64;
        key((c * 6 + t) * 64 + sq.0 as u64)
    }

    /// Key that counts when it is Black to move.
    pub fn side(&self) -> (r: u64)
        ensures
            r == side_key(),
    {
        key(768)
    }

    /// Key for a castling-rights bitmask (`0..=15`).
    pub fn castling(&self, rights: u8) -> (r: u64)
        ensures
            r == castling_key(rights),
    {
        key(769 + (rights % 16) as u64)
    }

    /// Key for the file of an en-passant target square.
    pub fn ep_file(&self, file: u8) -> (r: u64)
        ensures
            r == ep_key(file as int),
    {
        key(785 + (file % 8) as u64)
    }
}

/// Access the [`Zobrist`] keys.
pub fn zobrist() -> (r: Zobrist)
{
    Zobrist {  }
}

} // verus!
