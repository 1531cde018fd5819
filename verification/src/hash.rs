//! Message, block and transaction fingerprints.
//!
//! Fingerprints are 256-bit digests computed by four independent 64-bit
//! FNV-1a-style lanes over the input bytes.  They are used for duplicate
//! detection and short-id derivation, not for cryptographic validation.

use vstd::prelude::*;
use crate::types::PeerId;

verus! {

pub const FNV_PRIME: u64 = 1099511628211;

pub const LANE_SEED_0: u64 = 0xcbf29ce484222325;

pub const LANE_SEED_1: u64 = 0x9e3779b97f4a7c15;

pub const LANE_SEED_2: u64 = 0xc2b2ae3d27d4eb4f;

pub const LANE_SEED_3: u64 = 0x165667b19e3779f9;

/// One step of the 64-bit fold: XOR the byte in, multiply by the prime.
pub open spec fn spec_mix_step(h: u64, b: u8) -> u64 {
    vstd::wrapping::u64_specs::wrapping_mul(h ^ (b as u64), FNV_PRIME)
}

/// The fold over the first `n` bytes of `s`, starting from `seed`.
pub open spec fn spec_mix_prefix(s: Seq<u8>, n: int, seed: u64) -> u64
    decreases n,
{
    if n <= 0 {
        seed
    } else {
        spec_mix_step(spec_mix_prefix(s, n - 1, seed), s[n - 1])
    }
}

/// The fold over all of `s`, starting from `seed`.
pub open spec fn spec_mix(s: Seq<u8>, seed: u64) -> u64 {
    spec_mix_prefix(s, s.len() as int, seed)
}

/// One step of the 64-bit fold over whole words.
pub open spec fn spec_mix_word(h: u64, w: u64) -> u64 {
    vstd::wrapping::u64_specs::wrapping_mul(h ^ w, FNV_PRIME)
}

/// A 256-bit fingerprint, stored as four 64-bit words.
#[derive(Clone, Copy, Debug, PartialEq, Eq, Structural, Hash)]
pub struct Digest {
    pub w0: u64,
    pub w1: u64,
    pub w2: u64,
    pub w3: u64,
}

/// Hash of a full message; used for duplicate detection and gossip tracking.
pub type MessageHash = Digest;

/// Hash of a block.
pub type BlockHash = Digest;

/// Hash of a transaction.
pub type TransactionHash = Digest;

/// The digest of a byte sequence: four lanes folded from distinct seeds.
pub open spec fn spec_digest_of(s: Seq<u8>) -> Digest {
    Digest {
        w0: spec_mix(s, LANE_SEED_0),
        w1: spec_mix(s, LANE_SEED_1),
        w2: spec_mix(s, LANE_SEED_2),
        w3: spec_mix(s, LANE_SEED_3),
    }
}

/// One lane step in executable code.
pub fn mix_step(h: u64, b: u8) -> (r: u64)
    ensures
        r == spec_mix_step(h, b),
{
    (h ^ (b as u64)).wrapping_mul(FNV_PRIME)
}

/// One word-level step in executable code.
pub fn mix_word(h: u64, w: u64) -> (r: u64)
    ensures
        r == spec_mix_word(h, w),
{
    (h ^ w).wrapping_mul(FNV_PRIME)
}

/// Compute the digest of a byte vector.
pub fn digest_of_bytes(v: &Vec<u8>) -> (d: Digest)
    ensures
        d == spec_digest_of(v@),
{
    let mut h0: u64 = LANE_SEED_0;
    let mut h1: u64 = LANE_SEED_1;
    let mut h2: u64 = LANE_SEED_2;
    let mut h3: u64 = LANE_SEED_3;
    let mut i: usize = 0;
    while i < v.len()
        invariant
            i <= v@.len(),
            h0 == spec_mix_prefix(v@, i as int, LANE_SEED_0),
            h1 == spec_mix_prefix(v@, i as int, LANE_SEED_1),
            h2 == spec_mix_prefix(v@, i as int, LANE_SEED_2),
            h3 == spec_mix_prefix(v@, i as int, LANE_SEED_3),
        decreases v@.len() - i,
    {
        let b = v[i];
        h0 = mix_step(h0, b);
        h1 = mix_step(h1, b);
        h2 = mix_step(h2, b);
        h3 = mix_step(h3, b);
        i = i + 1;
    }
    Digest { w0: h0, w1: h1, w2: h2, w3: h3 }
}

/// Combining two digests into one: each output lane folds the eight words
/// of the two inputs from that lane's seed.
pub open spec fn spec_combine_lane(a: Digest, b: Digest, seed: u64) -> u64 {
    spec_mix_word(
        spec_mix_word(
            spec_mix_word(
                spec_mix_word(
                    spec_mix_word(
                        spec_mix_word(
                            spec_mix_word(spec_mix_word(seed, a.w0), a.w1),
                            a.w2,
                        ),
                        a.w3,
                    ),
                    b.w0,
                ),
                b.w1,
            ),
            b.w2,
        ),
        b.w3,
    )
}

/// The digest of an ordered pair of digests.
pub open spec fn spec_combine(a: Digest, b: Digest) -> Digest {
    Digest {
        w0: spec_combine_lane(a, b, LANE_SEED_0),
        w1: spec_combine_lane(a, b, LANE_SEED_1),
        w2: spec_combine_lane(a, b, LANE_SEED_2),
        w3: spec_combine_lane(a, b, LANE_SEED_3),
    }
}

fn combine_lane(a: &Digest, b: &Digest, seed: u64) -> (r: u64)
    ensures
        r == spec_combine_lane(*a, *b, seed),
{
    let mut h = seed;
    h = mix_word(h, a.w0);
    h = mix_word(h, a.w1);
    h = mix_word(h, a.w2);
    h = mix_word(h, a.w3);
    h = mix_word(h, b.w0);
    h = mix_word(h, b.w1);
    h = mix_word(h, b.w2);
    h = mix_word(h, b.w3);
    h
}

/// Combine two digests into the digest of the ordered pair.
pub fn combine_digests(a: &Digest, b: &Digest) -> (d: Digest)
    ensures
        d == spec_combine(*a, *b),
{
    Digest {
        w0: combine_lane(a, b, LANE_SEED_0),
        w1: combine_lane(a, b, LANE_SEED_1),
        w2: combine_lane(a, b, LANE_SEED_2),
        w3: combine_lane(a, b, LANE_SEED_3),
    }
}

/// The lowercase hexadecimal character of a value below sixteen.
pub open spec fn spec_hex_digit(n: u8) -> char
    recommends
        n < 16,
{
    if n == 0 { '0' }
    else if n == 1 { '1' }
    else if n == 2 { '2' }
    else if n == 3 { '3' }
    else if n == 4 { '4' }
    else if n == 5 { '5' }
    else if n == 6 { '6' }
    else if n == 7 { '7' }
    else if n == 8 { '8' }
    else if n == 9 { '9' }
    else if n == 10 { 'a' }
    else if n == 11 { 'b' }
    else if n == 12 { 'c' }
    else if n == 13 { 'd' }
    else if n == 14 { 'e' }
    else { 'f' }
}

/// Relies on hex::encode: lowercase hexadecimal, two digits per input byte,
/// high nibble first.
#[verifier::external_body]
pub fn hex_encode(bytes: &Vec<u8>) -> (r: String)
    ensures
        r@.len() == 2 * bytes@.len(),
        forall|i: int|
            0 <= i < bytes@.len() ==> r@[2 * i] == spec_hex_digit(bytes@[i] / 16)
                && r@[2 * i + 1] == spec_hex_digit(bytes@[i] % 16),
{
    hex::encode(bytes)
}

/// The eight bytes of a 64-bit word, most significant first.
pub open spec fn spec_be_bytes_of_u64(w: u64) -> Seq<u8> {
    seq![
        (w >> 56) as u8,
        (w >> 48) as u8,
        (w >> 40) as u8,
        (w >> 32) as u8,
        (w >> 24) as u8,
        (w >> 16) as u8,
        (w >> 8) as u8,
        w as u8,
    ]
}

impl PeerId {
    /// The identity's first eight bytes rendered as lowercase hexadecimal,
    /// for logs and peer listings.
    pub fn short_hex(&self) -> (r: String)
        ensures
            r@.len() == 16,
            forall|i: int|
                0 <= i < 8 ==> r@[2 * i] == spec_hex_digit(
                    #[trigger] spec_be_bytes_of_u64(self.w0)[i] / 16,
                ) && r@[2 * i + 1] == spec_hex_digit(spec_be_bytes_of_u64(self.w0)[i] % 16),
    {
        let w = self.w0;
        let mut bytes: Vec<u8> = Vec::new();
        bytes.push((w >> 56) as u8);
        bytes.push((w >> 48) as u8);
        bytes.push((w >> 40) as u8);
        bytes.push((w >> 32) as u8);
        bytes.push((w >> 24) as u8);
        bytes.push((w >> 16) as u8);
        bytes.push((w >> 8) as u8);
        bytes.push(w as u8);
        proof {
            assert(bytes@ =~= spec_be_bytes_of_u64(w));
        }
        hex_encode(&bytes)
    }
}

} // verus!
