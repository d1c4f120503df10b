//! Deterministic entropy derivation and the genetic-combination algorithm.
//!
//! A transition derives its entropy by hashing values every replica sees
//! identically — the consensus-supplied block seed, the caller, and the
//! transaction's execution index — never a clock or a process-local
//! generator, so a replay of the same transaction log derives the same
//! bytes on every node.

use vstd::prelude::*;
use crate::AccountId;

verus! {

/// Number of bytes in a creature genome and in one derived entropy value.
pub const DNA_BYTES: usize = 16;

/// Number of bytes in the consensus-supplied per-block randomness seed.
pub const SEED_BYTES: usize = 32;

/// The little-endian bytes of a 64-bit integer.
pub open spec fn u64_le_bytes(v: u64) -> Seq<u8> {
    Seq::new(8, |i: int| ((v >> ((8 * i) as u64)) & 0xff) as u8)
}

/// The little-endian bytes of a 32-bit integer.
pub open spec fn u32_le_bytes(v: u32) -> Seq<u8> {
    Seq::new(4, |i: int| ((v >> ((8 * i) as u32)) & 0xff) as u8)
}

/// The encoding of an optional 32-bit index: a `0` tag when absent, else a
/// `1` tag followed by the value's little-endian bytes.
pub open spec fn option_u32_bytes(v: Option<u32>) -> Seq<u8> {
    match v {
        None => seq![0u8],
        Some(n) => seq![1u8] + u32_le_bytes(n),
    }
}

/// The encoded entropy payload `(seed, caller, index)`: the seed's bytes,
/// then the caller's little-endian bytes, then the tagged index.
pub open spec fn entropy_payload(seed: Seq<u8>, caller: AccountId, index: Option<u32>) -> Seq<u8> {
    seed + u64_le_bytes(caller) + option_u32_bytes(index)
}

/// The 16-byte Blake2b digest, named: a function of the input bytes alone,
/// identical on every machine and in every process.
pub uninterp spec fn blake2_128_digest(data: Seq<u8>) -> Seq<u8>;

/// The entropy one transition derives: the digest of its encoded payload.
pub open spec fn derived_entropy(seed: Seq<u8>, caller: AccountId, index: Option<u32>) -> Seq<u8> {
    blake2_128_digest(entropy_payload(seed, caller, index))
}

/// Relies on `parity_scale_codec::Encode` for `([u8; 32], u64, Option<u32>)`:
/// a tuple encodes as the concatenation of its parts' encodings, a byte
/// array as its bytes, a `u64` as its little-endian bytes, and an option as
/// a `0` tag, or a `1` tag followed by the value's encoding.
#[verifier::external_body]
fn encode_entropy_payload(seed: &[u8; SEED_BYTES], caller: AccountId, index: Option<u32>) -> (r: Vec<u8>)
    ensures
        r@ == entropy_payload(seed@, caller, index),
{
    parity_scale_codec::Encode::encode(&(*seed, caller, index))
}

/// Relies on `sp_io::hashing::blake2_128`: the 128-bit Blake2b digest of
/// the input bytes.
#[verifier::external_body]
fn blake2_128(data: &Vec<u8>) -> (r: [u8; DNA_BYTES])
    ensures
        r@ == blake2_128_digest(data@),
{
    sp_io::hashing::blake2_128(data.as_slice())
}

/// Derives the per-transition entropy for `sender`: the digest of the block
/// seed, the caller and the execution index, encoded in that order.
pub fn random_value(seed: &[u8; SEED_BYTES], sender: AccountId, extrinsic_index: Option<u32>) -> (r: [u8; DNA_BYTES])
    ensures
        r@ == derived_entropy(seed@, sender, extrinsic_index),
{
    let payload = encode_entropy_payload(seed, sender, extrinsic_index);
    blake2_128(&payload)
}

/// One byte of a child genome: a per-bit mux — where `selector` has a 1 bit
/// the child inherits `dna1`'s bit, elsewhere `dna2`'s bit.
pub open spec fn combine_dna_spec(dna1: u8, dna2: u8, selector: u8) -> u8 {
    (selector & dna1) | (!selector & dna2)
}

/// Combines one genome byte of each parent under one selector byte.
pub fn combine_dna(dna1: u8, dna2: u8, selector: u8) -> (r: u8)
    ensures
        r == combine_dna_spec(dna1, dna2, selector),
{
    (selector & dna1) | (!selector & dna2)
}

/// A full child genome: byte by byte, the per-bit mux of the parents'
/// genomes under the selector.
pub open spec fn child_genome(dna1: Seq<u8>, dna2: Seq<u8>, selector: Seq<u8>) -> Seq<u8> {
    Seq::new(DNA_BYTES as nat, |i: int| combine_dna_spec(dna1[i], dna2[i], selector[i]))
}

/// Law: every bit of a combined genome byte comes from the corresponding
/// bit of one of the two parents — at each position the child's bit equals
/// the first parent's bit or the second parent's bit, never a third value.
pub proof fn lemma_combine_bits_from_parents(dna1: u8, dna2: u8, selector: u8, k: u8)
    requires
        k < 8,
    ensures
        (combine_dna_spec(dna1, dna2, selector) >> k) & 1 == (dna1 >> k) & 1
            || (combine_dna_spec(dna1, dna2, selector) >> k) & 1 == (dna2 >> k) & 1,
{
    assert((((selector & dna1) | (!selector & dna2)) >> k) & 1 == (dna1 >> k) & 1
        || (((selector & dna1) | (!selector & dna2)) >> k) & 1 == (dna2 >> k) & 1)
        by (bit_vector)
        requires k < 8;
}

/// Law: breeding is deterministic — an identical caller, identical parent
/// genomes, an identical seed and an identical execution index derive the
/// identical child genome, in any two evaluations.
pub proof fn lemma_breeding_deterministic(
    dna1: Seq<u8>, dna2: Seq<u8>, seed: Seq<u8>, caller: AccountId, index: Option<u32>,
    dna1b: Seq<u8>, dna2b: Seq<u8>, seedb: Seq<u8>, callerb: AccountId, indexb: Option<u32>,
)
    requires
        dna1b == dna1,
        dna2b == dna2,
        seedb == seed,
        callerb == caller,
        indexb == index,
    ensures
        child_genome(dna1b, dna2b, derived_entropy(seedb, callerb, indexb))
            == child_genome(dna1, dna2, derived_entropy(seed, caller, index)),
{
}

} // verus!
