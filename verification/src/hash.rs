//! Hashes of bytes to 128-bit keys.
use murmur3::murmur3_x86_128;
use std::io::Cursor;
use vstd::prelude::*;

verus! {

/// The 128-bit murmur3 hash, in its variant for 32-bit machines, of some bytes.
pub uninterp spec fn murmur3_128(bytes: Seq<u8>, seed: u32) -> u128;

/// Calls `murmur3::murmur3_x86_128` on the bytes. Its result depends on the bytes and the seed
/// alone; it fails only where reading fails, which reading from memory never does.
#[verifier::external_body]
fn murmur3_hash(bytes: &[u8], seed: u32) -> (r: u128)
    ensures
        r == murmur3_128(bytes@, seed),
{
    murmur3_x86_128(&mut Cursor::new(bytes), seed).expect("Hash failed")
}

/// The hash by which bytes are turned into keys.
pub fn hash_bytes(bytes: &[u8]) -> (r: u128)
    ensures
        r == murmur3_128(bytes@, 0),
{
    murmur3_hash(bytes, 0)
}

} // verus!
