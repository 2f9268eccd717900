//! Offline license keys: an issuer derives each license's payload from a
//! secret set of initialization vectors, a client checks one chunk of it
//! against the one vector it knows.
use vstd::prelude::*;

pub mod blockers;
pub mod check;
pub mod gen;
pub mod primitives;

use crate::primitives::{append_bytes, sha256, sha256_of, sub_bytes, DIGEST_LEN};

verus! {

/// Length in bytes of a license's checksum. Short on purpose: it catches
/// corruption and crude edits, it does not prove authenticity.
pub const CHECKSUM_LEN: usize = 2;

/// Information about the structure of your license.
/// This must be shared between your generator and checker.
#[derive(Clone, Copy, Debug, PartialEq, Eq, Structural)]
pub struct LicenseStructParameters {
    /// seed length in bytes
    pub seed_length: usize,
    /// payload length in chunks
    pub payload_length: usize,
    /// chunk size in bytes
    pub chunk_size: usize,
}

impl LicenseStructParameters {
    /// Total byte length of a license laid out under these parameters.
    pub open spec fn license_len(&self) -> int {
        self.seed_length + self.payload_length * self.chunk_size + CHECKSUM_LEN
    }
}

impl Default for LicenseStructParameters {
    fn default() -> (r: Self)
        ensures
            r == (LicenseStructParameters { seed_length: 6, payload_length: 10, chunk_size: 2 }),
    {
        Self { seed_length: 6, payload_length: 10, chunk_size: 2 }
    }
}

/// The payload chunk that `iv` gives for `seed`: the digest of `iv || seed`,
/// cut to `chunk_size` bytes.
pub open spec fn key_chunk(iv: Seq<u8>, seed: Seq<u8>, chunk_size: nat) -> Seq<u8> {
    Seq::new(chunk_size, |i: int| sha256_of(iv + seed)[i])
}

/// The checksum of a license: the digest of `seed || payload[0] || payload[1] ...`,
/// cut to `CHECKSUM_LEN` bytes.
pub open spec fn checksum_of(seed: Seq<u8>, payload: Seq<Seq<u8>>) -> Seq<u8> {
    Seq::new(CHECKSUM_LEN as nat, |i: int| sha256_of(seed + payload.flatten())[i])
}

/// Computes the checksum of a license from its seed and payload.
pub(crate) fn generate_checksum(seed: &[u8], payload: &[Vec<u8>]) -> (r: Vec<u8>)
    ensures
        r@ == checksum_of(seed@, payload@.map_values(|c: Vec<u8>| c@)),
{
    let mut to_verify: Vec<u8> = Vec::new();
    append_bytes(&mut to_verify, seed);
    let mut i: usize = 0;
    while i < payload.len()
        invariant
            i <= payload@.len(),
            to_verify@ == seed@ + payload@.take(i as int).map_values(|c: Vec<u8>| c@).flatten(),
        decreases payload@.len() - i,
    {
        let ghost before = payload@.take(i as int).map_values(|c: Vec<u8>| c@);
        append_bytes(&mut to_verify, payload[i].as_slice());
        assert(payload@.take(i + 1).map_values(|c: Vec<u8>| c@) =~= before.push(payload@[i as int]@));
        proof {
            before.lemma_flatten_push(payload@[i as int]@);
        }
        assert(to_verify@ =~= seed@ + before.push(payload@[i as int]@).flatten());
        i += 1;
    }
    assert(payload@.take(payload@.len() as int) =~= payload@);
    let digest = sha256(to_verify.as_slice());
    assert(digest@.subrange(0, CHECKSUM_LEN as int) =~= checksum_of(seed@, payload@.map_values(|c: Vec<u8>| c@)));
    sub_bytes(digest.as_slice(), 0, CHECKSUM_LEN)
}

/// Derives the payload chunk that `iv` gives for `seed`.
pub(crate) fn generate_key_chunk(iv: &[u8], seed: &Vec<u8>, chunk_size: usize) -> (r: Vec<u8>)
    requires
        chunk_size <= DIGEST_LEN,
    ensures
        r@ == key_chunk(iv@, seed@, chunk_size as nat),
{
    let mut input: Vec<u8> = Vec::new();
    append_bytes(&mut input, iv);
    append_bytes(&mut input, seed.as_slice());
    let digest = sha256(input.as_slice());
    assert(input@ =~= iv@ + seed@);
    assert(digest@.subrange(0, chunk_size as int) =~= key_chunk(iv@, seed@, chunk_size as nat));
    sub_bytes(digest.as_slice(), 0, chunk_size)
}

} // verus!
