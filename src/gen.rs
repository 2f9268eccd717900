//! Generate valid licenses.
use rand::rngs::OsRng;
use rand::{Rng, RngCore};
use vstd::prelude::*;

use crate::check::{human_parse, lemma_bytes_round_trip, strip_dashes, License, LicenseModel, LicenseParseError, DASH};
use crate::primitives::{append_bytes, b64_encode, b64_encode_of, is_b64_symbol, push_char, DIGEST_LEN};
use vstd::utf8::{encode_utf8, is_ascii_chars, is_ascii_chars_encode_utf8};
use crate::{checksum_of, generate_checksum, generate_key_chunk, key_chunk, LicenseStructParameters};

verus! {

/// Shortest length of a freshly drawn initialization vector.
pub const IV_MIN_LEN: usize = 10;

/// One past the longest length of a freshly drawn initialization vector.
pub const IV_MAX_LEN: usize = 16;

/// For a piece of software, the admin generator should be created and stored once
pub struct AdminGenerator {
    pub parameters: LicenseStructParameters,
    pub ivs: Vec<Vec<u8>>,
}

/// Why a license could not be generated.
#[derive(Clone, Copy, Debug, PartialEq, Eq, Structural)]
pub enum LicenseGenError {
    InvalidSeedLen,
}

/// Relies on rand's `Rng::gen_range` over `OsRng`: a value in `lo..hi`. It
/// panics on an empty range, which `requires` leaves out.
#[verifier::external_body]
fn random_in_range(lo: usize, hi: usize) -> (r: usize)
    requires
        lo < hi,
    ensures
        lo <= r < hi,
{
    OsRng.gen_range(lo..hi)
}

/// Relies on rand_core's `RngCore::fill_bytes` for `OsRng`: overwrites the
/// bytes with random ones and keeps their number.
#[verifier::external_body]
fn fill_random(buf: &mut Vec<u8>)
    ensures
        final(buf)@.len() == old(buf)@.len(),
{
    OsRng.fill_bytes(buf.as_mut_slice())
}

/// `e` with a separator before every fourth byte but the first.
pub open spec fn dashed(e: Seq<u8>) -> Seq<u8>
    decreases e.len(),
{
    if e.len() == 0 {
        e
    } else {
        let i = e.len() - 1;
        if i % 4 == 0 && i != 0 {
            dashed(e.drop_last()).push(DASH).push(e.last())
        } else {
            dashed(e.drop_last()).push(e.last())
        }
    }
}

/// Taking the separators out of a separated text without separators gives it back.
proof fn lemma_strip_dashed(e: Seq<u8>)
    requires
        forall|i: int| 0 <= i < e.len() ==> e[i] != DASH,
    ensures
        strip_dashes(dashed(e)) == e,
    decreases e.len(),
{
    if e.len() > 0 {
        lemma_strip_dashed(e.drop_last());
        let prev = dashed(e.drop_last());
        let x = e.last();
        assert(x != DASH);
        let i = e.len() - 1;
        if i % 4 == 0 && i != 0 {
            let q = prev.push(DASH);
            assert(q.drop_last() =~= prev);
            assert(strip_dashes(q) == strip_dashes(prev));
            assert(q.push(x).drop_last() =~= q);
            assert(strip_dashes(q.push(x)) == strip_dashes(q).push(x));
        } else {
            assert(prev.push(x).drop_last() =~= prev);
            assert(strip_dashes(prev.push(x)) == strip_dashes(prev).push(x));
        }
        assert(e.drop_last().push(x) =~= e);
    }
}

/// A separated text of ASCII bytes is ASCII.
proof fn lemma_dashed_ascii(e: Seq<u8>)
    requires
        forall|i: int| 0 <= i < e.len() ==> e[i] < 128,
    ensures
        forall|i: int| 0 <= i < dashed(e).len() ==> #[trigger] dashed(e)[i] < 128,
    decreases e.len(),
{
    if e.len() > 0 {
        lemma_dashed_ascii(e.drop_last());
        let prev = dashed(e.drop_last());
        assert(e.last() < 128);
        assert forall|i: int| 0 <= i < dashed(e).len() implies #[trigger] dashed(e)[i] < 128 by {
            if i < prev.len() {
                assert(prev[i] < 128);
            }
        }
    }
}

/// Writes `encoded` as text with a dash before every fourth byte but the
/// first, as the human-readable form shows a license.
pub fn add_dashes(encoded: &[u8]) -> (r: String)
    ensures
        r@ == dashed(encoded@).map_values(|b: u8| b as char),
{
    let ghost e = encoded@;
    let mut text: Vec<u8> = Vec::new();
    let mut i: usize = 0;
    while i < encoded.len()
        invariant
            e == encoded@,
            i <= e.len(),
            text@ == dashed(e.take(i as int)),
        decreases e.len() - i,
    {
        assert(e.take(i + 1).drop_last() =~= e.take(i as int));
        if i % 4 == 0 && i != 0 {
            text.push(DASH);
        }
        text.push(encoded[i]);
        i += 1;
    }
    assert(e.take(i as int) =~= e);
    let ghost d = dashed(e);
    let mut dashed_text = String::new();
    let mut j: usize = 0;
    while j < text.len()
        invariant
            text@ == d,
            j <= d.len(),
            dashed_text@ == d.take(j as int).map_values(|b: u8| b as char),
        decreases d.len() - j,
    {
        push_char(&mut dashed_text, text[j] as char);
        j += 1;
        assert(dashed_text@ =~= d.take(j as int).map_values(|b: u8| b as char));
    }
    assert(d.take(j as int) =~= d);
    dashed_text
}

impl AdminGenerator {
    /// One initialization vector for each payload chunk.
    pub open spec fn wf(&self) -> bool {
        self.ivs@.len() == self.parameters.payload_length
    }

    /// The initialization vectors as byte sequences.
    pub open spec fn iv_seqs(&self) -> Seq<Seq<u8>> {
        self.ivs@.map_values(|iv: Vec<u8>| iv@)
    }

    /// The payload this generator derives for `seed`: one chunk per vector.
    pub open spec fn payload_for(&self, seed: Seq<u8>) -> Seq<Seq<u8>> {
        Seq::new(
            self.ivs@.len(),
            |i: int| key_chunk(self.iv_seqs()[i], seed, self.parameters.chunk_size as nat),
        )
    }

    /// The license this generator issues for `seed`.
    pub open spec fn license_for(&self, seed: Seq<u8>) -> LicenseModel {
        LicenseModel {
            seed,
            payload: self.payload_for(seed),
            checksum: checksum_of(seed, self.payload_for(seed)),
        }
    }

    /// Creates a new admin generator with your parameters using initialization vectors (IVs)
    pub fn new_with_random_ivs(parameters: LicenseStructParameters) -> (r: Self)
        ensures
            r.parameters == parameters,
            r.wf(),
            forall|i: int|
                0 <= i < r.ivs@.len() ==> IV_MIN_LEN <= #[trigger] r.ivs@[i]@.len() < IV_MAX_LEN,
    {
        let mut ivs: Vec<Vec<u8>> = Vec::new();
        let mut k: usize = 0;
        while k < parameters.payload_length
            invariant
                k <= parameters.payload_length,
                ivs@.len() == k,
                forall|i: int| 0 <= i < k ==> IV_MIN_LEN <= #[trigger] ivs@[i]@.len() < IV_MAX_LEN,
            decreases parameters.payload_length - k,
        {
            let len = random_in_range(IV_MIN_LEN, IV_MAX_LEN);
            let mut iv: Vec<u8> = Vec::new();
            let mut j: usize = 0;
            while j < len
                invariant
                    j <= len,
                    iv@.len() == j,
                decreases len - j,
            {
                iv.push(0);
                j += 1;
            }
            fill_random(&mut iv);
            ivs.push(iv);
            k += 1;
        }
        Self { parameters, ivs }
    }

    /// Create a new valid license
    pub fn generate_license(&self, seed: Vec<u8>) -> (r: Result<License, LicenseGenError>)
        requires
            self.parameters.chunk_size <= DIGEST_LEN,
        ensures
            seed@.len() != self.parameters.seed_length ==> r == Err::<License, _>(
                LicenseGenError::InvalidSeedLen,
            ),
            seed@.len() == self.parameters.seed_length ==> (r matches Ok(l) && l@
                == self.license_for(seed@)),
    {
        if seed.len() != self.parameters.seed_length {
            return Err(LicenseGenError::InvalidSeedLen);
        }
        let mut payload: Vec<Vec<u8>> = Vec::new();
        let mut i: usize = 0;
        while i < self.ivs.len()
            invariant
                self.parameters.chunk_size <= DIGEST_LEN,
                i <= self.ivs@.len(),
                payload@.map_values(|c: Vec<u8>| c@) == self.payload_for(seed@).take(i as int),
            decreases self.ivs@.len() - i,
        {
            let chunk = generate_key_chunk(self.ivs[i].as_slice(), &seed, self.parameters.chunk_size);
            let ghost before = payload@.map_values(|c: Vec<u8>| c@);
            payload.push(chunk);
            assert(payload@.map_values(|c: Vec<u8>| c@) =~= before.push(chunk@));
            assert(self.iv_seqs()[i as int] == self.ivs@[i as int]@);
            i += 1;
            assert(payload@.map_values(|c: Vec<u8>| c@) =~= self.payload_for(seed@).take(i as int));
        }
        assert(self.payload_for(seed@).take(i as int) =~= self.payload_for(seed@));
        let checksum = generate_checksum(seed.as_slice(), payload.as_slice());
        Ok(License { seed, payload, checksum })
    }
}

impl License {
    /// The binary form: seed, every payload chunk in order, checksum.
    pub fn to_bytes(self) -> (r: Vec<u8>)
        ensures
            r@ == self@.bytes(),
    {
        let mut r: Vec<u8> = Vec::new();
        append_bytes(&mut r, self.seed.as_slice());
        let ghost chunks = self@.payload;
        let mut i: usize = 0;
        while i < self.payload.len()
            invariant
                chunks == self@.payload,
                i <= chunks.len(),
                r@ == self@.seed + chunks.take(i as int).flatten(),
            decreases chunks.len() - i,
        {
            append_bytes(&mut r, self.payload[i].as_slice());
            proof {
                chunks.take(i as int).lemma_flatten_push(chunks[i as int]);
                assert(chunks.take(i + 1) =~= chunks.take(i as int).push(chunks[i as int]));
            }
            i += 1;
        }
        assert(chunks.take(i as int) =~= chunks);
        append_bytes(&mut r, self.checksum.as_slice());
        r
    }

    /// Base64 encode your license and separate it with dashes
    pub fn to_human_readable(self) -> (r: String)
        ensures
            r@ == dashed(b64_encode_of(self@.bytes())).map_values(|b: u8| b as char),
            forall|p: LicenseStructParameters|
                #[trigger] self@.fits(p) ==> human_parse(encode_utf8(r@), p) == Some(
                    Ok::<LicenseModel, LicenseParseError>(self@),
                ),
    {
        let ghost l = self@;
        let bytes = self.to_bytes();
        let encoded = b64_encode(bytes.as_slice());
        let ghost e = encoded@;
        let ghost d = dashed(e);
        let dashed_text = add_dashes(encoded.as_slice());
        proof {
            assert forall|k: int| 0 <= k < e.len() implies e[k] != DASH && e[k] < 128 by {
                assert(is_b64_symbol(e[k]));
            }
            lemma_strip_dashed(e);
            lemma_dashed_ascii(e);
            let chars = dashed_text@;
            assert(is_ascii_chars(chars));
            is_ascii_chars_encode_utf8(chars);
            assert(encode_utf8(chars) =~= d);
            assert forall|p: LicenseStructParameters| #[trigger] l.fits(p) implies human_parse(
                encode_utf8(chars),
                p,
            ) == Some(Ok::<LicenseModel, LicenseParseError>(l)) by {
                lemma_bytes_round_trip(l, p);
            }
        }
        dashed_text
    }
}

} // verus!
