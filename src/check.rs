//! Check licenses generated by the generator.
use vstd::prelude::*;

use crate::blockers::{BlockCheckError, Blocker, BuiltinBlocklist, NoBlock};
use crate::gen::AdminGenerator;
use crate::primitives::{b64_decode, b64_decode_of, bytes_equal, sub_bytes, DIGEST_LEN};
use vstd::utf8::encode_utf8;
use crate::{checksum_of, generate_checksum, generate_key_chunk, key_chunk, LicenseStructParameters, CHECKSUM_LEN};

verus! {

/// Information needed for validating a license. If a keygen is made for your software, update this.
pub struct LicenseCheckInfo {
    pub known_iv: Vec<u8>,
    pub iv_index: usize,
}

/// Information contained within the license bytes.
#[derive(Clone)]
pub struct License {
    pub seed: Vec<u8>,
    pub payload: Vec<Vec<u8>>,
    pub checksum: Vec<u8>,
}

/// A license as plain byte sequences.
pub struct LicenseModel {
    pub seed: Seq<u8>,
    pub payload: Seq<Seq<u8>>,
    pub checksum: Seq<u8>,
}

impl View for License {
    type V = LicenseModel;

    open spec fn view(&self) -> LicenseModel {
        LicenseModel {
            seed: self.seed@,
            payload: self.payload@.map_values(|c: Vec<u8>| c@),
            checksum: self.checksum@,
        }
    }
}

impl LicenseModel {
    /// Every part has the length that `p` lays out.
    pub open spec fn fits(self, p: LicenseStructParameters) -> bool {
        &&& self.seed.len() == p.seed_length
        &&& self.payload.len() == p.payload_length
        &&& forall|k: int| 0 <= k < self.payload.len() ==> #[trigger] self.payload[k].len() == p.chunk_size
        &&& self.checksum.len() == CHECKSUM_LEN
    }

    /// The binary layout: seed, then each chunk in order, then checksum.
    pub open spec fn bytes(self) -> Seq<u8> {
        self.seed + self.payload.flatten() + self.checksum
    }

    /// The stored checksum is the one that seed and payload give.
    pub open spec fn checksum_holds(self) -> bool {
        self.checksum == checksum_of(self.seed, self.payload)
    }
}

/// Why license bytes could not be parsed.
#[derive(Clone, Copy, Debug, PartialEq, Eq, Structural)]
pub enum LicenseParseError {
    InvalidLength,
}

/// The `k`th payload chunk of license bytes `b` laid out under `p`.
pub open spec fn chunk_at(b: Seq<u8>, p: LicenseStructParameters, k: int) -> Seq<u8> {
    b.subrange(p.seed_length + k * p.chunk_size, p.seed_length + (k + 1) * p.chunk_size)
}

/// What `from_license_bytes` makes of `b` under `p`.
pub open spec fn parse_license(b: Seq<u8>, p: LicenseStructParameters) -> Result<
    LicenseModel,
    LicenseParseError,
> {
    if b.len() != p.license_len() {
        Err(LicenseParseError::InvalidLength)
    } else {
        Ok(
            LicenseModel {
                seed: b.take(p.seed_length as int),
                payload: Seq::new(p.payload_length as nat, |k: int| chunk_at(b, p, k)),
                checksum: b.skip(b.len() - CHECKSUM_LEN),
            },
        )
    }
}

/// The separator byte of the human-readable form.
pub const DASH: u8 = 45;

/// `t` with every separator byte taken out.
pub open spec fn strip_dashes(t: Seq<u8>) -> Seq<u8>
    decreases t.len(),
{
    if t.len() == 0 {
        t
    } else if t.last() == DASH {
        strip_dashes(t.drop_last())
    } else {
        strip_dashes(t.drop_last()).push(t.last())
    }
}

/// What `from_human_readable` makes of the UTF-8 bytes `text` under `p`:
/// `None` where the text without separators is not base64.
pub open spec fn human_parse(text: Seq<u8>, p: LicenseStructParameters) -> Option<
    Result<LicenseModel, LicenseParseError>,
> {
    match b64_decode_of(strip_dashes(text)) {
        None => None,
        Some(b) => Some(parse_license(b, p)),
    }
}

/// Why a human-readable license could not be parsed.
#[derive(Debug)]
pub enum HumanReadableParseError {
    Base64DecodeError(base64::DecodeError),
    ParseBytesError(LicenseParseError),
}

/// Flattening chunks that all have length `c` puts chunk `k` at `k * c`.
proof fn lemma_flatten_uniform(s: Seq<Seq<u8>>, c: int)
    requires
        c >= 0,
        forall|k: int| 0 <= k < s.len() ==> #[trigger] s[k].len() == c,
    ensures
        s.flatten().len() == s.len() * c,
        forall|k: int|
            0 <= k < s.len() ==> #[trigger] s.flatten().subrange(k * c, k * c + c) == s[k],
    decreases s.len(),
{
    if s.len() > 0 {
        let rest = s.drop_first();
        lemma_flatten_uniform(rest, c);
        assert(s.len() * c == c + rest.len() * c) by (nonlinear_arith)
            requires
                s.len() == rest.len() + 1,
        ;
        assert forall|k: int| 0 <= k < s.len() implies #[trigger] s.flatten().subrange(
            k * c,
            k * c + c,
        ) == s[k] by {
            if k == 0 {
                assert(s.flatten().subrange(0, c) =~= s[0]);
            } else {
                assert(k * c == c + (k - 1) * c) by (nonlinear_arith);
                assert((k - 1) * c + c <= rest.len() * c) by (nonlinear_arith)
                    requires
                        k - 1 < rest.len(),
                        c >= 0,
                ;
                assert(0 <= (k - 1) * c) by (nonlinear_arith)
                    requires
                        k >= 1,
                        c >= 0,
                ;
                assert(rest[k - 1] == s[k]);
                assert(s.flatten().subrange(k * c, k * c + c) =~= rest.flatten().subrange(
                    (k - 1) * c,
                    (k - 1) * c + c,
                ));
            }
        }
    }
}

/// Parsing the bytes of a license laid out under `p` gives the license back.
pub proof fn lemma_bytes_round_trip(l: LicenseModel, p: LicenseStructParameters)
    requires
        l.fits(p),
    ensures
        parse_license(l.bytes(), p) == Ok::<LicenseModel, LicenseParseError>(l),
{
    let b = l.bytes();
    let flat = l.payload.flatten();
    let cs = p.chunk_size as int;
    lemma_flatten_uniform(l.payload, cs);
    assert(b.take(p.seed_length as int) =~= l.seed);
    assert(b.skip(b.len() - CHECKSUM_LEN) =~= l.checksum);
    assert forall|k: int| 0 <= k < p.payload_length implies #[trigger] chunk_at(b, p, k)
        == l.payload[k] by {
        assert((k + 1) * cs == k * cs + cs) by (nonlinear_arith);
        assert(k * cs + cs <= p.payload_length * cs) by (nonlinear_arith)
            requires
                k < p.payload_length,
                cs >= 0,
        ;
        assert(0 <= k * cs) by (nonlinear_arith)
            requires
                k >= 0,
                cs >= 0,
        ;
        assert(chunk_at(b, p, k) =~= flat.subrange(k * cs, k * cs + cs));
    }
    assert(Seq::new(p.payload_length as nat, |k: int| chunk_at(b, p, k)) =~= l.payload);
}

/// Why a checksum check failed.
#[derive(Clone, Copy, Debug, PartialEq, Eq, Structural)]
pub enum ChecksumVerifyError {
    ChecksumDoesntMatch,
}

/// The outcome of verifying a license.
#[derive(Clone, Copy, Debug, PartialEq, Eq, Structural)]
pub enum LicenseVerifyResult {
    InvalidIVIndex,
    ChecksumFailed,
    LicenseGood,
    LicenseForged,
    LicenseBlocked(BlockCheckError),
}

/// Whether `chunk` is the chunk that `iv` derives for `seed`; a chunk longer
/// than a digest cannot be.
pub open spec fn chunk_matches(iv: Seq<u8>, seed: Seq<u8>, chunk: Seq<u8>) -> bool {
    chunk.len() <= DIGEST_LEN && chunk == key_chunk(iv, seed, chunk.len())
}

/// The outcome of the checks that come before the blocker, in order, or
/// `None` where all of them pass.
pub open spec fn verdict_before_block(l: LicenseModel, iv: Seq<u8>, index: int) -> Option<
    LicenseVerifyResult,
> {
    if !l.checksum_holds() {
        Some(LicenseVerifyResult::ChecksumFailed)
    } else if index >= l.payload.len() {
        Some(LicenseVerifyResult::InvalidIVIndex)
    } else if !chunk_matches(iv, l.seed, l.payload[index]) {
        Some(LicenseVerifyResult::LicenseForged)
    } else {
        None
    }
}

/// The outcome of a license that passed every check but the blocker's.
pub open spec fn verdict_after_block(b: Result<(), BlockCheckError>) -> LicenseVerifyResult {
    match b {
        Ok(()) => LicenseVerifyResult::LicenseGood,
        Err(e) => LicenseVerifyResult::LicenseBlocked(e),
    }
}

/// Check if a license is valid (checksum and key bytes).
/// A blocker is used to check if a license seed is blocked, but if you don't want it, set it to blockers::NoBlock.
pub fn verify_license<T: Blocker>(license: License, info: LicenseCheckInfo, blocker: T) -> (r:
    LicenseVerifyResult)
    ensures
        match verdict_before_block(license@, info.known_iv@, info.iv_index as int) {
            Some(v) => r == v,
            None => {
                &&& (r == LicenseVerifyResult::LicenseGood || r is LicenseBlocked)
                &&& blocker.decision(license@.seed) is Some ==> r == verdict_after_block(
                    blocker.decision(license@.seed)->Some_0,
                )
            },
        },
{
    if license.verify_checksum().is_err() {
        return LicenseVerifyResult::ChecksumFailed;
    }
    if info.iv_index >= license.payload.len() {
        return LicenseVerifyResult::InvalidIVIndex;
    }
    let chunk = &license.payload[info.iv_index];
    let chunk_size = chunk.len();
    if chunk_size > DIGEST_LEN {
        return LicenseVerifyResult::LicenseForged;
    }
    let derived = generate_key_chunk(info.known_iv.as_slice(), &license.seed, chunk_size);
    if bytes_equal(chunk.as_slice(), derived.as_slice()) {
        match blocker.check_block(license.seed.as_slice()) {
            Ok(()) => LicenseVerifyResult::LicenseGood,
            Err(e) => LicenseVerifyResult::LicenseBlocked(e),
        }
    } else {
        LicenseVerifyResult::LicenseForged
    }
}

impl License {
    /// Verifies only the checksum of your license, ignoring validity of key bytes.
    pub fn verify_checksum(&self) -> (r: Result<(), ChecksumVerifyError>)
        ensures
            r is Ok <==> self@.checksum_holds(),
            r is Err ==> r == Err::<(), _>(ChecksumVerifyError::ChecksumDoesntMatch),
    {
        let checksum = generate_checksum(self.seed.as_slice(), self.payload.as_slice());
        if bytes_equal(checksum.as_slice(), self.checksum.as_slice()) {
            Ok(())
        } else {
            Err(ChecksumVerifyError::ChecksumDoesntMatch)
        }
    }

    /// Parses the binary layout: seed, `payload_length` chunks of
    /// `chunk_size` bytes, checksum. Only the total length is checked.
    pub fn from_license_bytes(license_bytes: Vec<u8>, params: LicenseStructParameters) -> (r:
        Result<License, LicenseParseError>)
        ensures
            match parse_license(license_bytes@, params) {
                Ok(m) => (r matches Ok(l) && l@ == m),
                Err(e) => r == Err::<License, _>(e),
            },
    {
        let n = license_bytes.len();
        let payload_len_in_bytes = match params.payload_length.checked_mul(params.chunk_size) {
            Some(n) => n,
            None => return Err(LicenseParseError::InvalidLength),
        };
        let body_len = match params.seed_length.checked_add(payload_len_in_bytes) {
            Some(n) => n,
            None => return Err(LicenseParseError::InvalidLength),
        };
        let should_len = match body_len.checked_add(CHECKSUM_LEN) {
            Some(n) => n,
            None => return Err(LicenseParseError::InvalidLength),
        };
        if license_bytes.len() != should_len {
            return Err(LicenseParseError::InvalidLength);
        }
        let ghost b = license_bytes@;
        let ghost pl = params.payload_length as int;
        let ghost cs = params.chunk_size as int;
        let mut chunks: Vec<Vec<u8>> = Vec::new();
        let mut k: usize = 0;
        let mut offset: usize = params.seed_length;
        while k < params.payload_length
            invariant
                b == license_bytes@,
                pl == params.payload_length,
                cs == params.chunk_size,
                b.len() == should_len,
                should_len == params.seed_length + pl * cs + CHECKSUM_LEN,
                k <= pl,
                offset == params.seed_length + k * cs,
                chunks@.map_values(|c: Vec<u8>| c@) == Seq::new(k as nat, |j: int| chunk_at(b, params, j)),
            decreases pl - k,
        {
            proof {
                assert((k + 1) * cs == k * cs + cs) by (nonlinear_arith);
                assert((k + 1) * cs <= pl * cs) by (nonlinear_arith)
                    requires
                        k + 1 <= pl,
                        cs >= 0,
                ;
            }
            let chunk = sub_bytes(license_bytes.as_slice(), offset, offset + params.chunk_size);
            let ghost before = chunks@.map_values(|c: Vec<u8>| c@);
            assert(chunk@ == chunk_at(b, params, k as int));
            chunks.push(chunk);
            assert(chunks@.map_values(|c: Vec<u8>| c@) =~= before.push(chunk@));
            assert(chunks@.map_values(|c: Vec<u8>| c@) =~= Seq::new(
                (k + 1) as nat,
                |j: int| chunk_at(b, params, j),
            ));
            offset = offset + params.chunk_size;
            k += 1;
        }
        let seed = sub_bytes(license_bytes.as_slice(), 0, params.seed_length);
        let checksum = sub_bytes(
            license_bytes.as_slice(),
            license_bytes.len() - CHECKSUM_LEN,
            license_bytes.len(),
        );
        let license = License { seed, payload: chunks, checksum };
        assert(license@.seed =~= b.take(params.seed_length as int));
        assert(license@.checksum =~= b.skip(b.len() - CHECKSUM_LEN));
        Ok(license)
    }

    /// Parses the human-readable form: separators are dropped, the rest is
    /// base64-decoded and parsed as license bytes.
    pub fn from_human_readable(readable: String, params: LicenseStructParameters) -> (r: Result<
        License,
        HumanReadableParseError,
    >)
        ensures
            match human_parse(encode_utf8(readable@), params) {
                None => r is Err && r->Err_0 is Base64DecodeError,
                Some(Ok(m)) => (r matches Ok(l) && l@ == m),
                Some(Err(e)) => (r matches Err(HumanReadableParseError::ParseBytesError(f)) && f
                    == e),
            },
    {
        let text = readable.as_str().as_bytes();
        let ghost t = encode_utf8(readable@);
        let mut filtered: Vec<u8> = Vec::new();
        let mut i: usize = 0;
        while i < text.len()
            invariant
                text@ == t,
                i <= t.len(),
                filtered@ == strip_dashes(t.take(i as int)),
            decreases t.len() - i,
        {
            assert(t.take(i + 1).drop_last() =~= t.take(i as int));
            if text[i] != DASH {
                filtered.push(text[i]);
            }
            i += 1;
        }
        assert(t.take(i as int) =~= t);
        let decoded = match b64_decode(filtered.as_slice()) {
            Ok(d) => d,
            Err(err) => return Err(HumanReadableParseError::Base64DecodeError(err)),
        };
        match Self::from_license_bytes(decoded, params) {
            Ok(p) => Ok(p),
            Err(err) => Err(HumanReadableParseError::ParseBytesError(err)),
        }
    }
}

/// The license `l` with byte `j` of payload chunk `k` set to `v`.
pub open spec fn with_payload_byte(l: LicenseModel, k: int, j: int, v: u8) -> LicenseModel {
    LicenseModel { payload: l.payload.update(k, l.payload[k].update(j, v)), ..l }
}

/// Changing one byte of the payload of a license whose checksum holds makes
/// the checksum fail, wherever the changed payload gives another checksum.
/// With `CHECKSUM_LEN` bytes of digest two payloads can share one; then the
/// change goes unseen, which is why the checksum proves nothing.
pub proof fn lemma_payload_edit_breaks_checksum(l: LicenseModel, k: int, j: int, v: u8)
    requires
        l.checksum_holds(),
        0 <= k < l.payload.len(),
        0 <= j < l.payload[k].len(),
        v != l.payload[k][j],
        checksum_of(l.seed, with_payload_byte(l, k, j, v).payload) != checksum_of(
            l.seed,
            l.payload,
        ),
    ensures
        !with_payload_byte(l, k, j, v).checksum_holds(),
{
}

/// A license that `generator` issues for `seed` is laid out under its parameters.
pub proof fn lemma_generated_license_fits(generator: &AdminGenerator, seed: Seq<u8>)
    requires
        generator.wf(),
        seed.len() == generator.parameters.seed_length,
    ensures
        generator.license_for(seed).fits(generator.parameters),
{
}

/// A license that `generator` issues, written out as bytes and parsed back
/// under the same parameters, is the same license.
pub proof fn lemma_generated_bytes_round_trip(generator: &AdminGenerator, seed: Seq<u8>)
    requires
        generator.wf(),
        seed.len() == generator.parameters.seed_length,
    ensures
        parse_license(generator.license_for(seed).bytes(), generator.parameters) == Ok::<
            LicenseModel,
            LicenseParseError,
        >(generator.license_for(seed)),
{
    lemma_generated_license_fits(generator, seed);
    lemma_bytes_round_trip(generator.license_for(seed), generator.parameters);
}

/// A license that `generator` issues for `seed`, checked with the vector at
/// `index`, passes every check that comes before the blocker.
pub proof fn lemma_generated_license_passes(generator: &AdminGenerator, seed: Seq<u8>, index: int)
    requires
        generator.wf(),
        generator.parameters.chunk_size <= DIGEST_LEN,
        seed.len() == generator.parameters.seed_length,
        0 <= index < generator.parameters.payload_length,
    ensures
        verdict_before_block(generator.license_for(seed), generator.iv_seqs()[index], index) is None,
{
}

/// A license that `generator` issues for `seed`, checked with the vector at
/// `index` and no blocker, is good.
pub proof fn lemma_generated_license_good(generator: &AdminGenerator, seed: Seq<u8>, index: int)
    requires
        generator.wf(),
        generator.parameters.chunk_size <= DIGEST_LEN,
        seed.len() == generator.parameters.seed_length,
        0 <= index < generator.parameters.payload_length,
    ensures
        verdict_before_block(generator.license_for(seed), generator.iv_seqs()[index], index) is None,
        NoBlock.decision(seed) is Some,
        verdict_after_block(NoBlock.decision(seed)->Some_0) == LicenseVerifyResult::LicenseGood,
{
    lemma_generated_license_passes(generator, seed, index);
}

/// A license that `generator` issues for `seed`, checked at `index` with a
/// vector that derives another chunk than the generator's vector there, is forged.
pub proof fn lemma_wrong_iv_forged(
    generator: &AdminGenerator,
    seed: Seq<u8>,
    index: int,
    iv: Seq<u8>,
)
    requires
        generator.wf(),
        generator.parameters.chunk_size <= DIGEST_LEN,
        seed.len() == generator.parameters.seed_length,
        0 <= index < generator.parameters.payload_length,
        key_chunk(iv, seed, generator.parameters.chunk_size as nat) != key_chunk(
            generator.iv_seqs()[index],
            seed,
            generator.parameters.chunk_size as nat,
        ),
    ensures
        verdict_before_block(generator.license_for(seed), iv, index) == Some(
            LicenseVerifyResult::LicenseForged,
        ),
{
}

/// A license that `generator` issues, checked at an index past its payload,
/// gives `InvalidIVIndex`, whatever the vector.
pub proof fn lemma_index_out_of_range(
    generator: &AdminGenerator,
    seed: Seq<u8>,
    index: int,
    iv: Seq<u8>,
)
    requires
        generator.wf(),
        seed.len() == generator.parameters.seed_length,
        index >= generator.parameters.payload_length,
    ensures
        verdict_before_block(generator.license_for(seed), iv, index) == Some(
            LicenseVerifyResult::InvalidIVIndex,
        ),
{
}

/// A license that `generator` issues for `seed`, checked with the vector at
/// `index` against a built-in list, is blocked where the list holds `seed`
/// and good where it does not.
pub proof fn lemma_blocklist_verdict(
    generator: &AdminGenerator,
    seed: Seq<u8>,
    index: int,
    list: &BuiltinBlocklist,
)
    requires
        generator.wf(),
        generator.parameters.chunk_size <= DIGEST_LEN,
        seed.len() == generator.parameters.seed_length,
        0 <= index < generator.parameters.payload_length,
    ensures
        verdict_before_block(generator.license_for(seed), generator.iv_seqs()[index], index) is None,
        list.decision(seed) is Some,
        verdict_after_block(list.decision(seed)->Some_0) == if list.seeds().contains(seed) {
            LicenseVerifyResult::LicenseBlocked(BlockCheckError::Blocked)
        } else {
            LicenseVerifyResult::LicenseGood
        },
{
    lemma_generated_license_passes(generator, seed, index);
}

} // verus!
