//! Revocation checks: a blocker decides whether a license seed is blocked.
use vstd::prelude::*;

use crate::primitives::{b64_decode, b64_decode_of, bytes_equal};

verus! {

/// Why a blocker refused a seed.
#[derive(Clone, Copy, Debug, PartialEq, Eq, Structural)]
pub enum BlockCheckError {
    /// The list of blocked seeds could not be had or read.
    BadList,
    /// The seed is on the list.
    Blocked,
}

/// Decides whether a seed may be used.
pub trait Blocker {
    /// What `check_block` returns for `seed`, where the blocker's own data
    /// decides it; `None` where the answer rests on something outside it
    /// (a file fetched over the network, say). Unless a blocker says more,
    /// nothing is known of its answer.
    open spec fn decision(&self, seed: Seq<u8>) -> Option<Result<(), BlockCheckError>> {
        None
    }

    fn check_block(&self, seed: &[u8]) -> (r: Result<(), BlockCheckError>)
        ensures
            self.decision(seed@) is Some ==> Some(r) == self.decision(seed@),
    ;
}

/// Blocker that always returns an Ok result
pub struct NoBlock;

impl Blocker for NoBlock {
    open spec fn decision(&self, seed: Seq<u8>) -> Option<Result<(), BlockCheckError>> {
        Some(Ok(()))
    }

    fn check_block(&self, _seed: &[u8]) -> (r: Result<(), BlockCheckError>) {
        Ok(())
    }
}

/// The outcome of looking `seed` up in `list`.
pub open spec fn list_outcome(list: Seq<Seq<u8>>, seed: Seq<u8>) -> Result<(), BlockCheckError> {
    if list.contains(seed) {
        Err(BlockCheckError::Blocked)
    } else {
        Ok(())
    }
}

/// Whether `seed` is one of the seeds in `list`.
fn contains_seed(list: &Vec<Vec<u8>>, seed: &[u8]) -> (r: bool)
    ensures
        r == list@.map_values(|s: Vec<u8>| s@).contains(seed@),
{
    let ghost seeds = list@.map_values(|s: Vec<u8>| s@);
    let mut i: usize = 0;
    while i < list.len()
        invariant
            i <= list@.len(),
            seeds == list@.map_values(|s: Vec<u8>| s@),
            forall|j: int| 0 <= j < i ==> seeds[j] != seed@,
        decreases list@.len() - i,
    {
        if bytes_equal(list[i].as_slice(), seed) {
            assert(seeds[i as int] == seed@);
            return true;
        }
        i += 1;
    }
    false
}

/// Blocks seeds hardcoded into the binary
pub struct BuiltinBlocklist(pub Vec<Vec<u8>>);

impl BuiltinBlocklist {
    /// The blocked seeds.
    pub open spec fn seeds(&self) -> Seq<Seq<u8>> {
        self.0@.map_values(|s: Vec<u8>| s@)
    }
}

impl Blocker for BuiltinBlocklist {
    open spec fn decision(&self, seed: Seq<u8>) -> Option<Result<(), BlockCheckError>> {
        Some(list_outcome(self.seeds(), seed))
    }

    fn check_block(&self, seed: &[u8]) -> (r: Result<(), BlockCheckError>) {
        if contains_seed(&self.0, seed) {
            Err(BlockCheckError::Blocked)
        } else {
            Ok(())
        }
    }
}

/// The newline byte that separates the lines of a remote blocklist.
pub const NEWLINE: u8 = 10;

/// `body` cut at each newline byte; there is always one line more than there
/// are newlines, and the newlines themselves are dropped.
pub open spec fn split_lines(body: Seq<u8>) -> Seq<Seq<u8>>
    decreases body.len(),
{
    if body.len() == 0 {
        seq![Seq::empty()]
    } else {
        let prev = split_lines(body.drop_last());
        if body.last() == NEWLINE {
            prev.push(Seq::empty())
        } else {
            prev.update(prev.len() - 1, prev.last().push(body.last()))
        }
    }
}

proof fn lemma_split_lines_nonempty(body: Seq<u8>)
    ensures
        split_lines(body).len() >= 1,
    decreases body.len(),
{
    if body.len() > 0 {
        lemma_split_lines_nonempty(body.drop_last());
    }
}

/// Each line base64-decoded, or `None` where any line fails to decode.
pub open spec fn decode_lines(lines: Seq<Seq<u8>>) -> Option<Seq<Seq<u8>>>
    decreases lines.len(),
{
    if lines.len() == 0 {
        Some(Seq::empty())
    } else {
        match (decode_lines(lines.drop_last()), b64_decode_of(lines.last())) {
            (Some(done), Some(seed)) => Some(done.push(seed)),
            _ => None,
        }
    }
}

/// The outcome of checking `seed` against a blocklist file with one
/// base64-encoded seed per line: a list with a line that does not decode is
/// refused whole.
pub open spec fn blocklist_outcome(body: Seq<u8>, seed: Seq<u8>) -> Result<(), BlockCheckError> {
    match decode_lines(split_lines(body)) {
        None => Err(BlockCheckError::BadList),
        Some(seeds) => list_outcome(seeds, seed),
    }
}

/// Checks `seed` against the text of a blocklist with one base64-encoded seed
/// per line, as a remote blocklist file holds it.
pub fn check_blocklist_body(body: &[u8], seed: &[u8]) -> (r: Result<(), BlockCheckError>)
    ensures
        r == blocklist_outcome(body@, seed@),
{
    let mut seeds: Vec<Vec<u8>> = Vec::new();
    let mut line: Vec<u8> = Vec::new();
    let mut ok = true;
    let mut i: usize = 0;
    proof {
        assert(body@.take(0) =~= Seq::<u8>::empty());
    }
    while i < body.len()
        invariant
            i <= body@.len(),
            split_lines(body@.take(i as int)).len() >= 1,
            line@ == split_lines(body@.take(i as int)).last(),
            ok ==> decode_lines(split_lines(body@.take(i as int)).drop_last()) == Some(
                seeds@.map_values(|s: Vec<u8>| s@),
            ),
            !ok ==> decode_lines(split_lines(body@.take(i as int)).drop_last()) is None,
        decreases body@.len() - i,
    {
        let ghost prev = split_lines(body@.take(i as int));
        assert(body@.take(i + 1).drop_last() =~= body@.take(i as int));
        if body[i] == NEWLINE {
            if ok {
                match b64_decode(line.as_slice()) {
                    Ok(decoded) => {
                        let ghost before = seeds@.map_values(|s: Vec<u8>| s@);
                        seeds.push(decoded);
                        assert(seeds@.map_values(|s: Vec<u8>| s@) =~= before.push(decoded@));
                    },
                    Err(_) => {
                        ok = false;
                    },
                }
            }
            line = Vec::new();
            assert(prev.push(Seq::empty()).drop_last() =~= prev);
            assert(prev.drop_last().push(prev.last()) =~= prev);
        } else {
            line.push(body[i]);
            assert(prev.update(prev.len() - 1, prev.last().push(body@[i as int])).drop_last()
                =~= prev.drop_last());
        }
        i += 1;
    }
    let ghost all = split_lines(body@);
    proof {
        assert(body@.take(i as int) =~= body@);
        assert(decode_lines(all) == match (decode_lines(all.drop_last()), b64_decode_of(all.last())) {
            (Some(done), Some(seed)) => Some(done.push(seed)),
            _ => None,
        });
    }
    if !ok {
        return Err(BlockCheckError::BadList);
    }
    match b64_decode(line.as_slice()) {
        Ok(decoded) => {
            let ghost before = seeds@.map_values(|s: Vec<u8>| s@);
            seeds.push(decoded);
            assert(seeds@.map_values(|s: Vec<u8>| s@) =~= before.push(decoded@));
            assert(decode_lines(all) == Some(seeds@.map_values(|s: Vec<u8>| s@)));
        },
        Err(_) => {
            return Err(BlockCheckError::BadList);
        },
    }
    if contains_seed(&seeds, seed) {
        Err(BlockCheckError::Blocked)
    } else {
        Ok(())
    }
}

} // verus!
