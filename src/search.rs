//! The bounded target-size search: a state machine that proposes a quality,
//! takes the outcome of the encode at that quality, and either stops with an
//! output that fits or lowers the quality by 15% for the next attempt.

use crate::error::CompressionError;
use vstd::prelude::*;

verus! {

/// Most encode attempts one search makes.
pub const MAX_ATTEMPTS: u8 = 10;

/// First quality tried: the caller's minimum if below 95, else 95.
pub open spec fn start_quality(min_quality: Option<u8>) -> int {
    match min_quality {
        Some(m) => if m < 95 { m as int } else { 95 },
        None => 95,
    }
}

/// Lowest quality tried: the caller's minimum, 30 when none is given.
pub open spec fn floor_quality(min_quality: Option<u8>) -> int {
    match min_quality {
        Some(m) => m as int,
        None => 30,
    }
}

/// Quality after `k` reductions by 15%, each rounded down.
pub open spec fn quality_after(q0: int, k: nat) -> int
    decreases k,
{
    if k == 0 {
        q0
    } else {
        quality_after(q0, (k - 1) as nat) * 85 / 100
    }
}

/// Quality of attempt `k` (from 0) of a search, or `None` when the search
/// stops before it: after 10 attempts, or once the quality is below the floor.
pub open spec fn attempt_quality(min_quality: Option<u8>, k: nat) -> Option<int> {
    let q = quality_after(start_quality(min_quality), k);
    if k < 10 && q >= floor_quality(min_quality) {
        Some(q)
    } else {
        None
    }
}

/// A search never makes more than 10 attempts and never tries a quality
/// below the caller's minimum (30 by default).
pub proof fn lemma_attempts_bounded(min_quality: Option<u8>, k: nat)
    ensures
        attempt_quality(min_quality, k) matches Some(q) ==> k < 10 && q >= floor_quality(min_quality) && q
            <= 95,
{
    lemma_quality_after_le(start_quality(min_quality), k);
}

proof fn lemma_quality_after_le(q0: int, k: nat)
    ensures
        0 <= q0 ==> 0 <= quality_after(q0, k) <= q0,
    decreases k,
{
    if k > 0 {
        lemma_quality_after_le(q0, (k - 1) as nat);
    }
}

/// State of a target-size search.
pub struct SizeSearch {
    target_bytes: usize,
    min_quality: Option<u8>,
    quality: u8,
    attempts: u8,
    best: Option<Vec<u8>>,
}

/// What a search holds, as plain values.
pub struct SearchView {
    pub target_bytes: nat,
    pub min_quality: Option<u8>,
    pub quality: nat,
    pub attempts: nat,
    pub best: Option<Seq<u8>>,
}

impl View for SizeSearch {
    type V = SearchView;

    closed spec fn view(&self) -> SearchView {
        SearchView {
            target_bytes: self.target_bytes as nat,
            min_quality: self.min_quality,
            quality: self.quality as nat,
            attempts: self.attempts as nat,
            best: match self.best {
                Some(b) => Some(b@),
                None => None,
            },
        }
    }
}

impl SearchView {
    /// The quality is the start quality lowered once per attempt made.
    pub open spec fn wf(self) -> bool {
        &&& self.attempts <= 10
        &&& self.quality == quality_after(start_quality(self.min_quality), self.attempts)
    }
}

impl SizeSearch {
    /// A search for an output of at most `target_bytes` bytes.
    pub fn new(target_bytes: usize, min_quality: Option<u8>) -> (r: Self)
        ensures
            r@.wf(),
            r@.target_bytes == target_bytes,
            r@.min_quality == min_quality,
            r@.attempts == 0,
            r@.best is None,
    {
        let quality = match min_quality {
            Some(m) => if m < 95 { m } else { 95 },
            None => 95,
        };
        SizeSearch { target_bytes, min_quality, quality, attempts: 0, best: None }
    }

    /// Quality of the next attempt, or `None` when the search is over.
    pub fn next_quality(&self) -> (r: Option<u8>)
        requires
            self@.wf(),
        ensures
            r matches Some(q) ==> attempt_quality(self@.min_quality, self@.attempts) == Some(q as int),
            r is None ==> attempt_quality(self@.min_quality, self@.attempts) is None,
    {
        let floor: u8 = match self.min_quality {
            Some(m) => m,
            None => 30,
        };
        if self.attempts < MAX_ATTEMPTS && self.quality >= floor {
            Some(self.quality)
        } else {
            None
        }
    }

    /// Takes the outcome of the encode at the proposed quality. An output of
    /// at most the target size ends the search and is handed back. Any other
    /// output becomes the best so far; a failure leaves the best unchanged.
    /// Either way the quality drops by 15% for the next attempt.
    pub fn record(&mut self, outcome: Result<Vec<u8>, CompressionError>) -> (r: Option<Vec<u8>>)
        requires
            old(self)@.wf(),
            attempt_quality(old(self)@.min_quality, old(self)@.attempts) is Some,
        ensures
            final(self)@.wf(),
            final(self)@.target_bytes == old(self)@.target_bytes,
            final(self)@.min_quality == old(self)@.min_quality,
            final(self)@.attempts == old(self)@.attempts + 1,
            match outcome {
                Ok(bytes) => if bytes@.len() <= old(self)@.target_bytes {
                    r matches Some(b) && b@ == bytes@
                } else {
                    r is None && final(self)@.best == Some(bytes@)
                },
                Err(_) => r is None && final(self)@.best == old(self)@.best,
            },
    {
        proof {
            lemma_quality_after_le(start_quality(self.min_quality), self.attempts as nat);
        }
        let next = ((self.quality as u32) * 85 / 100) as u8;
        self.quality = next;
        self.attempts = self.attempts + 1;
        match outcome {
            Ok(bytes) => {
                if bytes.len() <= self.target_bytes {
                    Some(bytes)
                } else {
                    self.best = Some(bytes);
                    None
                }
            },
            Err(_) => None,
        }
    }

    /// Ends a search that found no output within the target: the last
    /// output obtained if any, else an encoding error.
    pub fn finish(self) -> (r: Result<Vec<u8>, CompressionError>)
        ensures
            match self@.best {
                Some(b) => r matches Ok(v) && v@ == b,
                None => r matches Err(CompressionError::EncodingError(_)),
            },
    {
        match self.best {
            Some(b) => Ok(b),
            None => Err(
                CompressionError::EncodingError(
                    String::from_str("could not compress to target size within quality constraints"),
                ),
            ),
        }
    }
}

} // verus!
