//! Proof of work: the search for a nonce under which the content hash of a
//! block header meets the header's difficulty.
//!
//! The admission rule reads the first `difficulty` characters of the digest as
//! a base-ten number and admits the header when that number is zero. A prefix
//! with a hexadecimal letter is no number, and neither is the empty prefix, so
//! a difficulty of zero admits nothing.

use vstd::prelude::*;
use crate::chain::Chain;
use crate::decimal::{decimal_value, lemma_reads_as_zero};
use crate::digest::{digest_hex, DIGEST_LENGTH};
use crate::json::header_json;
use crate::record::{BlockHeader, HeaderView};

verus! {

/// Why a search for a nonce ended without one.
#[derive(Debug, Clone, Copy, PartialEq, Eq, Structural)]
pub enum MiningError {
    /// The difficulty asks for a longer prefix than a digest has characters.
    DifficultyExceedsDigest,
    /// No nonce that fits the header's nonce field is admitted.
    NonceSpaceExhausted,
}

/// The admission rule: the digest has a prefix of `difficulty` characters, and
/// that prefix read as a base-ten number is zero.
pub open spec fn admitted(digest: Seq<char>, difficulty: nat) -> bool {
    difficulty <= digest.len() && decimal_value(digest.take(difficulty as int)) == Some(0nat)
}

/// The admission rule and the rule of leading zeros agree on every difficulty
/// but zero, which the admission rule meets on no digest.
pub proof fn lemma_admitted_is_leading_zeros(digest: Seq<char>, difficulty: nat)
    ensures
        admitted(digest, difficulty) <==> 0 < difficulty <= digest.len() && forall|i: int|
            0 <= i < difficulty ==> digest[i] == '0',
{
    if difficulty <= digest.len() {
        let prefix = digest.take(difficulty as int);
        lemma_reads_as_zero(prefix);
        if forall|i: int| 0 <= i < difficulty ==> digest[i] == '0' {
            assert forall|i: int| 0 <= i < prefix.len() implies prefix[i] == '0' by {
                assert(prefix[i] == digest[i]);
            }
        }
        if admitted(digest, difficulty) {
            assert forall|i: int| 0 <= i < difficulty implies digest[i] == '0' by {
                assert(prefix[i] == digest[i]);
            }
        }
    }
}

/// A difficulty of zero is met by no digest: the empty prefix is no number.
pub proof fn lemma_zero_difficulty_admits_nothing(digest: Seq<char>)
    ensures
        !admitted(digest, 0),
{
}

/// A header with its nonce replaced.
pub open spec fn with_nonce(header: HeaderView, nonce: nat) -> HeaderView {
    HeaderView { nonce, ..header }
}

/// Whether the header is admitted once it carries the given nonce.
pub open spec fn nonce_admitted(header: HeaderView, nonce: nat) -> bool {
    admitted(digest_hex(header_json(with_nonce(header, nonce))), header.difficulty)
}

/// Whether no nonce below the bound is admitted.
pub open spec fn none_admitted_below(header: HeaderView, bound: nat) -> bool {
    forall|nonce: nat| nonce < bound ==> !nonce_admitted(header, nonce)
}

/// Whether the nonce is the least one under which the header is admitted.
pub open spec fn least_admitted(header: HeaderView, nonce: nat) -> bool {
    nonce_admitted(header, nonce) && none_admitted_below(header, nonce)
}

/// Whether some nonce that fits the nonce field admits the header.
pub open spec fn minable(header: HeaderView) -> bool {
    exists|nonce: nat| nonce <= u32::MAX && nonce_admitted(header, nonce)
}

/// The least nonce under which the header is admitted, where there is one.
pub open spec fn least_nonce(header: HeaderView) -> nat {
    choose|nonce: nat| least_admitted(header, nonce)
}

/// A header has at most one least admitted nonce.
pub proof fn lemma_least_admitted_unique(header: HeaderView, a: nat, b: nat)
    requires
        least_admitted(header, a),
        least_admitted(header, b),
    ensures
        a == b,
{
}

/// Below every admitted nonce, or at it, lies the least admitted one.
pub proof fn lemma_least_admitted_exists(header: HeaderView, nonce: nat)
    requires
        nonce_admitted(header, nonce),
    ensures
        least_nonce(header) <= nonce,
        least_admitted(header, least_nonce(header)),
    decreases nonce,
{
    if none_admitted_below(header, nonce) {
        lemma_least_admitted_unique(header, nonce, least_nonce(header));
    } else {
        let lower: nat = choose|lower: nat| lower < nonce && nonce_admitted(header, lower);
        lemma_least_admitted_exists(header, lower);
    }
}

impl Chain {
    /// Tells whether a digest meets a difficulty under the admission rule.
    pub fn meets_difficulty(digest: &str, difficulty: u32) -> (met: bool)
        ensures
            met == admitted(digest@, difficulty as nat),
    {
        let length: usize = digest.unicode_len();
        let wanted: usize = difficulty as usize;
        proof {
            lemma_admitted_is_leading_zeros(digest@, difficulty as nat);
        }
        if wanted == 0 || wanted > length {
            return false;
        }
        let mut i: usize = 0;
        while i < wanted
            invariant
                i <= wanted <= length,
                wanted == difficulty,
                length == digest@.len(),
                forall|j: int| 0 <= j < i ==> digest@[j] == '0',
            decreases wanted - i,
        {
            if digest.get_char(i) != '0' {
                proof {
                    lemma_admitted_is_leading_zeros(digest@, difficulty as nat);
                }
                return false;
            }
            i += 1;
        }
        true
    }

    /// Tries the nonces from 0 up to and including `limit`, in order, and
    /// stops at the first one under which the header is admitted. The header
    /// then carries that nonce; when there is none it is left as it was. No
    /// other field changes.
    pub fn search_nonce(block_header: &mut BlockHeader, limit: u32) -> (found: bool)
        ensures
            found ==> final(block_header)@.nonce <= limit && final(block_header)@ == with_nonce(
                old(block_header)@,
                final(block_header)@.nonce,
            ) && least_admitted(old(block_header)@, final(block_header)@.nonce),
            !found ==> final(block_header)@ == old(block_header)@ && none_admitted_below(
                old(block_header)@,
                limit as nat + 1,
            ),
    {
        let ghost given = block_header@;
        let saved: u32 = block_header.nonce;
        let mut nonce: u32 = 0;
        loop
            invariant
                nonce <= limit,
                given == old(block_header)@,
                saved == given.nonce,
                with_nonce(block_header@, 0) == with_nonce(given, 0),
                none_admitted_below(given, nonce as nat),
            decreases limit - nonce,
        {
            block_header.nonce = nonce;
            let hash = Chain::hash(block_header);
            if Chain::meets_difficulty(hash.as_str(), block_header.difficulty) {
                return true;
            }
            if nonce == limit {
                block_header.nonce = saved;
                return false;
            }
            nonce += 1;
        }
    }

    /// The proof-of-work search: starting at nonce 0, takes the least nonce
    /// under which the header's content hash meets the header's difficulty and
    /// stores it in the header. Fails, and leaves the header as it was, when
    /// the difficulty is longer than a digest or no nonce is admitted.
    pub fn proof_of_work(block_header: &mut BlockHeader) -> (outcome: Result<(), MiningError>)
        ensures
            outcome is Ok <==> minable(old(block_header)@),
            outcome is Ok ==> final(block_header)@ == with_nonce(
                old(block_header)@,
                final(block_header)@.nonce,
            ) && least_admitted(old(block_header)@, final(block_header)@.nonce),
            outcome is Err ==> final(block_header)@ == old(block_header)@,
            outcome == Err::<(), MiningError>(MiningError::DifficultyExceedsDigest)
                <==> old(block_header)@.difficulty > DIGEST_LENGTH,
    {
        if block_header.difficulty > DIGEST_LENGTH {
            return Err(MiningError::DifficultyExceedsDigest);
        }
        if block_header.difficulty == 0 {
            return Err(MiningError::NonceSpaceExhausted);
        }
        if Chain::search_nonce(block_header, u32::MAX) {
            Ok(())
        } else {
            Err(MiningError::NonceSpaceExhausted)
        }
    }
}

} // verus!
