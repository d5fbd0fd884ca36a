//! Predictive SCALE size accounting for election snapshots.
//!
//! The snapshot handed to the election solver has the form `Vec<Voter>` with
//! `Voter = (AccountId, VoteWeight, Vec<AccountId>)`. The tracker computes the
//! encoded byte length of such a snapshot from static rules, without encoding
//! anything: a `u64` encodes as eight bytes, a vector as a compact length
//! prefix followed by its items.

use vstd::prelude::*;
use crate::{AccountId, VoteWeight};

verus! {

/// One voter record of a snapshot: the voter, its weight, and its votes.
pub type Voter = (AccountId, VoteWeight, Vec<AccountId>);

/// Encoded size of one `AccountId`.
pub const ACCOUNT_BYTES: usize = 8;

/// Encoded size of one `VoteWeight`.
pub const WEIGHT_BYTES: usize = 8;

/// The SCALE compact length prefix of a vector with `length` items, for
/// lengths that fit a `u32`.
pub open spec fn spec_length_prefix(length: nat) -> int {
    if length <= 63 {
        1
    } else if length <= 16383 {
        2
    } else if length <= 1073741823 {
        4
    } else {
        5
    }
}

/// The encoded byte size of a voter who casted `votes` votes.
pub open spec fn spec_voter_size(votes: nat) -> int {
    spec_length_prefix(votes) + votes * ACCOUNT_BYTES + WEIGHT_BYTES + ACCOUNT_BYTES
}

/// The encoded byte size of the items of a voter list, without the outer
/// length prefix.
pub open spec fn spec_voter_items_size(s: Seq<Voter>) -> int
    decreases s.len(),
{
    if s.len() == 0 {
        0
    } else {
        spec_voter_items_size(s.drop_last()) + spec_voter_size(s.last().2@.len())
    }
}

/// The full encoded byte size of a voter list.
pub open spec fn spec_voters_size(s: Seq<Voter>) -> int {
    spec_length_prefix(s.len()) + spec_voter_items_size(s)
}

/// The full encoded byte size of a target list with `n` entries.
pub open spec fn spec_targets_size(n: nat) -> int {
    spec_length_prefix(n) + n * ACCOUNT_BYTES
}

/// A voter record occupies at least its weight, its own account and one
/// prefix byte.
pub proof fn lemma_voter_size_at_least(votes: nat)
    ensures
        spec_voter_size(votes) >= 17,
        spec_voter_size(votes) >= 17 + votes * ACCOUNT_BYTES,
{
    assert(votes * ACCOUNT_BYTES >= 0) by (nonlinear_arith);
}

/// The compact length prefix never shrinks as the length grows.
pub proof fn lemma_length_prefix_monotone(a: nat, b: nat)
    requires
        a <= b,
    ensures
        spec_length_prefix(a) <= spec_length_prefix(b),
{
}

/// A voter with fewer votes never encodes larger.
pub proof fn lemma_voter_size_monotone(a: nat, b: nat)
    requires
        a <= b,
    ensures
        spec_voter_size(a) <= spec_voter_size(b),
{
    lemma_length_prefix_monotone(a, b);
    assert(a * ACCOUNT_BYTES <= b * ACCOUNT_BYTES) by (nonlinear_arith)
        requires
            a <= b,
    ;
}

/// Every entry of a voter list costs at least 17 bytes of items size.
pub proof fn lemma_voter_items_size_lower(s: Seq<Voter>)
    ensures
        spec_voter_items_size(s) >= 17 * s.len(),
    decreases s.len(),
{
    if s.len() > 0 {
        lemma_voter_items_size_lower(s.drop_last());
        lemma_voter_size_at_least(s.last().2@.len());
    }
}

/// Relies on `parity_scale_codec::Compact<u32>`: its SCALE encoding takes one
/// byte for values up to 63, two bytes up to 16383, four bytes up to
/// 2^30 - 1, and five bytes above that.
#[verifier::external_body]
fn compact_encoded_size(x: u32) -> (r: usize)
    ensures
        r as int == spec_length_prefix(x as nat),
{
    parity_scale_codec::Encode::encoded_size(&parity_scale_codec::Compact(x))
}

/// A static tracker for the snapshot of all voters.
///
/// Computes the SCALE-encoded byte length of a snapshot based on static
/// rules, without any actual encoding. For each voter added to the snapshot,
/// [`Self::register_voter`] should be called with the number of votes. The
/// tracker then holds the size of the whole `Vec<Voter>` except for the
/// length prefix of the outer vector; [`Self::final_byte_size_of`] adds that
/// prefix. All accumulation saturates at `usize::MAX`.
pub struct StaticSizeTracker {
    size: usize,
}

impl StaticSizeTracker {
    /// The bytes registered so far, without the outer length prefix.
    pub closed spec fn spec_size(&self) -> int {
        self.size as int
    }

    /// A fresh tracker with nothing registered.
    pub fn new() -> (r: Self)
        ensures
            r.spec_size() == 0,
    {
        StaticSizeTracker { size: 0 }
    }

    /// The length prefix of a vector with the given length.
    pub fn length_prefix(length: usize) -> (r: usize)
        requires
            length <= u32::MAX,
        ensures
            r as int == spec_length_prefix(length as nat),
    {
        if length <= 63 {
            1
        } else if length <= 16383 {
            2
        } else if length <= 1073741823 {
            4
        } else {
            compact_encoded_size(length as u32)
        }
    }

    /// The byte size of a voter who casted `votes` votes, saturating at
    /// `usize::MAX`.
    pub fn voter_size(votes: usize) -> (r: usize)
        requires
            votes <= u32::MAX,
        ensures
            r as int == vstd::math::min(spec_voter_size(votes as nat), usize::MAX as int),
    {
        proof {
            lemma_voter_size_at_least(votes as nat);
        }
        let votes_bytes: usize = match votes.checked_mul(ACCOUNT_BYTES) {
            Some(b) => b,
            None => usize::MAX,
        };
        Self::length_prefix(votes)
            .saturating_add(votes_bytes)
            .saturating_add(WEIGHT_BYTES)
            .saturating_add(ACCOUNT_BYTES)
    }

    /// Register a voter in `self` who has casted `votes` votes.
    pub fn register_voter(&mut self, votes: usize)
        requires
            votes <= u32::MAX,
        ensures
            final(self).spec_size() == vstd::math::min(
                old(self).spec_size() + spec_voter_size(votes as nat),
                usize::MAX as int,
            ),
    {
        self.size = self.size.saturating_add(Self::voter_size(votes));
    }

    /// Final size: size of all registered elements, plus the length prefix of
    /// a vector with `length` items. Saturates at `usize::MAX`.
    pub fn final_byte_size_of(&self, length: usize) -> (r: usize)
        requires
            length <= u32::MAX,
        ensures
            r as int == vstd::math::min(
                self.spec_size() + spec_length_prefix(length as nat),
                usize::MAX as int,
            ),
    {
        self.size.saturating_add(Self::length_prefix(length))
    }
}

} // verus!
