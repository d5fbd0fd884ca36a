//! The staking data model: exposures, preferences, nominations, reward
//! points, ledgers and slash records.

use vstd::prelude::*;
use crate::{AccountId, Balance, EraIndex};
use crate::alist::AList;
use crate::fraction::{sum_values, Perbill};

verus! {

/// Whether the scheduler is forced to act on the next session boundary.
#[derive(Clone, Copy, PartialEq, Eq, Structural, Debug)]
pub enum Forcing {
    /// Not forcing anything: a new era happens when the era length is
    /// reached.
    NotForcing,
    /// Force a new era on the next session boundary, then return to
    /// `NotForcing`.
    ForceNew,
    /// Never trigger a new era.
    ForceNone,
    /// Force a new era on every session boundary.
    ForceAlways,
}

/// Information regarding the era currently producing blocks.
#[derive(Clone, Copy, PartialEq, Eq, Structural, Debug)]
pub struct ActiveEraInfo {
    /// Index of the era.
    pub index: EraIndex,
    /// Moment of start expressed as millisecond from unix epoch. Set once,
    /// on the first session boundary after the era begins.
    pub start: Option<u64>,
}

/// The amount of exposure for one nominator towards a validator.
#[derive(Clone, Copy, PartialEq, Eq, Structural, Debug)]
pub struct IndividualExposure {
    /// The nominator in question.
    pub who: AccountId,
    /// Amount of funds exposed.
    pub value: Balance,
}

/// The stake values of a list of individual exposures.
pub open spec fn exposure_values(s: Seq<IndividualExposure>) -> Seq<u64> {
    s.map_values(|e: IndividualExposure| e.value)
}

/// A snapshot of the stake backing a single validator in an era.
pub struct Exposure {
    /// The total balance backing this validator.
    pub total: Balance,
    /// The validator's own stake.
    pub own: Balance,
    /// The portions of nominators' stakes.
    pub others: Vec<IndividualExposure>,
}

impl Exposure {
    /// The sum of the nominators' portions.
    pub open spec fn others_sum(&self) -> int {
        sum_values(exposure_values(self.others@))
    }

    /// The total is exactly the own stake plus the nominators' portions.
    pub open spec fn balanced(&self) -> bool {
        self.own + self.others_sum() == self.total
    }

    /// The own stake plus the nominators' portions fit within the total; a
    /// reward-clipped copy keeps the full total while dropping entries.
    pub open spec fn sub_balanced(&self) -> bool {
        self.own + self.others_sum() <= self.total
    }

    /// An exposure with no backing at all.
    pub fn empty() -> (r: Self)
        ensures
            r.total == 0,
            r.own == 0,
            r.others@ =~= Seq::<IndividualExposure>::empty(),
            r.balanced(),
    {
        Exposure { total: 0, own: 0, others: Vec::new() }
    }
}

/// Preference of what happens regarding validation.
#[derive(Clone, Copy, PartialEq, Eq, Structural, Debug)]
pub struct ValidatorPrefs {
    /// Reward that the validator takes up-front; the rest is split between
    /// the validator and its nominators proportionally to their stake.
    pub commission: Perbill,
    /// Whether or not this validator is accepting more nominations.
    pub blocked: bool,
}

impl ValidatorPrefs {
    /// The commission never exceeds one whole.
    pub open spec fn wf(&self) -> bool {
        self.commission.wf()
    }

    /// Preferences with no commission, accepting nominations.
    pub fn default_prefs() -> (r: Self)
        ensures
            r.wf(),
            r.commission.spec_parts() == 0,
            !r.blocked,
            r == (ValidatorPrefs { commission: Perbill::spec_zero(), blocked: false }),
    {
        ValidatorPrefs { commission: Perbill::zero(), blocked: false }
    }
}

/// A record of the nominations made by a specific account.
pub struct Nominations {
    /// The targets of nomination.
    pub targets: Vec<AccountId>,
    /// The era the nominations were submitted.
    ///
    /// Except for initial nominations which are considered submitted at era
    /// zero.
    pub submitted_in: EraIndex,
    /// Whether the nominations have been suppressed. This can happen due to
    /// slashing of the validators, and will be reset by a consumer-triggered
    /// update.
    pub suppressed: bool,
}

/// Reward points of an era. Used to split an era's payout between
/// validators.
pub struct EraRewardPoints {
    /// Total number of points. Equals the sum of reward points for each
    /// validator.
    pub total: u32,
    /// The reward points earned by a given validator.
    pub individual: AList<u32>,
}

/// The sum of the point values of an association list of reward points.
pub open spec fn points_sum(s: Seq<(u64, u32)>) -> int
    decreases s.len(),
{
    if s.len() == 0 {
        0
    } else {
        points_sum(s.drop_last()) + s.last().1
    }
}

impl EraRewardPoints {
    /// The total is the sum of the individual grants.
    pub open spec fn wf(&self) -> bool {
        &&& self.individual.wf()
        &&& self.total as int == points_sum(self.individual@)
    }

    /// No reward points at all.
    pub fn empty() -> (r: Self)
        ensures
            r.wf(),
            r.total == 0,
            r.individual@ =~= Seq::<(u64, u32)>::empty(),
    {
        EraRewardPoints { total: 0, individual: AList::new() }
    }
}

/// Every individual grant is bounded by the sum of all grants.
pub proof fn lemma_points_entry_le_sum(s: Seq<(u64, u32)>, i: int)
    requires
        0 <= i < s.len(),
    ensures
        s[i].1 <= points_sum(s),
        points_sum(s) >= 0,
    decreases s.len(),
{
    if s.len() > 0 {
        if i + 1 == s.len() {
            lemma_points_sum_nonneg(s.drop_last());
        } else {
            lemma_points_entry_le_sum(s.drop_last(), i);
            assert(s.drop_last()[i] == s[i]);
        }
    }
}

/// Removing one entry removes exactly its contribution from the points sum.
pub proof fn lemma_points_sum_remove(s: Seq<(u64, u32)>, i: int)
    requires
        0 <= i < s.len(),
    ensures
        points_sum(s.remove(i)) == points_sum(s) - s[i].1,
    decreases s.len(),
{
    if i == s.len() - 1 {
        assert(s.remove(i) =~= s.drop_last());
    } else {
        let t = s.remove(i);
        assert(t.drop_last() =~= s.drop_last().remove(i));
        assert(t.last() == s.last());
        lemma_points_sum_remove(s.drop_last(), i);
    }
}

/// Sums of reward points are non-negative.
pub proof fn lemma_points_sum_nonneg(s: Seq<(u64, u32)>)
    ensures
        points_sum(s) >= 0,
    decreases s.len(),
{
    if s.len() > 0 {
        lemma_points_sum_nonneg(s.drop_last());
    }
}

/// A destination account for payment.
#[derive(Clone, Copy, PartialEq, Eq, Structural, Debug)]
pub enum RewardDestination {
    /// Pay into the stash account, increasing the amount at stake
    /// accordingly.
    Staked,
    /// Pay into the stash account, not increasing the amount at stake.
    Stash,
    /// Pay into the controller account.
    Controller,
    /// Pay into a specified account.
    Account(AccountId),
    /// Receive no reward.
    NoPayee,
}

/// The ledger of a (bonded) stash.
pub struct StakingLedger {
    /// The stash account whose balance is actually locked and at stake.
    pub stash: AccountId,
    /// The total amount of the stash's balance that we are currently
    /// accounting for.
    pub total: Balance,
    /// The total amount of the stash's balance that will be at stake in any
    /// forthcoming eras.
    pub active: Balance,
    /// List of eras for which the stakers behind a validator have claimed
    /// rewards. Only updated for validators.
    pub claimed_rewards: Vec<EraIndex>,
}

impl StakingLedger {
    /// Claimed eras are kept strictly increasing.
    pub open spec fn wf(&self) -> bool {
        forall|i: int, j: int|
            0 <= i < j < self.claimed_rewards@.len() ==> #[trigger] self.claimed_rewards@[i]
                < #[trigger] self.claimed_rewards@[j]
    }

    /// Whether the rewards of `era` have been claimed.
    pub open spec fn spec_claimed(&self, era: EraIndex) -> bool {
        self.claimed_rewards@.contains(era)
    }
}

/// A pending slash record: the value of the slash, and the authors of the
/// offence report, keyed in the pending queue by the era the offence
/// happened in.
pub struct UnappliedSlash {
    /// The stash ID of the offending validator.
    pub validator: AccountId,
    /// The validator's own slash.
    pub own: Balance,
    /// All other slashed stakers and amounts.
    pub others: Vec<IndividualExposure>,
    /// Reporters of the offence; bounty payout recipients.
    pub reporters: Vec<AccountId>,
    /// The amount of payout.
    pub payout: Balance,
}

/// One winner's backing as reported by the election solver: an aggregate
/// total and the individual (voter, weight) pairs.
pub struct Support {
    /// Total support, in solver weight units.
    pub total: u128,
    /// Support from each voter, in solver weight units.
    pub voters: Vec<(AccountId, u128)>,
}

/// What to do with disabling of offending validators.
#[derive(Clone, Copy, PartialEq, Eq, Structural, Debug)]
pub enum DisableStrategy {
    /// Independently of slashing, this offence will not disable the offender.
    Never,
    /// Only disable the offender if it is also slashed.
    WhenSlashed,
    /// Independently of slashing, this offence will always disable the
    /// offender.
    Always,
}

/// An offence report handed in by the misbehaviour-reporting layer.
pub struct OffenceDetails {
    /// The offending validator and the exposure it had at the offence era.
    pub offender: AccountId,
    /// The full exposure of the offender in the era of the offence.
    pub exposure: Exposure,
    /// The accounts that reported the offence.
    pub reporters: Vec<AccountId>,
}

/// A caller-visible rejection of a payout request; no state is mutated when
/// one is returned.
#[derive(Clone, Copy, PartialEq, Eq, Structural, Debug)]
pub enum StakingError {
    /// The era is unknown, too old, or has no recorded payout.
    InvalidEraToReward,
    /// The given account is not a bonded stash.
    NotStash,
    /// The stash's controller has no ledger.
    NotController,
    /// The stakers of this validator have already claimed this era.
    AlreadyClaimed,
}

} // verus!
