//! The reward distributor: block-production credit bookkeeping and the
//! proportional payout of an era's reward between a validator and its
//! nominators.
//!
//! All fractional computation rounds down per recipient, so the distributed
//! total never exceeds the era payout; the shortfall stays strictly below
//! one minimal unit per recipient.

use vstd::prelude::*;
use crate::{AccountId, Balance, EraIndex};
use crate::consumer::copy_exposure_list;
use crate::fraction::{
    lemma_sum_ratio_floor_deficit, lemma_sum_ratio_floor_le, lemma_sum_ratio_floor_zero_den,
    lemma_sum_values_nonneg, ratio_floor, spec_ratio_floor, sum_ratio_floor, sum_values, Perbill,
    BILLION,
};
use crate::state::Staking;
use crate::types::{
    exposure_values, lemma_points_entry_le_sum, lemma_points_sum_remove, points_sum,
    EraRewardPoints, Exposure, IndividualExposure, RewardDestination, StakingError, StakingLedger,
};

verus! {

/// The recorded reward-point total of an era; zero when none is recorded.
pub open spec fn spec_era_points_total(s: &Staking, era: EraIndex) -> int {
    match s.eras_reward_points.spec_get(era as u64) {
        Some(p) => p.total as int,
        None => 0,
    }
}

/// The recorded reward points of one validator in an era; zero when none.
pub open spec fn spec_era_points_of(s: &Staking, era: EraIndex, v: AccountId) -> int {
    match s.eras_reward_points.spec_get(era as u64) {
        Some(p) => match p.individual.spec_get(v) {
            Some(x) => x as int,
            None => 0,
        },
        None => 0,
    }
}

/// The reward-clipped exposure of a validator in an era, if one is stored.
pub open spec fn spec_clipped_exposure_of(s: &Staking, era: EraIndex, v: AccountId) -> Option<
    Exposure,
> {
    match s.eras_stakers_clipped.spec_get(era as u64) {
        Some(inner) => inner.spec_get(v),
        None => None,
    }
}

/// The commission a validator was elected with in an era, in parts per
/// billion; zero when none is recorded.
pub open spec fn spec_commission_of(s: &Staking, era: EraIndex, v: AccountId) -> int {
    match s.eras_validator_prefs.spec_get(era as u64) {
        Some(inner) => match inner.spec_get(v) {
            Some(p) => p.commission.spec_parts(),
            None => 0,
        },
        None => 0,
    }
}

/// The caller-visible rejection a payout request receives, if any: unknown
/// or out-of-history era, unrecorded era payout, unknown stash, missing
/// controller ledger, or an era already claimed.
pub open spec fn spec_payout_error(s: &Staking, stash: AccountId, era: EraIndex) -> Option<
    StakingError,
> {
    match s.current_era {
        None => Some(StakingError::InvalidEraToReward),
        Some(current) => if era > current || (current as int) > era as int
            + s.config.history_depth as int {
            Some(StakingError::InvalidEraToReward)
        } else if s.eras_validator_reward.spec_get(era as u64) is None {
            Some(StakingError::InvalidEraToReward)
        } else {
            match s.bonded.spec_get(stash) {
                None => Some(StakingError::NotStash),
                Some(controller) => match s.ledgers.spec_get(controller) {
                    None => Some(StakingError::NotController),
                    Some(l) => if l.spec_claimed(era) {
                        Some(StakingError::AlreadyClaimed)
                    } else {
                        None
                    },
                },
            }
        },
    }
}

/// The validator's entitled share of the era payout: its points over the
/// era's total points, of the recorded payout, rounded down.
pub open spec fn spec_validator_total_payout(s: &Staking, stash: AccountId, era: EraIndex) -> int {
    let payout = match s.eras_validator_reward.spec_get(era as u64) {
        Some(p) => p as int,
        None => 0,
    };
    spec_ratio_floor(payout, spec_era_points_of(s, era, stash), spec_era_points_total(s, era))
}

/// For every payout split: the validator's and the nominators' floor-rational
/// payouts, plus the commission cut, never sum to more than the validator's
/// entitled share, itself at most the era payout. When the exposure is
/// exactly balanced, the shortfall is strictly less than one minimal unit per
/// recipient.
pub proof fn lemma_payout_split_conservation(
    era_payout: u64,
    points: u64,
    total_points: u64,
    commission_parts: int,
    own: u64,
    values: Seq<u64>,
    total: u64,
)
    requires
        0 < total_points,
        points <= total_points,
        0 <= commission_parts <= BILLION,
        total > 0,
        own + sum_values(values) <= total,
    ensures
        ({
            let vtp = spec_ratio_floor(era_payout as int, points as int, total_points as int);
            let cpay = spec_ratio_floor(vtp, commission_parts, BILLION as int);
            let leftover = vtp - cpay;
            let vstake = spec_ratio_floor(own as int, leftover, total as int);
            let paid = vstake + cpay + sum_ratio_floor(values, leftover, total as int);
            &&& 0 <= vtp <= era_payout
            &&& 0 <= cpay <= vtp
            &&& paid <= vtp
            &&& (own + sum_values(values) == total ==> vtp - paid < 1 + values.len())
        }),
{
    let vtp = spec_ratio_floor(era_payout as int, points as int, total_points as int);
    assert(0 <= vtp <= era_payout) by {
        lemma_ratio_floor_le(era_payout as int, points as int, total_points as int);
    }
    let cpay = spec_ratio_floor(vtp, commission_parts, BILLION as int);
    assert(0 <= cpay <= vtp) by {
        lemma_ratio_floor_le(vtp, commission_parts, BILLION as int);
    }
    let leftover = vtp - cpay;
    let vstake = spec_ratio_floor(own as int, leftover, total as int);
    let with_own = values.push(own);
    assert(with_own.drop_last() =~= values);
    assert(sum_ratio_floor(with_own, leftover, total as int) == sum_ratio_floor(
        values,
        leftover,
        total as int,
    ) + vstake);
    assert(sum_values(with_own) == sum_values(values) + own);
    lemma_sum_ratio_floor_le(with_own, leftover, total as int);
    if own + sum_values(values) == total {
        lemma_sum_ratio_floor_deficit(with_own, leftover, total as int);
    }
}

/// A non-negative floor ratio with a proper fraction never exceeds its base.
pub proof fn lemma_ratio_floor_le(x: int, num: int, den: int)
    requires
        x >= 0,
        0 <= num <= den,
    ensures
        0 <= spec_ratio_floor(x, num, den) <= x,
{
    if den != 0 {
        assert(x * num <= x * den) by (nonlinear_arith)
            requires
                num <= den,
                x >= 0,
        ;
        assert(x * den / den == x) by (nonlinear_arith)
            requires
                den > 0,
                x >= 0,
        ;
        vstd::arithmetic::div_mod::lemma_div_is_ordered(x * num, x * den, den);
        assert(x * num >= 0) by (nonlinear_arith)
            requires
                x >= 0,
                num >= 0,
        ;
        vstd::arithmetic::div_mod::lemma_div_is_ordered(0, x * num, den);
    }
}

/// A first claim that goes through (or is a zero-points no-op) records the
/// era in the controller's ledger, so an immediately repeated claim for the
/// same pair is rejected as already claimed.
pub proof fn lemma_second_claim_rejected(s0: Staking, s1: Staking, stash: AccountId, era: EraIndex)
    requires
        spec_payout_error(&s0, stash, era) is None,
        s1.current_era == s0.current_era,
        s1.config.history_depth == s0.config.history_depth,
        s1.eras_validator_reward.spec_get(era as u64) == s0.eras_validator_reward.spec_get(
            era as u64,
        ),
        s1.bonded.spec_get(stash) == s0.bonded.spec_get(stash),
        (match s0.bonded.spec_get(stash) {
            Some(controller) => (match s1.ledgers.spec_get(controller) {
                Some(l) => l.spec_claimed(era),
                None => false,
            }),
            None => false,
        }),
    ensures
        spec_payout_error(&s1, stash, era) == Some(StakingError::AlreadyClaimed),
{
}

/// After a claim, the controller's persisted claim list holds no era that
/// fell out of history: every entry is at least the current era less the
/// history depth.
pub open spec fn spec_claims_within_history(s_old: &Staking, s_new: &Staking, stash: AccountId) -> bool {
    match s_old.bonded.spec_get(stash) {
        Some(controller) => (match s_new.ledgers.spec_get(controller) {
            Some(l) => forall|m: int|
                0 <= m < l.claimed_rewards@.len() ==> #[trigger] l.claimed_rewards@[m] as int
                    >= (match s_old.current_era {
                    Some(c) => c as int - s_old.config.history_depth as int,
                    None => 0,
                }),
            None => false,
        }),
        None => false,
    }
}

/// Whether a payout to `stash` reaches anyone once the accounts in `created`
/// have come into existence since the state `s`.
pub open spec fn spec_delivered_given(s: &Staking, created: Set<AccountId>, stash: AccountId) -> bool {
    let dest = match s.payees.spec_get(stash) {
        Some(d) => d,
        None => RewardDestination::Staked,
    };
    match dest {
        RewardDestination::Controller => s.bonded.spec_contains_key(stash),
        RewardDestination::Stash => s.balances.spec_contains_key(stash) || created.contains(stash),
        RewardDestination::Staked => (match s.bonded.spec_get(stash) {
            Some(c) => s.ledgers.spec_contains_key(c) && (s.balances.spec_contains_key(stash)
                || created.contains(stash)),
            None => false,
        }),
        RewardDestination::Account(_) => true,
        RewardDestination::NoPayee => false,
    }
}

/// What walking the clipped nominator list pays, folded left: the issuance
/// after all deposits, the number of delivered payouts, and the set of
/// destination accounts brought into existence along the way. Each delivered
/// nominator receives the floor share `value * leftover / total`; whether a
/// payout is delivered can depend on accounts an earlier deposit created.
pub open spec fn spec_nominator_payments(
    s: &Staking,
    others: Seq<IndividualExposure>,
    leftover: int,
    total: int,
    issuance0: int,
    created0: Set<AccountId>,
) -> (int, int, Set<AccountId>)
    decreases others.len(),
{
    if others.len() == 0 {
        (issuance0, 0, created0)
    } else {
        let prev = spec_nominator_payments(
            s,
            others.drop_last(),
            leftover,
            total,
            issuance0,
            created0,
        );
        let e = others.last();
        let amount = spec_ratio_floor(e.value as int, leftover, total);
        if spec_delivered_given(s, prev.2, e.who) {
            (
                vstd::math::min(prev.0 + amount, u64::MAX as int),
                prev.1 + 1,
                prev.2.insert(s.spec_payout_dest(e.who)),
            )
        } else {
            prev
        }
    }
}

/// The whole payment a successful claim with positive points makes: the
/// final issuance and the count of delivered nominator payouts, after paying
/// the validator its floor stake share plus commission and each clipped
/// nominator its floor share of the leftover.
pub open spec fn spec_claim_payments(s: &Staking, stash: AccountId, era: EraIndex) -> (int, int) {
    let vtp = spec_validator_total_payout(s, stash, era);
    let cpay = spec_ratio_floor(vtp, spec_commission_of(s, era, stash), BILLION as int);
    let leftover = vtp - cpay;
    let exp_own: int = match spec_clipped_exposure_of(s, era, stash) {
        Some(e) => e.own as int,
        None => 0,
    };
    let exp_others: Seq<IndividualExposure> = match spec_clipped_exposure_of(s, era, stash) {
        Some(e) => e.others@,
        None => Seq::empty(),
    };
    let exp_total: int = match spec_clipped_exposure_of(s, era, stash) {
        Some(e) => e.total as int,
        None => 0,
    };
    let vamount = spec_ratio_floor(leftover, exp_own, exp_total) + cpay;
    let delivered_v = s.spec_payout_delivered(stash);
    let issuance1 = if delivered_v {
        vstd::math::min(s.total_issuance as int + vamount, u64::MAX as int)
    } else {
        s.total_issuance as int
    };
    let created0 = if delivered_v {
        Set::<AccountId>::empty().insert(s.spec_payout_dest(stash))
    } else {
        Set::<AccountId>::empty()
    };
    let folded = spec_nominator_payments(s, exp_others, leftover, exp_total, issuance1, created0);
    (folded.0, folded.1)
}

/// The era's point total after a batch of grants, folded left: a grant that
/// would push the total over its type is ignored.
pub open spec fn spec_points_total_fold(start: int, grants: Seq<(AccountId, u32)>) -> int
    decreases grants.len(),
{
    if grants.len() == 0 {
        start
    } else {
        let prev = spec_points_total_fold(start, grants.drop_last());
        if prev + grants.last().1 <= u32::MAX {
            prev + grants.last().1
        } else {
            prev
        }
    }
}

/// What a batch of grants adds to one validator's points: the sum of its
/// grants that landed, skipping those the total had no room for.
pub open spec fn spec_points_granted_to(
    start: int,
    grants: Seq<(AccountId, u32)>,
    v: AccountId,
) -> int
    decreases grants.len(),
{
    if grants.len() == 0 {
        0
    } else {
        let prev_total = spec_points_total_fold(start, grants.drop_last());
        let prev = spec_points_granted_to(start, grants.drop_last(), v);
        if prev_total + grants.last().1 <= u32::MAX && grants.last().0 == v {
            prev + grants.last().1
        } else {
            prev
        }
    }
}

/// The validator's and every clipped nominator's payout destinations are
/// pairwise distinct accounts; under aliasing the deposits compound and only
/// the aggregate is stated.
pub open spec fn spec_payout_dests_distinct(
    s: &Staking,
    stash: AccountId,
    others: Seq<IndividualExposure>,
) -> bool {
    &&& (forall|i: int, j: int|
        0 <= i < j < others.len() ==> s.spec_payout_dest((#[trigger] others[i]).who)
            != s.spec_payout_dest((#[trigger] others[j]).who))
    &&& (forall|i: int|
        0 <= i < others.len() ==> s.spec_payout_dest(stash) != s.spec_payout_dest((
        #[trigger] others[i]).who))
}

/// Each delivered recipient's destination holds exactly its old balance plus
/// its floor share of the claim.
pub open spec fn spec_claim_balances_exact(
    pre: &Staking,
    post: &Staking,
    stash: AccountId,
    era: EraIndex,
) -> bool {
    let vtp = spec_validator_total_payout(pre, stash, era);
    let cpay = spec_ratio_floor(vtp, spec_commission_of(pre, era, stash), BILLION as int);
    let leftover = vtp - cpay;
    let exp_own: int = match spec_clipped_exposure_of(pre, era, stash) {
        Some(e) => e.own as int,
        None => 0,
    };
    let exp_others: Seq<IndividualExposure> = match spec_clipped_exposure_of(pre, era, stash) {
        Some(e) => e.others@,
        None => Seq::empty(),
    };
    let exp_total: int = match spec_clipped_exposure_of(pre, era, stash) {
        Some(e) => e.total as int,
        None => 0,
    };
    let vamount = spec_ratio_floor(leftover, exp_own, exp_total) + cpay;
    let vdest = pre.spec_payout_dest(stash);
    &&& (pre.spec_payout_delivered(stash) ==> post.balances.spec_get(vdest) == Some(
        vstd::math::min(
            (match pre.balances.spec_get(vdest) {
                Some(b) => b as int,
                None => 0,
            }) + vamount,
            u64::MAX as int,
        ) as u64,
    ))
    &&& (forall|m: int|
        0 <= m < exp_others.len() && pre.spec_payout_delivered((#[trigger] exp_others[m]).who)
            ==> post.balances.spec_get(pre.spec_payout_dest(exp_others[m].who)) == Some(
            vstd::math::min(
                (match pre.balances.spec_get(pre.spec_payout_dest(exp_others[m].who)) {
                    Some(b) => b as int,
                    None => 0,
                }) + spec_ratio_floor(exp_others[m].value as int, leftover, exp_total),
                u64::MAX as int,
            ) as u64,
        ))
}

impl Staking {
    /// Whether the era is recorded as claimed in this ledger.
    fn ledger_claimed(ledger: &StakingLedger, era: EraIndex) -> (r: bool)
        ensures
            r == ledger.spec_claimed(era),
    {
        let n = ledger.claimed_rewards.len();
        let mut i: usize = 0;
        while i < n
            invariant
                n == ledger.claimed_rewards@.len(),
                i <= n,
                forall|m: int| 0 <= m < i ==> ledger.claimed_rewards@[m] != era,
            decreases n - i,
        {
            if ledger.claimed_rewards[i] == era {
                assert(ledger.claimed_rewards@.contains(era));
                return true;
            }
            i = i + 1;
        }
        false
    }

    /// Mint `amount` into `who`, creating the account when it is new.
    fn deposit_creating(&mut self, who: AccountId, amount: Balance)
        requires
            old(self).wf(),
        ensures
            final(self).wf(),
            (*final(self)) == (Staking {
                balances: final(self).balances,
                total_issuance: final(self).total_issuance,
                ..*old(self)
            }),
            final(self).total_issuance as int == vstd::math::min(
                old(self).total_issuance as int + amount as int,
                u64::MAX as int,
            ),
            final(self).balances.spec_get(who) == Some(
                vstd::math::min(
                    (match old(self).balances.spec_get(who) {
                        Some(b) => b as int,
                        None => 0,
                    }) + amount as int,
                    u64::MAX as int,
                ) as u64,
            ),
            forall|k: u64|
                k != who ==> final(self).balances.spec_get(k) == old(self).balances.spec_get(k),
    {
        let current: Balance = match self.balances.take(who) {
            Some(b) => b,
            None => 0,
        };
        self.balances.insert(who, current.saturating_add(amount));
        self.total_issuance = self.total_issuance.saturating_add(amount);
    }

    /// Mint `amount` into `who` only when the account already exists.
    /// Reports whether the deposit was made.
    fn deposit_into_existing(&mut self, who: AccountId, amount: Balance) -> (r: bool)
        requires
            old(self).wf(),
        ensures
            final(self).wf(),
            (*final(self)) == (Staking {
                balances: final(self).balances,
                total_issuance: final(self).total_issuance,
                ..*old(self)
            }),
            r == old(self).balances.spec_contains_key(who),
            r ==> {
                &&& final(self).total_issuance as int == vstd::math::min(
                    old(self).total_issuance as int + amount as int,
                    u64::MAX as int,
                )
                &&& final(self).balances.spec_get(who) == Some(
                    vstd::math::min(
                        (match old(self).balances.spec_get(who) {
                            Some(b) => b as int,
                            None => 0,
                        }) + amount as int,
                        u64::MAX as int,
                    ) as u64,
                )
                &&& forall|k: u64|
                    k != who ==> final(self).balances.spec_get(k) == old(self).balances.spec_get(k)
            },
            !r ==> final(self).balances@ == old(self).balances@ && final(self).total_issuance
                == old(self).total_issuance,
    {
        match self.balances.take(who) {
            Some(b) => {
                self.balances.insert(who, b.saturating_add(amount));
                self.total_issuance = self.total_issuance.saturating_add(amount);
                true
            },
            None => false,
        }
    }

    /// The account a delivered payout to `stash` lands in; meaningful only
    /// when the payout is delivered.
    pub open spec fn spec_payout_dest(&self, stash: AccountId) -> AccountId {
        let dest = match self.payees.spec_get(stash) {
            Some(d) => d,
            None => RewardDestination::Staked,
        };
        match dest {
            RewardDestination::Controller => (match self.bonded.spec_get(stash) {
                Some(c) => c,
                None => stash,
            }),
            RewardDestination::Stash => stash,
            RewardDestination::Staked => stash,
            RewardDestination::Account(a) => a,
            RewardDestination::NoPayee => stash,
        }
    }

    /// Whether a payout to `stash` reaches anyone, per its reward
    /// destination.
    pub open spec fn spec_payout_delivered(&self, stash: AccountId) -> bool {
        let dest = match self.payees.spec_get(stash) {
            Some(d) => d,
            None => RewardDestination::Staked,
        };
        match dest {
            RewardDestination::Controller => self.bonded.spec_contains_key(stash),
            RewardDestination::Stash => self.balances.spec_contains_key(stash),
            RewardDestination::Staked => (match self.bonded.spec_get(stash) {
                Some(c) => self.ledgers.spec_contains_key(c)
                    && self.balances.spec_contains_key(stash),
                None => false,
            }),
            RewardDestination::Account(_) => true,
            RewardDestination::NoPayee => false,
        }
    }

    /// Actually make a payment to a staker, using its chosen reward
    /// destination; a stash without a recorded destination is paid into its
    /// stake. Returns the deposited amount, or nothing when the destination
    /// cannot receive.
    pub fn make_payout(&mut self, stash: AccountId, amount: Balance) -> (r: Option<Balance>)
        requires
            old(self).wf(),
        ensures
            final(self).wf(),
            (*final(self)) == (Staking {
                balances: final(self).balances,
                ledgers: final(self).ledgers,
                total_issuance: final(self).total_issuance,
                ..*old(self)
            }),
            r == if old(self).spec_payout_delivered(stash) {
                Some(amount)
            } else {
                Option::<Balance>::None
            },
            final(self).total_issuance as int <= old(self).total_issuance as int + amount as int,
            r is None ==> {
                &&& final(self).total_issuance == old(self).total_issuance
                &&& final(self).balances@ == old(self).balances@
            },
            r is Some ==> {
                let dest = old(self).spec_payout_dest(stash);
                &&& final(self).balances.spec_get(dest) == Some(
                    vstd::math::min(
                        (match old(self).balances.spec_get(dest) {
                            Some(b) => b as int,
                            None => 0,
                        }) + amount as int,
                        u64::MAX as int,
                    ) as u64,
                )
                &&& forall|k: u64|
                    k != dest ==> final(self).balances.spec_get(k) == old(self).balances.spec_get(
                        k,
                    )
                &&& final(self).total_issuance as int == vstd::math::min(
                    old(self).total_issuance as int + amount as int,
                    u64::MAX as int,
                )
            },
            ({
                let dest_kind = match old(self).payees.spec_get(stash) {
                    Some(d) => d,
                    None => RewardDestination::Staked,
                };
                match dest_kind {
                    RewardDestination::Staked => (match old(self).bonded.spec_get(stash) {
                        Some(c) => (match old(self).ledgers.spec_get(c) {
                            Some(l0) => {
                                &&& (match final(self).ledgers.spec_get(c) {
                                    Some(l1) => {
                                        &&& l1.active as int == vstd::math::min(
                                            l0.active as int + amount as int,
                                            u64::MAX as int,
                                        )
                                        &&& l1.total as int == vstd::math::min(
                                            l0.total as int + amount as int,
                                            u64::MAX as int,
                                        )
                                        &&& l1.stash == l0.stash
                                        &&& l1.claimed_rewards == l0.claimed_rewards
                                    },
                                    None => false,
                                })
                                &&& forall|k: u64|
                                    k != c ==> final(self).ledgers.spec_get(k) == old(self).ledgers.spec_get(k)
                            },
                            None => final(self).ledgers@ == old(self).ledgers@,
                        }),
                        None => final(self).ledgers@ == old(self).ledgers@,
                    }),
                    _ => final(self).ledgers@ == old(self).ledgers@,
                }
            }),
            forall|k: u64|
                (match (#[trigger] final(self).ledgers.spec_get(k), old(self).ledgers.spec_get(
                    k,
                )) {
                    (Some(a), Some(b)) => a.claimed_rewards == b.claimed_rewards && a.stash
                        == b.stash,
                    (None, None) => true,
                    _ => false,
                }),
    {
        let dest: RewardDestination = match self.payees.get(stash) {
            Some(d) => *d,
            None => RewardDestination::Staked,
        };
        match dest {
            RewardDestination::Controller => {
                match self.bonded.get(stash) {
                    Some(c) => {
                        let controller = *c;
                        self.deposit_creating(controller, amount);
                        Some(amount)
                    },
                    None => None,
                }
            },
            RewardDestination::Stash => {
                if self.deposit_into_existing(stash, amount) {
                    Some(amount)
                } else {
                    None
                }
            },
            RewardDestination::Staked => {
                let controller = match self.bonded.get(stash) {
                    Some(c) => *c,
                    None => {
                        return None;
                    },
                };
                let ledger = match self.ledgers.take(controller) {
                    Some(l) => l,
                    None => {
                        return None;
                    },
                };
                proof {
                    let v = self.ledgers@;
                    let o = old(self).ledgers@;
                    let idx = old(self).ledgers.key_index(controller);
                    assert forall|m: int| 0 <= m < v.len() implies (#[trigger] v[m]).1.wf() by {
                        if m < idx {
                            assert(v[m] == o[m]);
                        } else {
                            assert(v[m] == o[m + 1]);
                        }
                    }
                }
                let updated = StakingLedger {
                    active: ledger.active.saturating_add(amount),
                    total: ledger.total.saturating_add(amount),
                    ..ledger
                };
                let deposited = self.deposit_into_existing(stash, amount);
                self.update_ledger(controller, updated);
                if deposited {
                    Some(amount)
                } else {
                    None
                }
            },
            RewardDestination::Account(dest_account) => {
                self.deposit_creating(dest_account, amount);
                Some(amount)
            },
            RewardDestination::NoPayee => None,
        }
    }
}


impl Staking {
    /// Pay out one era's reward share for one validator and its (reward
    /// clipped) nominators.
    ///
    /// The request is rejected, with no state change beyond cost accounting,
    /// when the era is unknown, out of history or without a recorded payout,
    /// when the stash is not bonded or its controller has no ledger, or when
    /// the pair was already claimed. A first call records the claim even when
    /// the validator earned no points, in which case nothing is paid.
    /// Returns the number of nominator payouts made.
    #[verifier::rlimit(100)]
    #[verifier::spinoff_prover]
    pub fn do_payout_stakers(&mut self, validator_stash: AccountId, era: EraIndex) -> (r: Result<
        u64,
        StakingError,
    >)
        requires
            old(self).wf(),
        ensures
            final(self).wf(),
            (match r {
                Err(e) => {
                    &&& spec_payout_error(old(self), validator_stash, era) == Some(e)
                    &&& (*final(self)) == (Staking {
                        consumed_weight: final(self).consumed_weight,
                        ..*old(self)
                    })
                },
                Ok(_) => {
                    &&& spec_payout_error(old(self), validator_stash, era) is None
                    &&& (match old(self).bonded.spec_get(validator_stash) {
                        Some(controller) => (match final(self).ledgers.spec_get(controller) {
                            Some(l) => l.spec_claimed(era),
                            None => false,
                        }),
                        None => false,
                    })
                    &&& final(self).bonded@ == old(self).bonded@
                    &&& final(self).current_era == old(self).current_era
                    &&& final(self).eras_validator_reward@ == old(self).eras_validator_reward@
                    &&& final(self).total_issuance as int <= old(self).total_issuance as int
                        + spec_validator_total_payout(old(self), validator_stash, era)
                    &&& spec_validator_total_payout(old(self), validator_stash, era) <= (match old(self).eras_validator_reward.spec_get(era as u64) {
                        Some(p) => p as int,
                        None => 0,
                    })
                    &&& (spec_era_points_of(old(self), era, validator_stash) == 0 ==> {
                        &&& final(self).total_issuance == old(self).total_issuance
                        &&& final(self).balances@ == old(self).balances@
                    })
                    &&& (spec_era_points_of(old(self), era, validator_stash) > 0 ==> {
                        &&& final(self).total_issuance as int == spec_claim_payments(
                            old(self),
                            validator_stash,
                            era,
                        ).0
                        &&& r == Ok::<u64, StakingError>(
                            spec_claim_payments(old(self), validator_stash, era).1 as u64,
                        )
                        &&& (spec_payout_dests_distinct(
                            old(self),
                            validator_stash,
                            (match spec_clipped_exposure_of(old(self), era, validator_stash) {
                                Some(e) => e.others@,
                                None => Seq::empty(),
                            }),
                        ) ==> spec_claim_balances_exact(
                            old(self),
                            final(self),
                            validator_stash,
                            era,
                        ))
                    })
                    &&& spec_claims_within_history(old(self), final(self), validator_stash)
                    &&& (*final(self)) == (Staking {
                        ledgers: final(self).ledgers,
                        balances: final(self).balances,
                        total_issuance: final(self).total_issuance,
                        consumed_weight: final(self).consumed_weight,
                        ..*old(self)
                    })
                },
            }),
    {
        // Validate the request; a rejection carries a minimum cost and
        // mutates nothing else.
        let current_era = match self.current_era {
            Some(c) => c,
            None => {
                self.register_weight(1);
                return Err(StakingError::InvalidEraToReward);
            },
        };
        if era > current_era || (current_era as u64) > (era as u64) + (
        self.config.history_depth as u64) {
            self.register_weight(1);
            return Err(StakingError::InvalidEraToReward);
        }
        let era_payout: Balance = match self.eras_validator_reward.get(era as u64) {
            Some(p) => *p,
            None => {
                self.register_weight(1);
                return Err(StakingError::InvalidEraToReward);
            },
        };
        let controller: AccountId = match self.bonded.get(validator_stash) {
            Some(c) => *c,
            None => {
                self.register_weight(1);
                return Err(StakingError::NotStash);
            },
        };
        let already = match self.ledgers.get(controller) {
            Some(l) => Self::ledger_claimed(l, era),
            None => {
                self.register_weight(1);
                return Err(StakingError::NotController);
            },
        };
        if already {
            self.register_weight(1);
            return Err(StakingError::AlreadyClaimed);
        }
        // Record the claim: prune claims that fell out of history, and put
        // the era at its place in the sorted list.
        let ledger = match self.ledgers.take(controller) {
            Some(l) => l,
            None => {
                self.register_weight(1);
                return Err(StakingError::NotController);
            },
        };
        let ghost after_take = *self;
        proof {
            let v = self.ledgers@;
            let o = old(self).ledgers@;
            let idx = old(self).ledgers.key_index(controller);
            assert forall|m: int| 0 <= m < v.len() implies (#[trigger] v[m]).1.wf() by {
                if m < idx {
                    assert(v[m] == o[m]);
                } else {
                    assert(v[m] == o[m + 1]);
                }
            }
        }
        let cutoff: EraIndex = if current_era >= self.config.history_depth {
            current_era - self.config.history_depth
        } else {
            0
        };
        let n_claims = ledger.claimed_rewards.len();
        let mut start_idx: usize = 0;
        while start_idx < n_claims && ledger.claimed_rewards[start_idx] < cutoff
            invariant
                n_claims == ledger.claimed_rewards@.len(),
                start_idx <= n_claims,
                forall|m: int| 0 <= m < start_idx ==> ledger.claimed_rewards@[m] < cutoff,
            decreases n_claims - start_idx,
        {
            start_idx = start_idx + 1;
        }
        let mut kept: Vec<EraIndex> = Vec::new();
        let mut j = start_idx;
        while j < n_claims
            invariant
                n_claims == ledger.claimed_rewards@.len(),
                start_idx <= j <= n_claims,
                kept@ == ledger.claimed_rewards@.subrange(start_idx as int, j as int),
            decreases n_claims - j,
        {
            kept.push(ledger.claimed_rewards[j]);
            proof {
                assert(ledger.claimed_rewards@.subrange(start_idx as int, j as int + 1)
                    =~= ledger.claimed_rewards@.subrange(start_idx as int, j as int).push(
                    ledger.claimed_rewards@[j as int],
                ));
            }
            j = j + 1;
        }
        let kept_len = kept.len();
        let mut pos: usize = 0;
        while pos < kept_len && kept[pos] < era
            invariant
                kept_len == kept@.len(),
                pos <= kept_len,
                forall|m: int| 0 <= m < pos ==> kept@[m] < era,
            decreases kept_len - pos,
        {
            pos = pos + 1;
        }
        let ghost kept_before = kept@;
        kept.insert(pos, era);
        proof {
            let lw = ledger.claimed_rewards@;
            // the kept prefix is sorted because the original claims were
            assert forall|a: int, b: int| 0 <= a < b < kept_before.len() implies kept_before[a]
                < kept_before[b] by {
                assert(kept_before[a] == lw[start_idx + a]);
                assert(kept_before[b] == lw[start_idx + b]);
            }
            // the era itself was not among the claims
            assert forall|m: int| 0 <= m < kept_before.len() implies kept_before[m] != era by {
                assert(kept_before[m] == lw[start_idx + m]);
                if lw[start_idx + m] == era {
                    assert(ledger.spec_claimed(era));
                }
            }
            assert(kept@ == kept_before.insert(pos as int, era));
            assert forall|a: int, b: int| 0 <= a < b < kept@.len() implies #[trigger] kept@[a]
                < #[trigger] kept@[b] by {
                if a < pos && b < pos {
                    assert(kept@[a] == kept_before[a]);
                    assert(kept@[b] == kept_before[b]);
                } else if a < pos && b == pos {
                    assert(kept@[a] == kept_before[a]);
                } else if a < pos && b > pos {
                    assert(kept@[a] == kept_before[a]);
                    assert(kept@[b] == kept_before[b - 1]);
                    assert(kept_before[b - 1] >= era || kept_before[b - 1] < era);
                    if kept_before[b - 1] < era {
                        assert(b - 1 >= pos);
                        assert(false);
                    }
                } else if a == pos {
                    assert(kept@[b] == kept_before[b - 1]);
                    assert(b - 1 >= pos);
                    assert(kept_before[b - 1] >= era);
                    assert(kept_before[b - 1] != era);
                } else {
                    assert(kept@[a] == kept_before[a - 1]);
                    assert(kept@[b] == kept_before[b - 1]);
                }
            }
            assert(kept@.contains(era)) by {
                assert(kept@[pos as int] == era);
            }
            // everything kept is within history: the dropped prefix was the
            // part below the cutoff, and the claimed era itself is in range
            assert forall|m: int| 0 <= m < kept@.len() implies kept@[m] as int >= cutoff as int by {
                if m != pos {
                    let m0: int = if m < pos {
                        m
                    } else {
                        m - 1
                    };
                    assert(kept@[m] == kept_before[m0]);
                    assert(kept_before[m0] == lw[start_idx + m0]);
                    assert(start_idx < n_claims);
                    assert(lw[start_idx as int] >= cutoff);
                    if m0 > 0 {
                        assert(lw[start_idx as int] <= lw[start_idx + m0]);
                    }
                }
            }
        }
        let new_ledger = StakingLedger { claimed_rewards: kept, ..ledger };
        self.update_ledger(controller, new_ledger);
        let ghost claimed_state = *self;
        // The reward-clipped exposure and the era's reward points.
        let exposure: Exposure = match self.eras_stakers_clipped.get(era as u64) {
            Some(inner) => {
                proof {
                    let idx = self.eras_stakers_clipped.key_index(era as u64);
                    assert(self.eras_stakers_clipped@[idx].1.wf());
                }
                match inner.get(validator_stash) {
                    Some(e) => {
                        proof {
                            let idx = self.eras_stakers_clipped.key_index(era as u64);
                            let jdx = self.eras_stakers_clipped@[idx].1.key_index(
                                validator_stash as u64,
                            );
                            assert(self.eras_stakers_clipped@[idx].1@[jdx].1.sub_balanced());
                        }
                        Exposure { total: e.total, own: e.own, others: copy_exposure_list(&e.others) }
                    },
                    None => Exposure::empty(),
                }
            },
            None => Exposure::empty(),
        };
        proof {
            crate::fraction::lemma_sum_values_nonneg(exposure_values(exposure.others@));
        }
        let (total_points, validator_points): (u32, u32) = match self.eras_reward_points.get(
            era as u64,
        ) {
            Some(p) => {
                proof {
                    let idx = self.eras_reward_points.key_index(era as u64);
                    assert(self.eras_reward_points@[idx].1.wf());
                }
                let vp: u32 = match p.individual.get(validator_stash) {
                    Some(x) => *x,
                    None => 0,
                };
                (p.total, vp)
            },
            None => (0, 0),
        };
        // Nothing to do if they have no reward points.
        if validator_points == 0 {
            self.register_weight(1);
            proof {
                assert(spec_era_points_of(old(self), era, validator_stash) == 0);
                assert(spec_payout_error(old(self), validator_stash, era) is None);
                assert(old(self).bonded.spec_get(validator_stash) == Some(controller));
                assert(self.ledgers.spec_get(controller) == Some(new_ledger));
                assert(new_ledger.claimed_rewards@ == kept@);
                assert(spec_claims_within_history(old(self), self, validator_stash)) by {
                    assert forall|m: int|
                        0 <= m < kept@.len() implies #[trigger] kept@[m] as int >= (match old(self).current_era {
                        Some(c) => c as int - old(self).config.history_depth as int,
                        None => 0,
                    }) by {
                        assert(kept@[m] as int >= cutoff as int);
                    }
                }
                assert(match old(self).bonded.spec_get(validator_stash) {
                    Some(c) => (match self.ledgers.spec_get(c) {
                        Some(l) => l.spec_claimed(era),
                        None => false,
                    }),
                    None => false,
                });
                assert(self.bonded@ == old(self).bonded@);
                assert(self.current_era == old(self).current_era);
                assert(self.eras_validator_reward@ == old(self).eras_validator_reward@);
                assert((*self) == (Staking {
                    ledgers: self.ledgers,
                    balances: self.balances,
                    total_issuance: self.total_issuance,
                    consumed_weight: self.consumed_weight,
                    ..*old(self)
                }));
                assert(self.total_issuance as int <= old(self).total_issuance as int
                    + spec_validator_total_payout(old(self), validator_stash, era));

                assert(self.total_issuance == old(self).total_issuance);
                assert(self.balances@ =~= old(self).balances@);
                assert(spec_validator_total_payout(old(self), validator_stash, era) >= 0) by {
                    lemma_ratio_floor_le(
                        (match old(self).eras_validator_reward.spec_get(era as u64) {
                            Some(p) => p as int,
                            None => 0,
                        }),
                        spec_era_points_of(old(self), era, validator_stash),
                        spec_era_points_total(old(self), era),
                    );
                }
            }
            return Ok(0);
        }
        proof {
            // the validator's points are part of the recorded total
            let p = self.eras_reward_points.spec_get(era as u64)->Some_0;
            if p.individual.spec_contains_key(validator_stash) {
                let jdx = p.individual.key_index(validator_stash);
                lemma_points_entry_le_sum(p.individual@, jdx);
            }
        }
        // This is how much validator plus nominators are entitled to.
        let validator_total_payout = ratio_floor(
            era_payout,
            validator_points as u64,
            total_points as u64,
        );
        // Validator first gets a cut off the top.
        let commission: Perbill = match self.eras_validator_prefs.get(era as u64) {
            Some(inner) => {
                proof {
                    let idx = self.eras_validator_prefs.key_index(era as u64);
                    assert(self.eras_validator_prefs@[idx].1.wf());
                }
                match inner.get(validator_stash) {
                    Some(p) => {
                        let c = p.commission;
                        proof {
                            let idx = self.eras_validator_prefs.key_index(era as u64);
                            let inner_v = self.eras_validator_prefs@[idx].1;
                            let jdx = inner_v.key_index(validator_stash);
                            assert(inner_v@[jdx].1.wf());
                            assert(inner_v.spec_get(validator_stash) == Some(inner_v@[jdx].1));
                            assert(c.wf());
                        }
                        c
                    },
                    None => Perbill::zero(),
                }
            },
            None => Perbill::zero(),
        };
        let commission_payout = commission.mul_floor(validator_total_payout);
        let validator_leftover_payout = validator_total_payout - commission_payout;
        // Now split what is left proportionally to stake within the exposure.
        let validator_staking_payout = ratio_floor(
            validator_leftover_payout,
            exposure.own,
            exposure.total,
        );
        let ghost issuance0 = claimed_state.total_issuance as int;
        let ghost vstake = validator_staking_payout as int;
        let ghost cpay = commission_payout as int;
        let ghost leftover = validator_leftover_payout as int;
        let ghost etotal = exposure.total as int;
        let ghost vtp = validator_total_payout as int;
        let ghost delivered_v = old(self).spec_payout_delivered(validator_stash);
        let ghost vamount = vstake + cpay;
        let ghost ddist = spec_payout_dests_distinct(
            old(self),
            validator_stash,
            exposure.others@,
        );
        let ghost vdest = old(self).spec_payout_dest(validator_stash);
        let ghost issuance1: int = if delivered_v {
            vstd::math::min(issuance0 + vamount, u64::MAX as int)
        } else {
            issuance0
        };
        let ghost created0: Set<AccountId> = if delivered_v {
            Set::<AccountId>::empty().insert(old(self).spec_payout_dest(validator_stash))
        } else {
            Set::<AccountId>::empty()
        };
        proof {
            // recording the claim touched only the controller's ledger entry
            assert forall|x: u64| #[trigger] claimed_state.ledgers.spec_contains_key(x) == old(self).ledgers.spec_contains_key(x) by {
                if x == controller {
                    assert(claimed_state.ledgers.spec_contains_key(controller));
                    assert(old(self).ledgers.spec_contains_key(controller));
                } else {
                    assert(claimed_state.ledgers.spec_get(x) == after_take.ledgers.spec_get(x));
                    assert(after_take.ledgers.spec_get(x) == old(self).ledgers.spec_get(x));
                }
            }
            assert(claimed_state.spec_payout_delivered(validator_stash) == delivered_v);
            assert(claimed_state.spec_payout_dest(validator_stash) == old(self).spec_payout_dest(
                validator_stash,
            ));
        }
        self.make_payout(validator_stash, validator_staking_payout + commission_payout);
        proof {
            assert(self.total_issuance as int == issuance1);
            assert forall|x: u64| #[trigger] self.balances.spec_contains_key(x) == (old(self).balances.spec_contains_key(x) || created0.contains(x)) by {
                if delivered_v {
                    let dest = old(self).spec_payout_dest(validator_stash);
                    if x != dest {
                        assert(self.balances.spec_get(x) == claimed_state.balances.spec_get(x));
                    }
                }
            }
            assert forall|x: u64| #[trigger] self.ledgers.spec_contains_key(x) == old(self).ledgers.spec_contains_key(x) by {
                let now_entry = self.ledgers.spec_get(x);
                let then_entry = claimed_state.ledgers.spec_get(x);
                assert(now_entry is Some <==> then_entry is Some);
                assert(claimed_state.ledgers.spec_contains_key(x) == old(self).ledgers.spec_contains_key(x));
            }
            assert(exposure.others@.take(0) =~= Seq::<IndividualExposure>::empty());
            if ddist {
                if delivered_v {
                    assert(self.balances.spec_get(vdest) == Some(
                        vstd::math::min(
                            (match old(self).balances.spec_get(vdest) {
                                Some(b) => b as int,
                                None => 0,
                            }) + vamount,
                            u64::MAX as int,
                        ) as u64,
                    ));
                    assert forall|m: int|
                        0 <= m < exposure.others@.len() implies #[trigger] self.balances.spec_get(
                        old(self).spec_payout_dest(exposure.others@[m].who),
                    ) == old(self).balances.spec_get(
                        old(self).spec_payout_dest(exposure.others@[m].who),
                    ) by {
                        assert(old(self).spec_payout_dest(exposure.others@[m].who) != vdest);
                    }
                }
            }
        }
        // Let us now calculate how this is split to the nominators: only the
        // clipped exposures are rewarded.
        let mut nominator_payout_count: u64 = 0;
        let n = exposure.others.len();
        let mut i: usize = 0;
        while i < n
            invariant
                self.wf(),
                n == exposure.others@.len(),
                i <= n,
                commission.wf(),
                validator_points > 0,
                validator_points <= total_points,
                leftover == validator_leftover_payout as int,
                0 <= leftover <= u64::MAX,
                etotal == exposure.total as int,
                vtp == spec_ratio_floor(
                    era_payout as int,
                    validator_points as int,
                    total_points as int,
                ),
                vtp == spec_validator_total_payout(old(self), validator_stash, era),
                cpay == spec_ratio_floor(vtp, commission.spec_parts(), BILLION as int),
                leftover == vtp - cpay,
                vstake == spec_ratio_floor(leftover, exposure.own as int, etotal),
                exposure.own + sum_values(exposure_values(exposure.others@)) <= exposure.total,
                validator_points as int == spec_era_points_of(old(self), era, validator_stash),
                total_points as int == spec_era_points_total(old(self), era),
                commission.spec_parts() == spec_commission_of(old(self), era, validator_stash),
                (match spec_clipped_exposure_of(old(self), era, validator_stash) {
                    Some(e) => {
                        &&& exposure.own == e.own
                        &&& exposure.total == e.total
                        &&& exposure.others@ == e.others@
                    },
                    None => {
                        &&& exposure.own == 0
                        &&& exposure.total == 0
                        &&& exposure.others@.len() == 0
                    },
                }),
                delivered_v == old(self).spec_payout_delivered(validator_stash),
                vamount == vstake + cpay,
                issuance1 == (if delivered_v {
                    vstd::math::min(issuance0 + vamount, u64::MAX as int)
                } else {
                    issuance0
                }),
                created0 == (if delivered_v {
                    Set::<AccountId>::empty().insert(old(self).spec_payout_dest(validator_stash))
                } else {
                    Set::<AccountId>::empty()
                }),
                ddist == spec_payout_dests_distinct(
                    old(self),
                    validator_stash,
                    exposure.others@,
                ),
                vdest == old(self).spec_payout_dest(validator_stash),
                ddist ==> {
                    &&& (delivered_v ==> self.balances.spec_get(vdest) == Some(
                        vstd::math::min(
                            (match old(self).balances.spec_get(vdest) {
                                Some(b) => b as int,
                                None => 0,
                            }) + vamount,
                            u64::MAX as int,
                        ) as u64,
                    ))
                    &&& (forall|m: int|
                        0 <= m < i && old(self).spec_payout_delivered(
                            (#[trigger] exposure.others@[m]).who,
                        ) ==> self.balances.spec_get(
                            old(self).spec_payout_dest(exposure.others@[m].who),
                        ) == Some(
                            vstd::math::min(
                                (match old(self).balances.spec_get(
                                    old(self).spec_payout_dest(exposure.others@[m].who),
                                ) {
                                    Some(b) => b as int,
                                    None => 0,
                                }) + spec_ratio_floor(
                                    exposure.others@[m].value as int,
                                    leftover,
                                    etotal,
                                ),
                                u64::MAX as int,
                            ) as u64,
                        ))
                    &&& (forall|m: int|
                        i <= m < n ==> #[trigger] self.balances.spec_get(
                            old(self).spec_payout_dest(exposure.others@[m].who),
                        ) == old(self).balances.spec_get(
                            old(self).spec_payout_dest(exposure.others@[m].who),
                        ))
                },
                self.total_issuance as int == spec_nominator_payments(
                    old(self),
                    exposure.others@.take(i as int),
                    leftover,
                    etotal,
                    issuance1,
                    created0,
                ).0,
                nominator_payout_count as int == spec_nominator_payments(
                    old(self),
                    exposure.others@.take(i as int),
                    leftover,
                    etotal,
                    issuance1,
                    created0,
                ).1,
                forall|x: u64| #[trigger]
                    self.balances.spec_contains_key(x) == (old(self).balances.spec_contains_key(x)
                        || spec_nominator_payments(
                        old(self),
                        exposure.others@.take(i as int),
                        leftover,
                        etotal,
                        issuance1,
                        created0,
                    ).2.contains(x)),
                forall|x: u64| #[trigger]
                    self.ledgers.spec_contains_key(x) == old(self).ledgers.spec_contains_key(x),
                (match old(self).eras_validator_reward.spec_get(era as u64) {
                    Some(p) => p == era_payout,
                    None => false,
                }),
                spec_payout_error(old(self), validator_stash, era) is None,
                old(self).bonded.spec_get(validator_stash) == Some(controller),
                issuance0 == old(self).total_issuance as int,
                claimed_state == (Staking { ledgers: claimed_state.ledgers, ..*old(self) }),
                (*self) == (Staking {
                    ledgers: self.ledgers,
                    balances: self.balances,
                    total_issuance: self.total_issuance,
                    ..claimed_state
                }),
                self.total_issuance as int <= issuance0 + vstake + cpay + sum_ratio_floor(
                    exposure_values(exposure.others@.take(i as int)),
                    leftover,
                    etotal,
                ),
                (match claimed_state.ledgers.spec_get(controller) {
                    Some(l0) => {
                        &&& l0.spec_claimed(era)
                        &&& (match self.ledgers.spec_get(controller) {
                            Some(l) => l.claimed_rewards == l0.claimed_rewards,
                            None => false,
                        })
                    },
                    None => false,
                }),
                nominator_payout_count <= i,
            decreases n - i,
        {
            let entry = exposure.others[i];
            proof {
                crate::fraction::lemma_sum_values_element_le(
                    exposure_values(exposure.others@),
                    i as int,
                );
            }
            let nominator_reward = ratio_floor(
                validator_leftover_payout,
                entry.value,
                exposure.total,
            );
            let ghost pre = *self;
            let ghost created_i = spec_nominator_payments(
                old(self),
                exposure.others@.take(i as int),
                leftover,
                etotal,
                issuance1,
                created0,
            ).2;
            proof {
                assert(pre.spec_payout_delivered(entry.who) == spec_delivered_given(
                    old(self),
                    created_i,
                    entry.who,
                ));
                assert(pre.spec_payout_dest(entry.who) == old(self).spec_payout_dest(entry.who));
            }
            let paid = self.make_payout(entry.who, nominator_reward);
            proof {
                let taken = exposure_values(exposure.others@.take(i as int));
                let taken1 = exposure_values(exposure.others@.take(i as int + 1));
                assert(taken1.drop_last() =~= taken);
                assert(taken1.last() == exposure.others@[i as int].value);
                let v = entry.value as int;
                assert(leftover * v == v * leftover) by (nonlinear_arith);
                assert(spec_ratio_floor(leftover, v, etotal) == spec_ratio_floor(
                    v,
                    leftover,
                    etotal,
                ));
                assert(exposure.others@.take(i as int + 1).drop_last() =~= exposure.others@.take(
                    i as int,
                ));
                assert(exposure.others@.take(i as int + 1).last() == exposure.others@[i as int]);
                assert forall|x: u64| #[trigger] self.ledgers.spec_contains_key(x) == old(self).ledgers.spec_contains_key(x) by {
                    let now_entry = self.ledgers.spec_get(x);
                    let then_entry = pre.ledgers.spec_get(x);
                    assert(now_entry is Some <==> then_entry is Some);
                    assert(pre.ledgers.spec_contains_key(x) == old(self).ledgers.spec_contains_key(x));
                }
                if pre.spec_payout_delivered(entry.who) {
                    let dest = old(self).spec_payout_dest(entry.who);
                    assert forall|x: u64| #[trigger]
                        self.balances.spec_contains_key(x) == (old(self).balances.spec_contains_key(x) || created_i.insert(dest).contains(x)) by {
                        if x != dest {
                            assert(self.balances.spec_get(x) == pre.balances.spec_get(x));
                        }
                    }
                } else {
                    assert(self.balances@ == pre.balances@);
                    assert forall|x: u64| #[trigger]
                        self.balances.spec_contains_key(x) == (old(self).balances.spec_contains_key(x) || created_i.contains(x)) by {
                        assert(pre.balances.spec_contains_key(x) == (old(self).balances.spec_contains_key(x) || created_i.contains(x)));
                    }
                }
            }
            proof {
                if ddist {
                    let who = exposure.others@[i as int].who;
                    let dest_i = old(self).spec_payout_dest(who);
                    assert(pre.spec_payout_dest(who) == dest_i);
                    assert(pre.spec_payout_delivered(who) == old(self).spec_payout_delivered(who))
                        by {
                        assert(pre.balances.spec_get(who) == old(self).balances.spec_get(who)
                            || !(match old(self).payees.spec_get(who) {
                            Some(d) => d == RewardDestination::Stash || d
                                == RewardDestination::Staked,
                            None => true,
                        })) by {
                            match old(self).payees.spec_get(who) {
                                Some(d) => {
                                    if d == RewardDestination::Stash || d
                                        == RewardDestination::Staked {
                                        assert(dest_i == who);
                                    }
                                },
                                None => {
                                    assert(dest_i == who);
                                },
                            }
                        }
                    }
                    assert forall|m: int|
                        i + 1 <= m < n implies #[trigger] self.balances.spec_get(
                        old(self).spec_payout_dest(exposure.others@[m].who),
                    ) == old(self).balances.spec_get(
                        old(self).spec_payout_dest(exposure.others@[m].who),
                    ) by {
                        if pre.spec_payout_delivered(who) {
                            assert(old(self).spec_payout_dest(exposure.others@[m].who) != dest_i);
                            assert(self.balances.spec_get(
                                old(self).spec_payout_dest(exposure.others@[m].who),
                            ) == pre.balances.spec_get(
                                old(self).spec_payout_dest(exposure.others@[m].who),
                            ));
                        } else {
                            assert(self.balances@ == pre.balances@);
                        }
                    }
                    if delivered_v && pre.spec_payout_delivered(who) {
                        assert(vdest != dest_i);
                        assert(self.balances.spec_get(vdest) == pre.balances.spec_get(vdest));
                    }
                    assert forall|m: int|
                        0 <= m < i + 1 && old(self).spec_payout_delivered(
                            (#[trigger] exposure.others@[m]).who,
                        ) implies self.balances.spec_get(
                        old(self).spec_payout_dest(exposure.others@[m].who),
                    ) == Some(
                        vstd::math::min(
                            (match old(self).balances.spec_get(
                                old(self).spec_payout_dest(exposure.others@[m].who),
                            ) {
                                Some(b) => b as int,
                                None => 0,
                            }) + spec_ratio_floor(
                                exposure.others@[m].value as int,
                                leftover,
                                etotal,
                            ),
                            u64::MAX as int,
                        ) as u64,
                    ) by {
                        if m < i {
                            if pre.spec_payout_delivered(who) {
                                assert(old(self).spec_payout_dest(exposure.others@[m].who)
                                    != dest_i);
                                assert(self.balances.spec_get(
                                    old(self).spec_payout_dest(exposure.others@[m].who),
                                ) == pre.balances.spec_get(
                                    old(self).spec_payout_dest(exposure.others@[m].who),
                                ));
                            } else {
                                assert(self.balances@ == pre.balances@);
                            }
                        } else {
                            assert(m == i);
                            assert(pre.balances.spec_get(dest_i) == old(self).balances.spec_get(
                                dest_i,
                            ));
                        }
                    }
                }
            }
            match paid {
                Some(_) => {
                    nominator_payout_count = nominator_payout_count + 1;
                },
                None => {},
            }
            i = i + 1;
        }
        proof {
            assert(exposure.others@.take(n as int) =~= exposure.others@);
            let values = exposure_values(exposure.others@);
            assert(leftover * (exposure.own as int) == (exposure.own as int) * leftover)
                by (nonlinear_arith);
            assert(spec_ratio_floor(leftover, exposure.own as int, etotal) == spec_ratio_floor(
                exposure.own as int,
                leftover,
                etotal,
            ));
            if exposure.total > 0 {
                lemma_payout_split_conservation(
                    era_payout,
                    validator_points as u64,
                    total_points as u64,
                    commission.spec_parts(),
                    exposure.own,
                    values,
                    exposure.total,
                );
            } else {
                lemma_sum_ratio_floor_zero_den(values, leftover);
            }
            assert(self.total_issuance as int == spec_claim_payments(
                old(self),
                validator_stash,
                era,
            ).0);
            assert(nominator_payout_count as int == spec_claim_payments(
                old(self),
                validator_stash,
                era,
            ).1);
            assert(old(self).bonded.spec_get(validator_stash) == Some(controller));
            assert(match self.ledgers.spec_get(controller) {
                Some(l) => l.claimed_rewards@ == kept@,
                None => false,
            });
            assert(spec_claims_within_history(old(self), self, validator_stash)) by {
                assert forall|m: int| 0 <= m < kept@.len() implies #[trigger] kept@[m] as int >= (
                match old(self).current_era {
                    Some(c) => c as int - old(self).config.history_depth as int,
                    None => 0,
                }) by {
                    assert(kept@[m] as int >= cutoff as int);
                }
            }
            if ddist {
                assert(spec_claim_balances_exact(old(self), self, validator_stash, era));
            }
        }
        self.register_weight(nominator_payout_count.saturating_add(1));
        Ok(nominator_payout_count)
    }
}


impl Staking {
    /// Add reward points to validators, keyed by stash account.
    ///
    /// For each element the given number of points is added to the validator
    /// and to the era total, so duplicates accumulate. A grant that would
    /// push the era total over its type is ignored. At the end of the era
    /// the total payout is distributed among validators relatively to their
    /// points. Nothing happens when no era is active.
    pub fn reward_by_ids(&mut self, validators_points: &Vec<(AccountId, u32)>)
        requires
            old(self).wf(),
        ensures
            final(self).wf(),
            (*final(self)) == (Staking {
                eras_reward_points: final(self).eras_reward_points,
                ..*old(self)
            }),
            old(self).active_era is None ==> final(self).eras_reward_points@ == old(self).eras_reward_points@,
            (match old(self).active_era {
                Some(info) => {
                    &&& forall|k: u64|
                        k != info.index as u64 ==> #[trigger] final(self).eras_reward_points.spec_get(k) == old(self).eras_reward_points.spec_get(k)
                    &&& spec_era_points_total(final(self), info.index) == spec_points_total_fold(
                        spec_era_points_total(old(self), info.index),
                        validators_points@,
                    )
                    &&& forall|v2: AccountId| #[trigger] spec_era_points_of(
                        final(self),
                        info.index,
                        v2,
                    ) == spec_era_points_of(old(self), info.index, v2) + spec_points_granted_to(
                        spec_era_points_total(old(self), info.index),
                        validators_points@,
                        v2,
                    )
                },
                None => true,
            }),
    {
        let info = match self.active_era {
            Some(i) => i,
            None => {
                return ;
            },
        };
        let era_key = info.index as u64;
        let mut points: EraRewardPoints = match self.eras_reward_points.take(era_key) {
            Some(p) => p,
            None => EraRewardPoints::empty(),
        };
        proof {
            if old(self).eras_reward_points.spec_contains_key(era_key) {
                let v = self.eras_reward_points@;
                let o = old(self).eras_reward_points@;
                let idx = old(self).eras_reward_points.key_index(era_key);
                assert(o[idx].1.wf());
                assert forall|m: int| 0 <= m < v.len() implies (#[trigger] v[m]).1.wf() by {
                    if m < idx {
                        assert(v[m] == o[m]);
                    } else {
                        assert(v[m] == o[m + 1]);
                    }
                }
            }
        }
        let ghost base_points = points;
        let n = validators_points.len();
        let mut i: usize = 0;
        while i < n
            invariant
                n == validators_points@.len(),
                i <= n,
                points.wf(),
                old(self).active_era == Some(info),
                era_key == info.index as u64,
                (*self) == (Staking {
                    eras_reward_points: self.eras_reward_points,
                    ..*old(self)
                }),
                self.wf(),
                !self.eras_reward_points.spec_contains_key(era_key),
                forall|k: u64|
                    k != era_key ==> #[trigger] self.eras_reward_points.spec_get(k) == old(self).eras_reward_points.spec_get(k),
                base_points.total as int == spec_era_points_total(old(self), info.index),
                forall|v2: AccountId|
                    (match #[trigger] base_points.individual.spec_get(v2) {
                        Some(x) => x as int,
                        None => 0,
                    }) == spec_era_points_of(old(self), info.index, v2),
                points.total as int == spec_points_total_fold(
                    base_points.total as int,
                    validators_points@.take(i as int),
                ),
                forall|v2: AccountId|
                    (match #[trigger] points.individual.spec_get(v2) {
                        Some(x) => x as int,
                        None => 0,
                    }) == (match base_points.individual.spec_get(v2) {
                        Some(x) => x as int,
                        None => 0,
                    }) + spec_points_granted_to(
                        base_points.total as int,
                        validators_points@.take(i as int),
                        v2,
                    ),
            decreases n - i,
        {
            let who = validators_points[i].0;
            let grant = validators_points[i].1;
            proof {
                assert(validators_points@.take(i as int + 1).drop_last()
                    =~= validators_points@.take(i as int));
                assert(validators_points@.take(i as int + 1).last()
                    == validators_points@[i as int]);
            }
            match points.total.checked_add(grant) {
                Some(new_total) => {
                    let ghost individual_before = points.individual;
                    let current: u32 = match points.individual.take(who) {
                        Some(x) => x,
                        None => 0,
                    };
                    proof {
                        if individual_before.spec_contains_key(who) {
                            let idx = individual_before.key_index(who);
                            lemma_points_entry_le_sum(individual_before@, idx);
                            lemma_points_sum_remove(individual_before@, idx);
                        }
                    }
                    let ghost after_take = points.individual@;
                    points.individual.insert(who, current + grant);
                    proof {
                        assert(points.individual@.drop_last() =~= after_take);
                        assert(points.individual@.last() == (who, (current + grant) as u32));
                        assert(points_sum(points.individual@) == points_sum(after_take) + (current
                            + grant));
                    }
                    points.total = new_total;
                },
                None => {},
            }
            i = i + 1;
        }
        proof {
            assert(validators_points@.take(n as int) =~= validators_points@);
        }
        self.eras_reward_points.insert(era_key, points);
        proof {
            let v = self.eras_reward_points@;
            let o = old(self).eras_reward_points@;
            assert forall|m: int| 0 <= m < v.len() implies (#[trigger] v[m]).1.wf() by {
                if old(self).eras_reward_points.spec_contains_key(era_key) {
                    let idx = old(self).eras_reward_points.key_index(era_key);
                    if m < idx {
                        assert(v[m] == o[m]);
                    } else if m < v.len() - 1 {
                        assert(v[m] == o[m + 1]);
                    }
                } else {
                    if m < o.len() {
                        assert(v[m] == o[m]);
                    }
                }
            }
            assert(self.eras_reward_points.spec_get(era_key) == Some(points));
            assert(spec_era_points_total(self, info.index) == points.total as int);
            assert forall|v2: AccountId| #[trigger] spec_era_points_of(self, info.index, v2)
                == spec_era_points_of(old(self), info.index, v2) + spec_points_granted_to(
                spec_era_points_total(old(self), info.index),
                validators_points@,
                v2,
            ) by {
                assert((match points.individual.spec_get(v2) {
                    Some(x) => x as int,
                    None => 0,
                }) == (match base_points.individual.spec_get(v2) {
                    Some(x) => x as int,
                    None => 0,
                }) + spec_points_granted_to(
                    base_points.total as int,
                    validators_points@,
                    v2,
                ));
            }
        }
    }

    /// Note a block author: twenty points for producing a block.
    pub fn note_author(&mut self, author: AccountId)
        requires
            old(self).wf(),
        ensures
            final(self).wf(),
            (*final(self)) == (Staking {
                eras_reward_points: final(self).eras_reward_points,
                ..*old(self)
            }),
            (match old(self).active_era {
                Some(info) => spec_era_points_total(old(self), info.index) + 20 <= u32::MAX ==> {
                    &&& spec_era_points_total(final(self), info.index) == spec_era_points_total(
                        old(self),
                        info.index,
                    ) + 20
                    &&& spec_era_points_of(final(self), info.index, author) == spec_era_points_of(
                        old(self),
                        info.index,
                        author,
                    ) + 20
                },
                None => final(self).eras_reward_points@ == old(self).eras_reward_points@,
            }),
    {
        let mut grants: Vec<(AccountId, u32)> = Vec::new();
        grants.push((author, 20));
        proof {
            assert(grants@ =~= seq![(author, 20u32)]);
        }
        self.reward_by_ids(&grants);
        proof {
            match old(self).active_era {
                Some(info) => {
                    let t0 = spec_era_points_total(old(self), info.index);
                    let g = grants@;
                    assert(g.drop_last() =~= Seq::<(AccountId, u32)>::empty());
                    assert(spec_points_total_fold(t0, g.drop_last()) == t0);
                    assert(g.last() == (author, 20u32));
                    assert(spec_points_granted_to(t0, g.drop_last(), author) == 0);
                },
                None => {},
            }
        }
    }

    /// Note an uncle block: two points to the block's own author for the
    /// reference, one point to the uncle's author.
    pub fn note_uncle(&mut self, including_author: AccountId, uncle_author: AccountId)
        requires
            old(self).wf(),
        ensures
            final(self).wf(),
            (*final(self)) == (Staking {
                eras_reward_points: final(self).eras_reward_points,
                ..*old(self)
            }),
            old(self).active_era is None ==> final(self).eras_reward_points@ == old(self).eras_reward_points@,
            (match old(self).active_era {
                Some(info) => {
                    &&& forall|k: u64|
                        k != info.index as u64 ==> #[trigger] final(self).eras_reward_points.spec_get(k) == old(self).eras_reward_points.spec_get(
                            k,
                        )
                    &&& spec_era_points_total(final(self), info.index) == spec_points_total_fold(
                        spec_era_points_total(old(self), info.index),
                        seq![(including_author, 2u32), (uncle_author, 1u32)],
                    )
                    &&& forall|v2: AccountId| #[trigger] spec_era_points_of(
                        final(self),
                        info.index,
                        v2,
                    ) == spec_era_points_of(old(self), info.index, v2) + spec_points_granted_to(
                        spec_era_points_total(old(self), info.index),
                        seq![(including_author, 2u32), (uncle_author, 1u32)],
                        v2,
                    )
                },
                None => true,
            }),
    {
        let mut grants: Vec<(AccountId, u32)> = Vec::new();
        grants.push((including_author, 2));
        grants.push((uncle_author, 1));
        proof {
            assert(grants@ =~= seq![(including_author, 2u32), (uncle_author, 1u32)]);
        }
        self.reward_by_ids(&grants);
    }
}

} // verus!
