//! The staking state: configuration, the validator/nominator registry, era
//! records and the slash queues, with the two guarded mutation entry points
//! per registry.

use vstd::prelude::*;
use crate::{AccountId, Balance, EraIndex, SessionIndex, VoteWeight, Weight};
use crate::alist::AList;
use crate::fraction::Perbill;
use crate::types::{
    ActiveEraInfo, EraRewardPoints, Exposure, Forcing, Nominations, StakingError, StakingLedger,
    RewardDestination, UnappliedSlash, ValidatorPrefs,
};

verus! {

/// The fixed parameters of one staking deployment.
#[derive(Clone, Copy)]
pub struct StakingConfig {
    /// Number of sessions per era.
    pub sessions_per_era: u32,
    /// Number of eras that staked funds must remain bonded for.
    pub bonding_duration: u32,
    /// Number of eras that slashes are deferred by, after computation. Zero
    /// applies slashes immediately.
    pub slash_defer_duration: u32,
    /// Number of eras to keep in history; older era information is pruned.
    pub history_depth: u32,
    /// Minimum number of elected validators for an election to be accepted.
    pub minimum_validator_count: u32,
    /// The number of winners the election is asked to produce, set by
    /// governance independently of how many candidates are registered.
    pub validator_count: u32,
    /// The maximum number of nominators rewarded for each validator; the
    /// reward-facing exposure copy is clipped to this many entries.
    pub max_nominator_rewarded_per_validator: u32,
    /// The absolute maximum of votes one voter may cast.
    pub max_nominations: u32,
}

/// The whole staking state, a single-writer store mutated one transition
/// step at a time.
pub struct Staking {
    /// Fixed deployment parameters.
    pub config: StakingConfig,
    /// The fraction of a computed slash that is set aside for the offence's
    /// reporters.
    pub slash_reward_fraction: Perbill,
    /// Validators that may never be slashed or forcibly kicked.
    pub invulnerables: Vec<AccountId>,
    /// The registry of validator candidates and their preferences.
    pub validators: AList<ValidatorPrefs>,
    /// Counter for the registry of validators; maintained only by the two
    /// guarded entry points.
    pub counter_for_validators: u32,
    /// The registry of nominators and their nominations.
    pub nominators: AList<Nominations>,
    /// Counter for the registry of nominators; maintained only by the two
    /// guarded entry points.
    pub counter_for_nominators: u32,
    /// Stash account to controller account.
    pub bonded: AList<AccountId>,
    /// Controller account to staking ledger.
    pub ledgers: AList<StakingLedger>,
    /// Stash account to reward destination; an absent entry pays into stake.
    pub payees: AList<RewardDestination>,
    /// Free balance per account.
    pub balances: AList<Balance>,
    /// The sum of all issued funds.
    pub total_issuance: Balance,
    /// The latest planned era; may be one ahead of the active era.
    pub current_era: Option<EraIndex>,
    /// The era currently producing blocks.
    pub active_era: Option<ActiveEraInfo>,
    /// Era index to the first session index of that era.
    pub eras_start_session_index: AList<SessionIndex>,
    /// The forcing mode consulted on session boundaries.
    pub force_era: Forcing,
    /// The last planned session.
    pub current_planned_session: SessionIndex,
    /// Eras and the first session of each, retained for the bonding window.
    pub bonded_eras: Vec<(EraIndex, SessionIndex)>,
    /// Era to validator to full exposure; the slashing-facing record.
    pub eras_stakers: AList<AList<Exposure>>,
    /// Era to validator to reward-clipped exposure; the payout-facing record.
    pub eras_stakers_clipped: AList<AList<Exposure>>,
    /// Era to validator to the preferences it was elected with.
    pub eras_validator_prefs: AList<AList<ValidatorPrefs>>,
    /// Era to the total payout recorded when the era ended.
    pub eras_validator_reward: AList<Balance>,
    /// Era to block-production reward points.
    pub eras_reward_points: AList<EraRewardPoints>,
    /// Era to the total stake backing the elected set.
    pub eras_total_stake: AList<Balance>,
    /// Era of offence to the computed but not yet applied slashes.
    pub unapplied_slashes: AList<Vec<UnappliedSlash>>,
    /// The earliest era with a pending slash, if any; a watermark that never
    /// regresses.
    pub earliest_unapplied_slash: Option<EraIndex>,
    /// Validator to the era of its last non-zero slash; nominations submitted
    /// before that era are dropped from snapshots.
    pub last_nonzero_slash: AList<EraIndex>,
    /// Offending validators noted this era, and whether each was disabled;
    /// cleared when the era ends.
    pub offending_validators: Vec<(AccountId, bool)>,
    /// Abstract resource cost self-reported by the operations so far.
    pub consumed_weight: Weight,
    /// The oldest session the external session layer still needs for
    /// historical lookups, as last communicated.
    pub historical_pruned_up_to: Option<SessionIndex>,
}

impl Staking {
    /// Structural well-formedness: registries are maps with distinct keys
    /// and honest counters, ledgers keep their claims sorted, reward points
    /// add up, exposures cover their totals, and every stored fraction is at
    /// most one whole.
    pub open spec fn wf(&self) -> bool {
        &&& self.validators.wf()
        &&& self.validators@.len() <= u32::MAX
        &&& self.counter_for_validators as int == self.validators@.len()
        &&& forall|i: int|
            0 <= i < self.validators@.len() ==> (#[trigger] self.validators@[i]).1.wf()
        &&& self.nominators.wf()
        &&& self.nominators@.len() <= u32::MAX
        &&& self.counter_for_nominators as int == self.nominators@.len()
        &&& forall|i: int|
            0 <= i < self.nominators@.len() ==> (#[trigger] self.nominators@[i]).1.targets@.len()
                <= u32::MAX
        &&& self.bonded.wf()
        &&& self.ledgers.wf()
        &&& forall|i: int| 0 <= i < self.ledgers@.len() ==> (#[trigger] self.ledgers@[i]).1.wf()
        &&& self.payees.wf()
        &&& self.balances.wf()
        &&& self.eras_start_session_index.wf()
        &&& self.eras_stakers.wf()
        &&& forall|i: int|
            0 <= i < self.eras_stakers@.len() ==> (#[trigger] self.eras_stakers@[i]).1.wf()
        &&& self.eras_stakers_clipped.wf()
        &&& forall|i: int|
            0 <= i < self.eras_stakers_clipped@.len() ==> (
            #[trigger] self.eras_stakers_clipped@[i]).1.wf()
        &&& forall|i: int, j: int|
            0 <= i < self.eras_stakers_clipped@.len() && 0 <= j < (
            #[trigger] self.eras_stakers_clipped@[i]).1@.len() ==> (
            #[trigger] self.eras_stakers_clipped@[i].1@[j]).1.sub_balanced()
        &&& self.eras_validator_prefs.wf()
        &&& forall|i: int|
            0 <= i < self.eras_validator_prefs@.len() ==> (
            #[trigger] self.eras_validator_prefs@[i]).1.wf()
        &&& forall|i: int, j: int|
            0 <= i < self.eras_validator_prefs@.len() && 0 <= j < (
            #[trigger] self.eras_validator_prefs@[i]).1@.len() ==> (
            #[trigger] self.eras_validator_prefs@[i].1@[j]).1.wf()
        &&& self.eras_validator_reward.wf()
        &&& self.eras_reward_points.wf()
        &&& forall|i: int|
            0 <= i < self.eras_reward_points@.len() ==> (
            #[trigger] self.eras_reward_points@[i]).1.wf()
        &&& self.eras_total_stake.wf()
        &&& self.unapplied_slashes.wf()
        &&& self.last_nonzero_slash.wf()
        &&& self.slash_reward_fraction.wf()
    }

    /// A fresh state with the given parameters and nothing registered.
    pub fn new(config: StakingConfig) -> (r: Self)
        ensures
            r.wf(),
            r.config == config,
            r.validators@.len() == 0,
            r.nominators@.len() == 0,
            r.current_era is None,
            r.active_era is None,
            r.force_era == Forcing::NotForcing,
            r.earliest_unapplied_slash is None,
            r.unapplied_slashes@.len() == 0,
            r.bonded_eras@.len() == 0,
            r.total_issuance == 0,
            r.consumed_weight == 0,
            r.eras_reward_points@.len() == 0,
            r.eras_validator_reward@.len() == 0,
            r.eras_start_session_index@.len() == 0,
            r.eras_stakers@.len() == 0,
            r.eras_stakers_clipped@.len() == 0,
            r.bonded@.len() == 0,
            r.ledgers@.len() == 0,
            r.balances@.len() == 0,
            r.slash_reward_fraction.spec_parts() == 0,
    {
        Staking {
            config,
            slash_reward_fraction: Perbill::zero(),
            invulnerables: Vec::new(),
            validators: AList::new(),
            counter_for_validators: 0,
            nominators: AList::new(),
            counter_for_nominators: 0,
            bonded: AList::new(),
            ledgers: AList::new(),
            payees: AList::new(),
            balances: AList::new(),
            total_issuance: 0,
            current_era: None,
            active_era: None,
            eras_start_session_index: AList::new(),
            force_era: Forcing::NotForcing,
            current_planned_session: 0,
            bonded_eras: Vec::new(),
            eras_stakers: AList::new(),
            eras_stakers_clipped: AList::new(),
            eras_validator_prefs: AList::new(),
            eras_validator_reward: AList::new(),
            eras_reward_points: AList::new(),
            eras_total_stake: AList::new(),
            unapplied_slashes: AList::new(),
            earliest_unapplied_slash: None,
            last_nonzero_slash: AList::new(),
            offending_validators: Vec::new(),
            consumed_weight: 0,
            historical_pruned_up_to: None,
        }
    }

    /// The balance that can be slashed from `stash` right now: the active
    /// stake of its ledger, or zero when it is not bonded.
    pub open spec fn spec_slashable_balance_of(&self, stash: AccountId) -> Balance {
        match self.bonded.spec_get(stash) {
            Some(controller) => match self.ledgers.spec_get(controller) {
                Some(ledger) => ledger.active,
                None => 0,
            },
            None => 0,
        }
    }

    /// The total balance that can be slashed from a stash account as of
    /// right now.
    pub fn slashable_balance_of(&self, stash: AccountId) -> (r: Balance)
        requires
            self.wf(),
        ensures
            r == self.spec_slashable_balance_of(stash),
    {
        match self.bonded.get(stash) {
            Some(controller) => match self.ledgers.get(*controller) {
                Some(ledger) => ledger.active,
                None => 0,
            },
            None => 0,
        }
    }

    /// The slashable balance of `stash` as a [`VoteWeight`]. The currency to
    /// vote conversion is the saturating identity, so the issuance does not
    /// change the result here; the parameter keeps the call shape of a
    /// conversion that consults it.
    pub fn slashable_balance_of_vote_weight(&self, stash: AccountId, _issuance: Balance) -> (r:
        VoteWeight)
        requires
            self.wf(),
        ensures
            r == self.spec_slashable_balance_of(stash),
    {
        self.slashable_balance_of(stash)
    }

    /// Same as [`Self::slashable_balance_of_vote_weight`], reading the
    /// issuance itself; made for one time use.
    pub fn weight_of(&self, who: AccountId) -> (r: VoteWeight)
        requires
            self.wf(),
        ensures
            r == self.spec_slashable_balance_of(who),
    {
        let issuance = self.total_issuance;
        self.slashable_balance_of_vote_weight(who, issuance)
    }

    /// Register some amount of abstract cost with the accounting
    /// collaborator. This is always mandatory weight.
    pub fn register_weight(&mut self, weight: Weight)
        ensures
            final(self).consumed_weight == vstd::math::min(
                old(self).consumed_weight as int + weight as int,
                u64::MAX as int,
            ) as u64,
            (*final(self)) == (Staking { consumed_weight: final(self).consumed_weight, ..*old(self) }),
    {
        self.consumed_weight = self.consumed_weight.saturating_add(weight);
    }

    /// Set the fraction of each slash that is put aside for reporters.
    pub fn set_slash_reward_fraction(&mut self, fraction: Perbill)
        requires
            old(self).wf(),
            fraction.wf(),
        ensures
            final(self).wf(),
            final(self).slash_reward_fraction == fraction,
            (*final(self)) == (Staking { slash_reward_fraction: fraction, ..*old(self) }),
    {
        self.slash_reward_fraction = fraction;
    }

    /// This function will add a nominator to the `nominators` registry and
    /// keep track of its counter.
    ///
    /// If the nominator already exists, their nominations will be updated.
    ///
    /// You must ALWAYS use this function to add a nominator or update their
    /// targets; any other access to the registry or its counter is wrong.
    pub fn do_add_nominator(&mut self, who: AccountId, nominations: Nominations)
        requires
            old(self).wf(),
            old(self).nominators@.len() < u32::MAX,
            nominations.targets@.len() <= u32::MAX,
        ensures
            final(self).wf(),
            final(self).nominators.spec_contains_key(who),
            final(self).nominators@ == if old(self).nominators.spec_contains_key(who) {
                old(self).nominators@.update(
                    old(self).nominators.key_index(who),
                    (who, nominations),
                )
            } else {
                old(self).nominators@.push((who, nominations))
            },
            forall|k: u64|
                k != who ==> final(self).nominators.spec_get(k) == old(self).nominators.spec_get(k),
            final(self).counter_for_nominators as int == final(self).nominators@.len(),
            (*final(self)) == (Staking {
                nominators: final(self).nominators,
                counter_for_nominators: final(self).counter_for_nominators,
                ..*old(self)
            }),
    {
        if !self.nominators.contains_key(who) {
            self.counter_for_nominators = self.counter_for_nominators + 1;
        }
        self.nominators.insert(who, nominations);
        proof {
            let v = self.nominators@;
            let o = old(self).nominators@;
            assert forall|i: int| 0 <= i < v.len() implies (#[trigger] v[i]).1.targets@.len()
                <= u32::MAX by {
                if old(self).nominators.spec_contains_key(who) {
                    if i != old(self).nominators.key_index(who) {
                        assert(v[i] == o[i]);
                    }
                } else {
                    if i < o.len() {
                        assert(v[i] == o[i]);
                    }
                }
            }
        }
    }

    /// This function will remove a nominator from the `nominators` registry
    /// and keep track of its counter.
    ///
    /// Returns true if `who` was removed, otherwise false.
    pub fn do_remove_nominator(&mut self, who: AccountId) -> (r: bool)
        requires
            old(self).wf(),
        ensures
            final(self).wf(),
            r == old(self).nominators.spec_contains_key(who),
            !final(self).nominators.spec_contains_key(who),
            final(self).nominators@ == if old(self).nominators.spec_contains_key(who) {
                old(self).nominators@.remove(old(self).nominators.key_index(who))
            } else {
                old(self).nominators@
            },
            forall|k: u64|
                k != who ==> final(self).nominators.spec_get(k) == old(self).nominators.spec_get(k),
            final(self).counter_for_nominators as int == final(self).nominators@.len(),
            (*final(self)) == (Staking {
                nominators: final(self).nominators,
                counter_for_nominators: final(self).counter_for_nominators,
                ..*old(self)
            }),
    {
        let removed = self.nominators.remove(who);
        if removed {
            self.counter_for_nominators = self.counter_for_nominators - 1;
        }
        proof {
            if old(self).nominators.spec_contains_key(who) {
                let v = self.nominators@;
                let o = old(self).nominators@;
                let idx = old(self).nominators.key_index(who);
                assert forall|i: int| 0 <= i < v.len() implies (#[trigger] v[i]).1.targets@.len()
                    <= u32::MAX by {
                    if i < idx {
                        assert(v[i] == o[i]);
                    } else {
                        assert(v[i] == o[i + 1]);
                    }
                }
            }
        }
        removed
    }

    /// This function will add a validator to the `validators` registry and
    /// keep track of its counter.
    ///
    /// If the validator already exists, their preferences will be updated.
    ///
    /// You must ALWAYS use this function to add a validator to the system;
    /// any other access to the registry or its counter is wrong.
    pub fn do_add_validator(&mut self, who: AccountId, prefs: ValidatorPrefs)
        requires
            old(self).wf(),
            old(self).validators@.len() < u32::MAX,
            prefs.wf(),
        ensures
            final(self).wf(),
            final(self).validators.spec_contains_key(who),
            final(self).validators.spec_get(who) == Some(prefs),
            final(self).validators@ == if old(self).validators.spec_contains_key(who) {
                old(self).validators@.update(old(self).validators.key_index(who), (who, prefs))
            } else {
                old(self).validators@.push((who, prefs))
            },
            forall|k: u64|
                k != who ==> final(self).validators.spec_get(k) == old(self).validators.spec_get(k),
            final(self).counter_for_validators as int == final(self).validators@.len(),
            (*final(self)) == (Staking {
                validators: final(self).validators,
                counter_for_validators: final(self).counter_for_validators,
                ..*old(self)
            }),
    {
        if !self.validators.contains_key(who) {
            self.counter_for_validators = self.counter_for_validators + 1;
        }
        self.validators.insert(who, prefs);
        proof {
            let v = self.validators@;
            let o = old(self).validators@;
            assert forall|i: int| 0 <= i < v.len() implies (#[trigger] v[i]).1.wf() by {
                if old(self).validators.spec_contains_key(who) {
                    if i != old(self).validators.key_index(who) {
                        assert(v[i] == o[i]);
                    }
                } else {
                    if i < o.len() {
                        assert(v[i] == o[i]);
                    }
                }
            }
        }
    }

    /// This function will remove a validator from the `validators` registry
    /// and keep track of its counter.
    ///
    /// Returns true if `who` was removed, otherwise false.
    pub fn do_remove_validator(&mut self, who: AccountId) -> (r: bool)
        requires
            old(self).wf(),
        ensures
            final(self).wf(),
            r == old(self).validators.spec_contains_key(who),
            !final(self).validators.spec_contains_key(who),
            final(self).validators@ == if old(self).validators.spec_contains_key(who) {
                old(self).validators@.remove(old(self).validators.key_index(who))
            } else {
                old(self).validators@
            },
            forall|k: u64|
                k != who ==> final(self).validators.spec_get(k) == old(self).validators.spec_get(k),
            final(self).counter_for_validators as int == final(self).validators@.len(),
            (*final(self)) == (Staking {
                validators: final(self).validators,
                counter_for_validators: final(self).counter_for_validators,
                ..*old(self)
            }),
    {
        let removed = self.validators.remove(who);
        if removed {
            self.counter_for_validators = self.counter_for_validators - 1;
        }
        proof {
            if old(self).validators.spec_contains_key(who) {
                let v = self.validators@;
                let o = old(self).validators@;
                let idx = old(self).validators.key_index(who);
                assert forall|i: int| 0 <= i < v.len() implies (#[trigger] v[i]).1.wf() by {
                    if i < idx {
                        assert(v[i] == o[i]);
                    } else {
                        assert(v[i] == o[i + 1]);
                    }
                }
            }
        }
        removed
    }

    /// Chill a stash account: remove it from both registries. Returns
    /// whether it was registered anywhere.
    pub fn chill_stash(&mut self, stash: AccountId) -> (r: bool)
        requires
            old(self).wf(),
        ensures
            final(self).wf(),
            r == (old(self).validators.spec_contains_key(stash) || old(
                self,
            ).nominators.spec_contains_key(stash)),
            !final(self).validators.spec_contains_key(stash),
            !final(self).nominators.spec_contains_key(stash),
            forall|k: u64|
                k != stash ==> final(self).validators.spec_get(k) == old(
                    self,
                ).validators.spec_get(k),
            forall|k: u64|
                k != stash ==> final(self).nominators.spec_get(k) == old(
                    self,
                ).nominators.spec_get(k),
            (*final(self)) == (Staking {
                validators: final(self).validators,
                counter_for_validators: final(self).counter_for_validators,
                nominators: final(self).nominators,
                counter_for_nominators: final(self).counter_for_nominators,
                ..*old(self)
            }),
    {
        let chilled_as_validator = self.do_remove_validator(stash);
        let chilled_as_nominator = self.do_remove_nominator(stash);
        chilled_as_validator || chilled_as_nominator
    }

    /// Update the ledger for a controller.
    pub fn update_ledger(&mut self, controller: AccountId, ledger: StakingLedger)
        requires
            old(self).wf(),
            ledger.wf(),
        ensures
            final(self).wf(),
            final(self).ledgers.spec_contains_key(controller),
            final(self).ledgers.spec_get(controller) == Some(ledger),
            forall|k: u64|
                k != controller ==> final(self).ledgers.spec_get(k) == old(self).ledgers.spec_get(
                    k,
                ),
            (*final(self)) == (Staking { ledgers: final(self).ledgers, ..*old(self) }),
    {
        self.ledgers.insert(controller, ledger);
        proof {
            let v = self.ledgers@;
            let o = old(self).ledgers@;
            assert forall|i: int| 0 <= i < v.len() implies (#[trigger] v[i]).1.wf() by {
                if old(self).ledgers.spec_contains_key(controller) {
                    if i != old(self).ledgers.key_index(controller) {
                        assert(v[i] == o[i]);
                    }
                } else {
                    if i < o.len() {
                        assert(v[i] == o[i]);
                    }
                }
            }
        }
    }

    /// Remove all associated data of a stash account from the staking
    /// system: its bond, ledger, payee, registry entries and slashing
    /// metadata.
    pub fn kill_stash(&mut self, stash: AccountId) -> (r: Result<(), StakingError>)
        requires
            old(self).wf(),
        ensures
            final(self).wf(),
            r is Err <==> !old(self).bonded.spec_contains_key(stash),
            r is Err ==> (*final(self)) == (*old(self)),
            r is Ok ==> {
                &&& !final(self).bonded.spec_contains_key(stash)
                &&& !final(self).validators.spec_contains_key(stash)
                &&& !final(self).nominators.spec_contains_key(stash)
                &&& !final(self).payees.spec_contains_key(stash)
                &&& (match old(self).bonded.spec_get(stash) {
                    Some(controller) => !final(self).ledgers.spec_contains_key(controller),
                    None => true,
                })
            },
    {
        let controller = match self.bonded.get(stash) {
            Some(c) => *c,
            None => {
                return Err(StakingError::NotStash);
            },
        };
        self.last_nonzero_slash.remove(stash);
        self.bonded.remove(stash);
        let removed_ledger = self.ledgers.take(controller);
        proof {
            if old(self).ledgers.spec_contains_key(controller) {
                let v = self.ledgers@;
                let o = old(self).ledgers@;
                let idx = old(self).ledgers.key_index(controller);
                assert forall|i: int| 0 <= i < v.len() implies (#[trigger] v[i]).1.wf() by {
                    if i < idx {
                        assert(v[i] == o[i]);
                    } else {
                        assert(v[i] == o[i + 1]);
                    }
                }
            }
        }
        self.payees.remove(stash);
        self.do_remove_validator(stash);
        self.do_remove_nominator(stash);
        Ok(())
    }
}


impl Staking {
    /// The current count of nominators in the registry traversal that feeds
    /// snapshots.
    pub fn nominator_count(&self) -> (r: u32)
        requires
            self.wf(),
        ensures
            r as int == self.nominators@.len(),
    {
        self.counter_for_nominators
    }

    /// Whether the registry traversal contains `id`.
    pub fn nominator_contains(&self, id: AccountId) -> (r: bool)
        requires
            self.wf(),
        ensures
            r == self.nominators.spec_contains_key(id),
    {
        self.nominators.contains_key(id)
    }

    /// Get the current vote weight of `who`.
    pub fn vote_weight(&self, who: AccountId) -> (r: VoteWeight)
        requires
            self.wf(),
        ensures
            r == self.spec_slashable_balance_of(who),
    {
        self.weight_of(who)
    }

    /// Remove up to `maybe_count` nominators from the registry, oldest first;
    /// all of them when no count is given. Returns the count asked for, or
    /// the number removed when everything went.
    pub fn clear_nominators(&mut self, maybe_count: Option<u32>) -> (r: u32)
        requires
            old(self).wf(),
        ensures
            final(self).wf(),
            final(self).counter_for_nominators as int == final(self).nominators@.len(),
            (match maybe_count {
                Some(count) => {
                    &&& final(self).nominators@ == old(self).nominators@.skip(
                        vstd::math::min(count as int, old(self).nominators@.len() as int),
                    )
                    &&& r == count
                },
                None => {
                    &&& final(self).nominators@.len() == 0
                    &&& r as int == old(self).nominators@.len()
                },
            }),
            (*final(self)) == (Staking {
                nominators: final(self).nominators,
                counter_for_nominators: final(self).counter_for_nominators,
                ..*old(self)
            }),
    {
        match maybe_count {
            Some(count) => {
                let mut removed: u32 = 0;
                while removed < count && self.nominators.len() > 0
                    invariant
                        self.wf(),
                        removed <= count,
                        self.nominators@ == old(self).nominators@.skip(
                            vstd::math::min(removed as int, old(self).nominators@.len() as int),
                        ),
                        removed as int <= old(self).nominators@.len() || self.nominators@.len()
                            == 0,
                        self.counter_for_nominators as int == self.nominators@.len(),
                        (*self) == (Staking {
                            nominators: self.nominators,
                            counter_for_nominators: self.counter_for_nominators,
                            ..*old(self)
                        }),
                    decreases count - removed,
                {
                    let front = self.nominators.entries()[0].0;
                    proof {
                        self.nominators.lemma_key_index_unique(front, 0);
                    }
                    self.nominators.remove(front);
                    self.counter_for_nominators = self.counter_for_nominators - 1;
                    removed = removed + 1;
                    proof {
                        let whole = old(self).nominators@;
                        let lo = vstd::math::min(removed as int - 1, whole.len() as int);
                        let hi = vstd::math::min(removed as int, whole.len() as int);
                        assert(whole.skip(lo).remove(0) =~= whole.skip(hi));
                    }
                }
                proof {
                    if self.nominators@.len() == 0 {
                        assert(self.nominators@ =~= old(self).nominators@.skip(
                            vstd::math::min(count as int, old(self).nominators@.len() as int),
                        ));
                    }
                }
                count
            },
            None => {
                let total = self.counter_for_nominators;
                self.nominators = crate::alist::AList::new();
                self.counter_for_nominators = 0;
                total
            },
        }
    }
}

} // verus!
