//! The era/session lifecycle scheduler: reacts to session-boundary
//! notifications, decides when a re-election happens, and sequences
//! start-of-era and end-of-era actions.
//!
//! The election solver is an external collaborator: its output arrives as an
//! argument, and a failed election is retried at the next session boundary.

use vstd::prelude::*;
use crate::{AccountId, Balance, EraIndex, SessionIndex};
use crate::slashing::spec_applies_pending;
use crate::state::Staking;
use crate::types::{ActiveEraInfo, Exposure, Forcing, Support};

verus! {

/// The next value of the planned era counter: the successor, or zero when no
/// era exists yet.
pub open spec fn spec_bumped_era(c: Option<EraIndex>) -> int {
    match c {
        None => 0,
        Some(e) => e + 1,
    }
}

/// The planned era counter after `n` successful triggers, starting from no
/// era at all.
pub open spec fn spec_counter_after_triggers(n: nat) -> Option<int>
    decreases n,
{
    if n == 0 {
        None
    } else {
        match spec_counter_after_triggers((n - 1) as nat) {
            None => Some(0int),
            Some(e) => Some(e + 1),
        }
    }
}

/// The era counter after `n` successful triggers from no era reads exactly
/// `n - 1`; each trigger advances it by exactly one.
pub proof fn lemma_era_counter_counts_triggers(n: nat)
    requires
        n >= 1,
    ensures
        spec_counter_after_triggers(n) == Some(n - 1),
    decreases n,
{
    if n == 1 {
        assert(spec_counter_after_triggers(0) is None);
    } else {
        lemma_era_counter_counts_triggers((n - 1) as nat);
    }
}

/// Whether an election result carries enough winners to plan an era: it
/// arrived at all, and has at least `max(minimum_validator_count, 1)` of
/// them.
pub open spec fn spec_election_sufficient(
    s: &Staking,
    result: Option<Vec<(AccountId, Support)>>,
) -> bool {
    match result {
        Some(supports) => supports@.len() >= (if s.config.minimum_validator_count < 1 {
            1int
        } else {
            s.config.minimum_validator_count as int
        }),
        None => false,
    }
}

/// Whether a session-boundary notification at `session_index` should attempt
/// to trigger a new era: always before the first era; afterwards per the
/// forcing mode, with `NotForcing` waiting for the era length to reach the
/// configured sessions per era.
pub open spec fn spec_should_attempt_trigger(s: &Staking, session_index: SessionIndex) -> bool {
    match s.current_era {
        None => true,
        Some(current_era) => {
            let start = match s.eras_start_session_index.spec_get(current_era as u64) {
                Some(x) => x,
                None => 0,
            };
            let era_length: int = if session_index >= start {
                session_index - start
            } else {
                0
            };
            match s.force_era {
                Forcing::ForceNew => true,
                Forcing::ForceAlways => true,
                Forcing::NotForcing => era_length >= s.config.sessions_per_era,
                Forcing::ForceNone => false,
            }
        },
    }
}

/// The bonded-eras window once every leading entry older than the first
/// kept era has been pruned.
pub open spec fn spec_pruned_window(
    s: Seq<(EraIndex, SessionIndex)>,
    first_kept: EraIndex,
) -> Seq<(EraIndex, SessionIndex)>
    decreases s.len(),
{
    if s.len() == 0 {
        s
    } else if s.first().0 >= first_kept {
        s
    } else {
        spec_pruned_window(s.drop_first(), first_kept)
    }
}

/// Whether planning era `bumped` prunes the records of era `k`: the era that
/// just fell out of history.
pub open spec fn spec_trigger_clears(s: &Staking, k: u64) -> bool {
    &&& s.config.history_depth as int + 1 <= u32::MAX as int
    &&& spec_bumped_era(s.current_era) >= s.config.history_depth as int + 1
    &&& k == (spec_bumped_era(s.current_era) - s.config.history_depth - 1) as u64
}

/// Whether the era after the active one is recorded to start no later than
/// `session`.
pub open spec fn spec_era_should_start(s: &Staking, session: SessionIndex) -> bool {
    let next_key: int = match s.active_era {
        Some(info) => info.index + 1,
        None => 0,
    };
    match s.eras_start_session_index.spec_get(next_key as u64) {
        Some(x) => x <= session,
        None => false,
    }
}

/// Whether ending `session` ends the active era: the next era is recorded to
/// start exactly one session later.
pub open spec fn spec_era_should_end(s: &Staking, session: SessionIndex) -> bool {
    match s.active_era {
        Some(info) => match s.eras_start_session_index.spec_get((info.index + 1) as u64) {
            Some(x) => session < u32::MAX && x == session + 1,
            None => false,
        },
        None => false,
    }
}

impl Staking {
    /// Clear all era information for the given era.
    pub fn clear_era_information(&mut self, era_index: EraIndex)
        requires
            old(self).wf(),
        ensures
            final(self).wf(),
            !final(self).eras_stakers.spec_contains_key(era_index as u64),
            !final(self).eras_stakers_clipped.spec_contains_key(era_index as u64),
            !final(self).eras_validator_prefs.spec_contains_key(era_index as u64),
            !final(self).eras_validator_reward.spec_contains_key(era_index as u64),
            !final(self).eras_reward_points.spec_contains_key(era_index as u64),
            !final(self).eras_total_stake.spec_contains_key(era_index as u64),
            !final(self).eras_start_session_index.spec_contains_key(era_index as u64),
            forall|k: u64|
                k != era_index as u64 ==> {
                    &&& final(self).eras_stakers.spec_get(k) == old(self).eras_stakers.spec_get(k)
                    &&& final(self).eras_stakers_clipped.spec_get(k) == old(
                        self,
                    ).eras_stakers_clipped.spec_get(k)
                    &&& final(self).eras_validator_prefs.spec_get(k) == old(
                        self,
                    ).eras_validator_prefs.spec_get(k)
                    &&& final(self).eras_validator_reward.spec_get(k) == old(
                        self,
                    ).eras_validator_reward.spec_get(k)
                    &&& final(self).eras_reward_points.spec_get(k) == old(
                        self,
                    ).eras_reward_points.spec_get(k)
                    &&& final(self).eras_total_stake.spec_get(k) == old(
                        self,
                    ).eras_total_stake.spec_get(k)
                    &&& final(self).eras_start_session_index.spec_get(k) == old(
                        self,
                    ).eras_start_session_index.spec_get(k)
                },
            (*final(self)) == (Staking {
                eras_stakers: final(self).eras_stakers,
                eras_stakers_clipped: final(self).eras_stakers_clipped,
                eras_validator_prefs: final(self).eras_validator_prefs,
                eras_validator_reward: final(self).eras_validator_reward,
                eras_reward_points: final(self).eras_reward_points,
                eras_total_stake: final(self).eras_total_stake,
                eras_start_session_index: final(self).eras_start_session_index,
                ..*old(self)
            }),
    {
        let key = era_index as u64;
        self.eras_stakers.remove(key);
        proof {
            if old(self).eras_stakers.spec_contains_key(key) {
                let v = self.eras_stakers@;
                let o = old(self).eras_stakers@;
                let idx = old(self).eras_stakers.key_index(key);
                assert forall|m: int| 0 <= m < v.len() implies (#[trigger] v[m]).1.wf() by {
                    if m < idx {
                        assert(v[m] == o[m]);
                    } else {
                        assert(v[m] == o[m + 1]);
                    }
                }
            }
        }
        let ghost mid1 = *self;
        self.eras_stakers_clipped.remove(key);
        proof {
            if mid1.eras_stakers_clipped.spec_contains_key(key) {
                let v = self.eras_stakers_clipped@;
                let o = mid1.eras_stakers_clipped@;
                let idx = mid1.eras_stakers_clipped.key_index(key);
                assert forall|m: int| 0 <= m < v.len() implies (#[trigger] v[m]).1.wf() by {
                    if m < idx {
                        assert(v[m] == o[m]);
                    } else {
                        assert(v[m] == o[m + 1]);
                    }
                }
                assert forall|m: int, j: int|
                    0 <= m < v.len() && 0 <= j < (#[trigger] v[m]).1@.len() implies (
                #[trigger] v[m].1@[j]).1.sub_balanced() by {
                    if m < idx {
                        assert(v[m] == o[m]);
                    } else {
                        assert(v[m] == o[m + 1]);
                    }
                }
            }
        }
        let ghost mid2 = *self;
        self.eras_validator_prefs.remove(key);
        proof {
            if mid2.eras_validator_prefs.spec_contains_key(key) {
                let v = self.eras_validator_prefs@;
                let o = mid2.eras_validator_prefs@;
                let idx = mid2.eras_validator_prefs.key_index(key);
                assert forall|m: int| 0 <= m < v.len() implies (#[trigger] v[m]).1.wf() by {
                    if m < idx {
                        assert(v[m] == o[m]);
                    } else {
                        assert(v[m] == o[m + 1]);
                    }
                }
                assert forall|m: int, j: int|
                    0 <= m < v.len() && 0 <= j < (#[trigger] v[m]).1@.len() implies (
                #[trigger] v[m].1@[j]).1.wf() by {
                    if m < idx {
                        assert(v[m] == o[m]);
                    } else {
                        assert(v[m] == o[m + 1]);
                    }
                }
            }
        }
        self.eras_validator_reward.remove(key);
        let ghost mid3 = *self;
        self.eras_reward_points.remove(key);
        proof {
            if mid3.eras_reward_points.spec_contains_key(key) {
                let v = self.eras_reward_points@;
                let o = mid3.eras_reward_points@;
                let idx = mid3.eras_reward_points.key_index(key);
                assert forall|m: int| 0 <= m < v.len() implies (#[trigger] v[m]).1.wf() by {
                    if m < idx {
                        assert(v[m] == o[m]);
                    } else {
                        assert(v[m] == o[m + 1]);
                    }
                }
            }
        }
        self.eras_total_stake.remove(key);
        self.eras_start_session_index.remove(key);
    }

    /// Plan a new era: bump the planned era counter, record the new era's
    /// first session, prune era information that has fallen out of history,
    /// and persist the staking facts of the new era. Returns the new
    /// validator set.
    pub fn trigger_new_era(
        &mut self,
        start_session_index: SessionIndex,
        exposures: &Vec<(AccountId, Exposure)>,
    ) -> (r: Vec<AccountId>)
        requires
            old(self).wf(),
            (match old(self).current_era {
                Some(e) => e < u32::MAX,
                None => true,
            }),
            forall|i: int| 0 <= i < exposures@.len() ==> (#[trigger] exposures@[i]).1.balanced(),
            forall|i: int, j: int|
                0 <= i < j < exposures@.len() ==> (#[trigger] exposures@[i]).0 != (
                #[trigger] exposures@[j]).0,
        ensures
            final(self).wf(),
            final(self).current_era == Some(spec_bumped_era(old(self).current_era) as EraIndex),
            final(self).eras_start_session_index.spec_get(
                spec_bumped_era(old(self).current_era) as u64,
            ) == Some(start_session_index),
            r@ == exposures@.map_values(|e: (AccountId, Exposure)| e.0),
            (match final(self).eras_stakers.spec_get(
                spec_bumped_era(old(self).current_era) as u64,
            ) {
                Some(inner) => {
                    &&& inner@.len() == exposures@.len()
                    &&& forall|i: int|
                        0 <= i < inner@.len() ==> {
                            &&& (#[trigger] inner@[i]).0 == exposures@[i].0
                            &&& inner@[i].1.own == exposures@[i].1.own
                            &&& inner@[i].1.total == exposures@[i].1.total
                            &&& inner@[i].1.others@ == exposures@[i].1.others@
                        }
                },
                None => false,
            }),
            (match final(self).eras_stakers_clipped.spec_get(
                spec_bumped_era(old(self).current_era) as u64,
            ) {
                Some(inner) => {
                    &&& inner@.len() == exposures@.len()
                    &&& forall|i: int|
                        0 <= i < inner@.len() ==> (#[trigger] inner@[i]).0 == exposures@[i].0
                            && crate::consumer::spec_clipped_of(
                            exposures@[i].1,
                            inner@[i].1,
                            old(self).config.max_nominator_rewarded_per_validator as int,
                        )
                },
                None => false,
            }),
            final(self).eras_total_stake.spec_get(spec_bumped_era(old(self).current_era) as u64)
                == Some(
                vstd::math::min(
                    crate::consumer::spec_stake_sum(exposures@),
                    u64::MAX as int,
                ) as u64,
            ),
            forall|k: u64|
                #[trigger] spec_trigger_clears(old(self), k) ==> {
                    &&& !final(self).eras_stakers.spec_contains_key(k)
                    &&& !final(self).eras_stakers_clipped.spec_contains_key(k)
                    &&& !final(self).eras_validator_prefs.spec_contains_key(k)
                    &&& !final(self).eras_validator_reward.spec_contains_key(k)
                    &&& !final(self).eras_reward_points.spec_contains_key(k)
                    &&& !final(self).eras_total_stake.spec_contains_key(k)
                    &&& !final(self).eras_start_session_index.spec_contains_key(k)
                },
            forall|k: u64|
                k != spec_bumped_era(old(self).current_era) as u64 && !spec_trigger_clears(
                    old(self),
                    k,
                ) ==> {
                    &&& #[trigger] final(self).eras_stakers.spec_get(k) == old(
                        self,
                    ).eras_stakers.spec_get(k)
                    &&& final(self).eras_stakers_clipped.spec_get(k) == old(
                        self,
                    ).eras_stakers_clipped.spec_get(k)
                    &&& final(self).eras_validator_prefs.spec_get(k) == old(
                        self,
                    ).eras_validator_prefs.spec_get(k)
                    &&& final(self).eras_validator_reward.spec_get(k) == old(
                        self,
                    ).eras_validator_reward.spec_get(k)
                    &&& final(self).eras_reward_points.spec_get(k) == old(
                        self,
                    ).eras_reward_points.spec_get(k)
                    &&& final(self).eras_total_stake.spec_get(k) == old(
                        self,
                    ).eras_total_stake.spec_get(k)
                    &&& final(self).eras_start_session_index.spec_get(k) == old(
                        self,
                    ).eras_start_session_index.spec_get(k)
                },
            final(self).validators@ == old(self).validators@,
            final(self).nominators@ == old(self).nominators@,
            final(self).active_era == old(self).active_era,
            final(self).force_era == old(self).force_era,
            final(self).current_planned_session == old(self).current_planned_session,
            final(self).unapplied_slashes@ == old(self).unapplied_slashes@,
            final(self).earliest_unapplied_slash == old(self).earliest_unapplied_slash,
            final(self).balances@ == old(self).balances@,
            final(self).ledgers@ == old(self).ledgers@,
            final(self).bonded_eras@ == old(self).bonded_eras@,
    {
        let new_planned_era: EraIndex = match self.current_era {
            Some(e) => e + 1,
            None => 0,
        };
        self.current_era = Some(new_planned_era);
        self.eras_start_session_index.insert(new_planned_era as u64, start_session_index);
        // Clean old era information.
        match self.config.history_depth.checked_add(1) {
            Some(keep) => {
                if new_planned_era >= keep {
                    let old_era = new_planned_era - keep;
                    self.clear_era_information(old_era);
                }
            },
            None => {},
        }
        // Set staking information for the new era.
        let ghost pre_store = *self;
        let elected = self.store_stakers_info(exposures, new_planned_era);
        proof {
            assert forall|k: u64| #[trigger] spec_trigger_clears(old(self), k) implies {
                &&& !self.eras_stakers.spec_contains_key(k)
                &&& !self.eras_stakers_clipped.spec_contains_key(k)
                &&& !self.eras_validator_prefs.spec_contains_key(k)
                &&& !self.eras_validator_reward.spec_contains_key(k)
                &&& !self.eras_reward_points.spec_contains_key(k)
                &&& !self.eras_total_stake.spec_contains_key(k)
                &&& !self.eras_start_session_index.spec_contains_key(k)
            } by {
                assert(k != new_planned_era as u64);
                assert(!pre_store.eras_stakers.spec_contains_key(k));
                assert(!pre_store.eras_stakers_clipped.spec_contains_key(k));
                assert(!pre_store.eras_validator_prefs.spec_contains_key(k));
                assert(!pre_store.eras_validator_reward.spec_contains_key(k));
                assert(!pre_store.eras_reward_points.spec_contains_key(k));
                assert(!pre_store.eras_total_stake.spec_contains_key(k));
                assert(!pre_store.eras_start_session_index.spec_contains_key(k));
                assert(self.eras_stakers.spec_get(k) == pre_store.eras_stakers.spec_get(k));
                assert(self.eras_stakers_clipped.spec_get(k)
                    == pre_store.eras_stakers_clipped.spec_get(k));
                assert(self.eras_validator_prefs.spec_get(k)
                    == pre_store.eras_validator_prefs.spec_get(k));
                assert(self.eras_total_stake.spec_get(k) == pre_store.eras_total_stake.spec_get(
                    k,
                ));
                assert(self.eras_validator_reward == pre_store.eras_validator_reward);
                assert(self.eras_reward_points == pre_store.eras_reward_points);
                assert(self.eras_start_session_index == pre_store.eras_start_session_index);
            }
        }
        elected
    }

    /// Potentially plan a new era, consuming the external solver's output.
    ///
    /// `election_result` is what the election provider returned: nothing on
    /// solver failure. An election with fewer winners than the configured
    /// minimum is treated as failed, except before the first era, where an
    /// empty result is tolerated and era zero is still recorded so the
    /// session layer can fall back to its own default validator set.
    ///
    /// In case a new era is planned, the new validator set is returned; a
    /// failed attempt leaves the planned era counter alone.
    pub fn try_trigger_new_era(
        &mut self,
        start_session_index: SessionIndex,
        election_result: Option<Vec<(AccountId, Support)>>,
    ) -> (r: Option<Vec<AccountId>>)
        requires
            old(self).wf(),
            (match old(self).current_era {
                Some(e) => e < u32::MAX,
                None => true,
            }),
            (match election_result {
                Some(supports) => forall|i: int, j: int|
                    0 <= i < j < supports@.len() ==> (#[trigger] supports@[i]).0 != (
                    #[trigger] supports@[j]).0,
                None => true,
            }),
        ensures
            final(self).wf(),
            r is Some <==> spec_election_sufficient(old(self), election_result),
            r is None ==> (match old(self).current_era {
                Some(_) => (*final(self)) == (*old(self)),
                None => (match election_result {
                    None => (*final(self)) == (*old(self)),
                    Some(_) => {
                        // a genesis election without enough winners is
                        // tolerated: era zero is still recorded so the
                        // session layer can fall back to its default set
                        &&& final(self).current_era == Some(0u32)
                        &&& final(self).eras_start_session_index.spec_get(0u64) == Some(
                            start_session_index,
                        )
                        &&& forall|k: u64|
                            k != 0u64 ==> #[trigger] final(self).eras_start_session_index.spec_get(
                                k,
                            ) == old(self).eras_start_session_index.spec_get(k)
                        &&& (*final(self)) == (Staking {
                            current_era: final(self).current_era,
                            eras_start_session_index: final(self).eras_start_session_index,
                            ..*old(self)
                        })
                    },
                }),
            }),
            r is None ==> old(self).current_era is Some ==> final(self).current_era == old(
                self,
            ).current_era,
            (match r {
                Some(elected) => {
                    &&& final(self).current_era == Some(
                        spec_bumped_era(old(self).current_era) as EraIndex,
                    )
                    &&& (match election_result {
                        Some(supports) => elected@ == supports@.map_values(
                            |e: (AccountId, Support)| e.0,
                        ),
                        None => false,
                    })
                    &&& final(self).eras_start_session_index.spec_get(
                        spec_bumped_era(old(self).current_era) as u64,
                    ) == Some(start_session_index)
                    &&& (match (
                        election_result,
                        final(self).eras_stakers.spec_get(
                            spec_bumped_era(old(self).current_era) as u64,
                        ),
                    ) {
                        (Some(supports), Some(inner)) => {
                            &&& inner@.len() == supports@.len()
                            &&& forall|i: int|
                                0 <= i < inner@.len() ==> {
                                    let folded = crate::consumer::spec_collect_support(
                                        supports@[i].0,
                                        supports@[i].1.voters@,
                                    );
                                    &&& (#[trigger] inner@[i]).0 == supports@[i].0
                                    &&& inner@[i].1.own as int == folded.0
                                    &&& inner@[i].1.others@ == folded.1
                                    &&& inner@[i].1.total as int == folded.2
                                }
                        },
                        _ => false,
                    })
                },
                None => true,
            }),
            final(self).current_planned_session == old(self).current_planned_session,
            final(self).force_era == old(self).force_era,
            final(self).active_era == old(self).active_era,
    {
        let supports = match election_result {
            Some(s) => s,
            None => {
                // the solver failed; the next session retries
                return None;
            },
        };
        let exposures = self.collect_exposures(&supports);
        let min_count: u32 = if self.config.minimum_validator_count < 1 {
            1
        } else {
            self.config.minimum_validator_count
        };
        if (exposures.len() as u64) < (min_count as u64) {
            // Session layers panic on an empty validator set, hence the floor
            // of one above.
            match self.current_era {
                Some(_) => {},
                None => {
                    // The initial era is allowed to have no exposures.
                    self.current_era = Some(0);
                    self.eras_start_session_index.insert(0u64, start_session_index);
                },
            }
            return None;
        }
        proof {
            assert(exposures@.map_values(|e: (AccountId, Exposure)| e.0) =~= supports@.map_values(
                |e: (AccountId, Support)| e.0,
            ));
            assert forall|i: int, j: int|
                0 <= i < j < exposures@.len() implies (#[trigger] exposures@[i]).0 != (
            #[trigger] exposures@[j]).0 by {
                assert(exposures@[i].0 == supports@[i].0);
                assert(exposures@[j].0 == supports@[j].0);
            }
        }
        let elected = self.trigger_new_era(start_session_index, &exposures);
        proof {
            assert(elected@ =~= supports@.map_values(|e: (AccountId, Support)| e.0));
        }
        Some(elected)
    }

    /// Plan a new session, potentially triggering a new era: record the
    /// planned session, consult the forcing mode, and attempt a trigger when
    /// it calls for one. A successful forced trigger resets `ForceNew` to
    /// `NotForcing`.
    pub fn new_session(
        &mut self,
        session_index: SessionIndex,
        election_result: Option<Vec<(AccountId, Support)>>,
    ) -> (r: Option<Vec<AccountId>>)
        requires
            old(self).wf(),
            (match old(self).current_era {
                Some(e) => e < u32::MAX,
                None => true,
            }),
            (match election_result {
                Some(supports) => forall|i: int, j: int|
                    0 <= i < j < supports@.len() ==> (#[trigger] supports@[i]).0 != (
                    #[trigger] supports@[j]).0,
                None => true,
            }),
        ensures
            final(self).wf(),
            final(self).current_planned_session == session_index,
            !spec_should_attempt_trigger(old(self), session_index) ==> {
                &&& r is None
                &&& (*final(self)) == (Staking {
                    current_planned_session: session_index,
                    ..*old(self)
                })
            },
            r is Some <==> (spec_should_attempt_trigger(old(self), session_index)
                && spec_election_sufficient(old(self), election_result)),
            r is None ==> old(self).current_era is Some ==> final(self).current_era == old(
                self,
            ).current_era,
            (spec_should_attempt_trigger(old(self), session_index) && r is None) ==> (match old(
                self,
            ).current_era {
                Some(_) => (*final(self)) == (Staking {
                    current_planned_session: session_index,
                    ..*old(self)
                }),
                None => (match election_result {
                    None => (*final(self)) == (Staking {
                        current_planned_session: session_index,
                        ..*old(self)
                    }),
                    Some(_) => {
                        &&& final(self).current_era == Some(0u32)
                        &&& final(self).eras_start_session_index.spec_get(0u64) == Some(
                            session_index,
                        )
                        &&& (*final(self)) == (Staking {
                            current_planned_session: session_index,
                            current_era: final(self).current_era,
                            eras_start_session_index: final(self).eras_start_session_index,
                            ..*old(self)
                        })
                    },
                }),
            }),
            (match r {
                Some(_) => {
                    &&& final(self).current_era == Some(
                        spec_bumped_era(old(self).current_era) as EraIndex,
                    )
                    &&& (old(self).force_era == Forcing::ForceNew ==> final(self).force_era
                        == Forcing::NotForcing)
                    &&& (old(self).force_era != Forcing::ForceNew ==> final(self).force_era == old(
                        self,
                    ).force_era)
                },
                None => true,
            }),
    {
        self.current_planned_session = session_index;
        let attempt = match self.current_era {
            Some(current_era) => {
                let start = match self.eras_start_session_index.get(current_era as u64) {
                    Some(x) => *x,
                    None => 0,
                };
                let era_length: u32 = if session_index >= start {
                    session_index - start
                } else {
                    0
                };
                match self.force_era {
                    Forcing::ForceNew => true,
                    Forcing::ForceAlways => true,
                    Forcing::NotForcing => era_length >= self.config.sessions_per_era,
                    Forcing::ForceNone => false,
                }
            },
            None => true,
        };
        if !attempt {
            return None;
        }
        let was_force_new = match self.force_era {
            Forcing::ForceNew => true,
            _ => false,
        };
        let maybe_new_era_validators = self.try_trigger_new_era(session_index, election_result);
        if maybe_new_era_validators.is_some() && was_force_new {
            self.force_era = Forcing::NotForcing;
        }
        maybe_new_era_validators
    }

    /// Plan the very first session. Identical to [`Self::new_session`]: the
    /// genesis election provider's output is what arrives as the result.
    pub fn new_session_genesis(
        &mut self,
        session_index: SessionIndex,
        election_result: Option<Vec<(AccountId, Support)>>,
    ) -> (r: Option<Vec<AccountId>>)
        requires
            old(self).wf(),
            (match old(self).current_era {
                Some(e) => e < u32::MAX,
                None => true,
            }),
            (match election_result {
                Some(supports) => forall|i: int, j: int|
                    0 <= i < j < supports@.len() ==> (#[trigger] supports@[i]).0 != (
                    #[trigger] supports@[j]).0,
                None => true,
            }),
        ensures
            final(self).wf(),
            final(self).current_planned_session == session_index,
            r is Some <==> (spec_should_attempt_trigger(old(self), session_index)
                && spec_election_sufficient(old(self), election_result)),
            r is None ==> old(self).current_era is Some ==> final(self).current_era == old(
                self,
            ).current_era,
            (match r {
                Some(_) => final(self).current_era == Some(
                    spec_bumped_era(old(self).current_era) as EraIndex,
                ),
                None => true,
            }),
    {
        self.new_session(session_index, election_result)
    }

    /// Start an era: bump the active era (its start timestamp is recorded at
    /// the next session boundary), extend the bonded-eras window and prune
    /// entries older than the bonding duration, inform the session layer of
    /// the oldest session still needed, and apply every slash whose defer
    /// window has elapsed.
    pub fn start_era(&mut self, start_session: SessionIndex)
        requires
            old(self).wf(),
            (match old(self).active_era {
                Some(info) => info.index < u32::MAX,
                None => true,
            }),
        ensures
            final(self).wf(),
            (match final(self).active_era {
                Some(info) => {
                    &&& info.index as int == (match old(self).active_era {
                        Some(o) => o.index + 1,
                        None => 0,
                    })
                    &&& info.start is None
                },
                None => false,
            }),
            spec_applies_pending(
                *old(self),
                *final(self),
                (match old(self).active_era {
                    Some(o) => (o.index + 1) as EraIndex,
                    None => 0,
                }),
            ),
            final(self).bonded_eras@.len() > 0,
            final(self).bonded_eras@.last() == (
                (match old(self).active_era {
                    Some(o) => (o.index + 1) as EraIndex,
                    None => 0,
                }),
                start_session,
            ),
            final(self).bonded_eras@ == ({
                let new_index: EraIndex = (match old(self).active_era {
                    Some(o) => (o.index + 1) as EraIndex,
                    None => 0,
                });
                let pushed = old(self).bonded_eras@.push((new_index, start_session));
                if new_index > old(self).config.bonding_duration {
                    spec_pruned_window(
                        pushed,
                        (new_index - old(self).config.bonding_duration) as EraIndex,
                    )
                } else {
                    pushed
                }
            }),
            ({
                let new_index: EraIndex = (match old(self).active_era {
                    Some(o) => (o.index + 1) as EraIndex,
                    None => 0,
                });
                if new_index > old(self).config.bonding_duration {
                    final(self).historical_pruned_up_to == Some(final(self).bonded_eras@[0].1)
                } else {
                    final(self).historical_pruned_up_to == old(self).historical_pruned_up_to
                }
            }),
            (*final(self)) == (Staking {
                active_era: final(self).active_era,
                bonded_eras: final(self).bonded_eras,
                historical_pruned_up_to: final(self).historical_pruned_up_to,
                ledgers: final(self).ledgers,
                balances: final(self).balances,
                total_issuance: final(self).total_issuance,
                unapplied_slashes: final(self).unapplied_slashes,
                earliest_unapplied_slash: final(self).earliest_unapplied_slash,
                ..*old(self)
            }),
    {
        let new_index: EraIndex = match self.active_era {
            Some(info) => info.index + 1,
            None => 0,
        };
        self.active_era = Some(ActiveEraInfo { index: new_index, start: None });
        self.bonded_eras.push((new_index, start_session));
        let bonding_duration = self.config.bonding_duration;
        if new_index > bonding_duration {
            let first_kept = new_index - bonding_duration;
            let ghost pre_prune = *self;
            let ghost pushed = self.bonded_eras@;
            // Prune out everything that's from before the first-kept index.
            while self.bonded_eras.len() > 0 && self.bonded_eras[0].0 < first_kept
                invariant
                    self.wf(),
                    (*self) == (Staking { bonded_eras: self.bonded_eras, ..pre_prune }),
                    first_kept <= new_index,
                    self.bonded_eras@.len() > 0,
                    self.bonded_eras@.last() == (new_index, start_session),
                    spec_pruned_window(self.bonded_eras@, first_kept) == spec_pruned_window(
                        pushed,
                        first_kept,
                    ),
                decreases self.bonded_eras@.len(),
            {
                proof {
                    assert(self.bonded_eras@[0].0 < first_kept);
                    assert(self.bonded_eras@.last().0 == new_index);
                    assert(self.bonded_eras@.len() >= 2);
                }
                let ghost before = self.bonded_eras@;
                let _ = self.bonded_eras.remove(0);
                proof {
                    assert(self.bonded_eras@.last() == before.last());
                    assert(self.bonded_eras@ =~= before.drop_first());
                }
            }
            proof {
                // the walk stopped at the first entry inside the window, so
                // what remains is exactly the pruned window
                assert(self.bonded_eras@[0].0 >= first_kept);
                assert(spec_pruned_window(self.bonded_eras@, first_kept) == self.bonded_eras@);
            }
            if self.bonded_eras.len() > 0 {
                let first_session = self.bonded_eras[0].1;
                self.historical_pruned_up_to = Some(first_session);
            }
        }
        self.apply_unapplied_slashes(new_index);
    }

    /// Start a session, potentially starting an era: when the next era is
    /// recorded to begin at this session (or, abnormally, at an earlier one
    /// that was skipped), it is started. The active era's start timestamp is
    /// recorded once, when a time source provides one. Returns the offending
    /// validators flagged for disabling, for the session layer.
    pub fn start_session(&mut self, start_session: SessionIndex, now_millis: Option<u64>) -> (r:
        Vec<AccountId>)
        requires
            old(self).wf(),
            (match old(self).active_era {
                Some(info) => info.index < u32::MAX,
                None => true,
            }),
        ensures
            final(self).wf(),
            spec_era_should_start(old(self), start_session) ==> (match final(self).active_era {
                Some(info) => info.index as int == (match old(self).active_era {
                    Some(o) => o.index + 1,
                    None => 0,
                }),
                None => false,
            }),
            !spec_era_should_start(old(self), start_session) ==> (match (
                final(self).active_era,
                old(self).active_era,
            ) {
                (Some(n), Some(o)) => n.index == o.index,
                (None, None) => true,
                _ => false,
            }),
            (match final(self).active_era {
                Some(info) => info.start == (if spec_era_should_start(old(self), start_session) {
                    now_millis
                } else {
                    (match old(self).active_era {
                        Some(o) => (match o.start {
                            Some(x) => Some(x),
                            None => now_millis,
                        }),
                        None => now_millis,
                    })
                }),
                None => true,
            }),
            r@ == old(self).offending_validators@.filter(|p: (AccountId, bool)| p.1).map_values(
                |p: (AccountId, bool)| p.0,
            ),
    {
        let next_active_era: u64 = match self.active_era {
            Some(info) => info.index as u64 + 1,
            None => 0,
        };
        let should_start = match self.eras_start_session_index.get(next_active_era) {
            Some(x) => *x <= start_session,
            None => false,
        };
        if should_start {
            // a recorded start before the current session means sessions
            // were skipped; starting anyway must not stall the chain
            self.start_era(start_session);
        }
        match self.active_era {
            Some(info) => {
                if info.start.is_none() {
                    match now_millis {
                        Some(now) => {
                            self.active_era = Some(ActiveEraInfo { index: info.index, start: Some(now) });
                        },
                        None => {},
                    }
                }
            },
            None => {},
        }
        // disable all offending validators that have been flagged
        let ghost pred = |p: (AccountId, bool)| p.1;
        proof {
            assert(self.offending_validators@ == old(self).offending_validators@);
        }
        let ghost frozen = *self;
        let mut disabled: Vec<AccountId> = Vec::new();
        let n = self.offending_validators.len();
        let mut i: usize = 0;
        while i < n
            invariant
                self.wf(),
                (*self) == frozen,
                n == self.offending_validators@.len(),
                i <= n,
                self.offending_validators@ == old(self).offending_validators@,
                pred == (|p: (AccountId, bool)| p.1),
                disabled@ == old(self).offending_validators@.take(i as int).filter(pred)
                    .map_values(|p: (AccountId, bool)| p.0),
            decreases n - i,
        {
            let entry = self.offending_validators[i];
            proof {
                reveal(Seq::filter);
                let before = self.offending_validators@.take(i as int);
                let after = self.offending_validators@.take(i as int + 1);
                assert(after.drop_last() =~= before);
                assert(after.last() == self.offending_validators@[i as int]);
                if pred(self.offending_validators@[i as int]) {
                    assert(after.filter(pred) == before.filter(pred).push(
                        self.offending_validators@[i as int],
                    ));
                    assert(after.filter(pred).map_values(|p: (AccountId, bool)| p.0)
                        =~= before.filter(pred).map_values(|p: (AccountId, bool)| p.0).push(
                        self.offending_validators@[i as int].0,
                    ));
                } else {
                    assert(after.filter(pred) == before.filter(pred));
                }
            }
            if entry.1 {
                disabled.push(entry.0);
            }
            i = i + 1;
        }
        proof {
            assert(self.offending_validators@.take(n as int) =~= self.offending_validators@);
        }
        disabled
    }

    /// What the external payout policy needs to price the era that ends with
    /// `session_index`: the era, its total stake, the issuance, and the
    /// elapsed wall-clock duration. Nothing when no era ends here or its
    /// start was never recorded.
    pub fn pending_era_payout_inputs(&self, session_index: SessionIndex, now_millis: u64) -> (r:
        Option<(EraIndex, Balance, Balance, u64)>)
        requires
            self.wf(),
        ensures
            (match r {
                Some(q) => {
                    &&& spec_era_should_end(self, session_index)
                    &&& (match self.active_era {
                        Some(info) => {
                            &&& q.0 == info.index
                            &&& (match info.start {
                                Some(start) => q.3 as int == if now_millis >= start {
                                    now_millis - start
                                } else {
                                    0
                                },
                                None => false,
                            })
                        },
                        None => false,
                    })
                    &&& q.1 == (match self.eras_total_stake.spec_get(
                        (match self.active_era {
                            Some(info) => info.index as u64,
                            None => 0,
                        }),
                    ) {
                        Some(v) => v,
                        None => 0,
                    })
                    &&& q.2 == self.total_issuance
                },
                None => !spec_era_should_end(self, session_index) || (match self.active_era {
                    Some(info) => info.start is None,
                    None => true,
                }),
            }),
    {
        let info = match self.active_era {
            Some(info) => info,
            None => {
                return None;
            },
        };
        let next_key = info.index as u64 + 1;
        let should_end = match self.eras_start_session_index.get(next_key) {
            Some(x) => session_index < u32::MAX && *x == session_index + 1,
            None => false,
        };
        if !should_end {
            return None;
        }
        let start = match info.start {
            Some(s) => s,
            None => {
                return None;
            },
        };
        let duration = if now_millis >= start {
            now_millis - start
        } else {
            0
        };
        let staked = match self.eras_total_stake.get(info.index as u64) {
            Some(v) => *v,
            None => 0,
        };
        Some((info.index, staked, self.total_issuance, duration))
    }

    /// End a session, potentially ending the active era: when the next era
    /// starts one session later and this era's start was recorded, persist
    /// the externally computed payout for the ending era, issue the
    /// remainder, and clear the per-era offending markers.
    pub fn end_session(
        &mut self,
        session_index: SessionIndex,
        era_payout: Balance,
        remainder: Balance,
    )
        requires
            old(self).wf(),
        ensures
            final(self).wf(),
            ({
                let ends = spec_era_should_end(old(self), session_index) && (match old(
                    self,
                ).active_era {
                    Some(info) => info.start is Some,
                    None => false,
                });
                if ends {
                    &&& final(self).eras_validator_reward.spec_get(
                        (match old(self).active_era {
                            Some(info) => info.index as u64,
                            None => 0,
                        }),
                    ) == Some(era_payout)
                    &&& forall|k: u64|
                        k != (match old(self).active_era {
                            Some(info) => info.index as u64,
                            None => 0,
                        }) ==> #[trigger] final(self).eras_validator_reward.spec_get(k) == old(
                            self,
                        ).eras_validator_reward.spec_get(k)
                    &&& final(self).offending_validators@.len() == 0
                    &&& final(self).total_issuance as int == vstd::math::min(
                        old(self).total_issuance as int + remainder as int,
                        u64::MAX as int,
                    )
                    &&& (*final(self)) == (Staking {
                        eras_validator_reward: final(self).eras_validator_reward,
                        offending_validators: final(self).offending_validators,
                        total_issuance: final(self).total_issuance,
                        ..*old(self)
                    })
                } else {
                    (*final(self)) == (*old(self))
                }
            }),
    {
        let info = match self.active_era {
            Some(info) => info,
            None => {
                return ;
            },
        };
        let next_key = info.index as u64 + 1;
        let should_end = match self.eras_start_session_index.get(next_key) {
            Some(x) => session_index < u32::MAX && *x == session_index + 1,
            None => false,
        };
        if !should_end {
            return ;
        }
        // the start can be unset when the era ends during genesis setup
        if info.start.is_some() {
            self.eras_validator_reward.insert(info.index as u64, era_payout);
            self.total_issuance = self.total_issuance.saturating_add(remainder);
            self.offending_validators = Vec::new();
        }
    }

    /// Ensures that at the end of the current session there will be a new
    /// era.
    pub fn ensure_new_era(&mut self)
        requires
            old(self).wf(),
        ensures
            final(self).wf(),
            final(self).force_era == (match old(self).force_era {
                Forcing::ForceAlways => Forcing::ForceAlways,
                Forcing::ForceNew => Forcing::ForceNew,
                _ => Forcing::ForceNew,
            }),
            (*final(self)) == (Staking { force_era: final(self).force_era, ..*old(self) }),
    {
        match self.force_era {
            Forcing::ForceAlways => {},
            Forcing::ForceNew => {},
            _ => {
                self.force_era = Forcing::ForceNew;
            },
        }
    }

    /// A best-effort prediction of the block at which the next election
    /// happens, from the session layer's estimate of the current session's
    /// end and its average session length.
    pub fn next_election_prediction(
        &self,
        now: u64,
        next_session_estimate: Option<u64>,
        session_length: u64,
    ) -> (r: u64)
        requires
            self.wf(),
        ensures
            r as int == ({
                let current_era = match self.current_era {
                    Some(e) => e,
                    None => 0,
                };
                let start = match self.eras_start_session_index.spec_get(current_era as u64) {
                    Some(x) => x,
                    None => 0,
                };
                let progress_raw: int = if self.current_planned_session >= start {
                    self.current_planned_session - start
                } else {
                    0
                };
                let era_progress = vstd::math::min(
                    progress_raw,
                    self.config.sessions_per_era as int,
                );
                let until: int = (match next_session_estimate {
                    Some(est) => if est >= now {
                        est - now
                    } else {
                        0
                    },
                    None => if now > 0 {
                        0
                    } else {
                        0
                    },
                });
                let sessions_left: int = (match self.force_era {
                    Forcing::ForceNone => u64::MAX as int,
                    Forcing::ForceNew => 0,
                    Forcing::ForceAlways => 0,
                    Forcing::NotForcing => if era_progress >= self.config.sessions_per_era as int {
                        0
                    } else {
                        self.config.sessions_per_era - era_progress - 1
                    },
                });
                vstd::math::min(
                    now + vstd::math::min(
                        until + vstd::math::min(
                            sessions_left * session_length,
                            u64::MAX as int,
                        ),
                        u64::MAX as int,
                    ),
                    u64::MAX as int,
                )
            }),
    {
        let current_era: EraIndex = match self.current_era {
            Some(e) => e,
            None => 0,
        };
        let current_session = self.current_planned_session;
        let start: SessionIndex = match self.eras_start_session_index.get(current_era as u64) {
            Some(x) => *x,
            None => 0,
        };
        let progress_raw: u32 = if current_session >= start {
            current_session - start
        } else {
            0
        };
        let era_progress: u32 = if progress_raw < self.config.sessions_per_era {
            progress_raw
        } else {
            self.config.sessions_per_era
        };
        let until_this_session_end: u64 = match next_session_estimate {
            Some(est) => if est >= now {
                est - now
            } else {
                0
            },
            None => 0,
        };
        let sessions_left: u64 = match self.force_era {
            Forcing::ForceNone => u64::MAX,
            Forcing::ForceNew => 0,
            Forcing::ForceAlways => 0,
            Forcing::NotForcing => {
                if era_progress >= self.config.sessions_per_era {
                    0
                } else {
                    ((self.config.sessions_per_era - era_progress) as u64) - 1
                }
            },
        };
        let scaled: u64 = match sessions_left.checked_mul(session_length) {
            Some(v) => v,
            None => u64::MAX,
        };
        now.saturating_add(until_this_session_end.saturating_add(scaled))
    }
}


/// The full (slashing-facing) exposure of a validator in an era, if stored.
pub open spec fn spec_full_exposure_of(s: &Staking, era: EraIndex, v: AccountId) -> Option<
    Exposure,
> {
    match s.eras_stakers.spec_get(era as u64) {
        Some(inner) => inner.spec_get(v),
        None => None,
    }
}

impl Staking {
    /// Plan a new session for the historical session layer: like
    /// [`Self::new_session`], but each elected validator comes paired with
    /// its full exposure of the new era (an empty one where none is stored).
    pub fn new_session_historical(
        &mut self,
        session_index: SessionIndex,
        election_result: Option<Vec<(AccountId, Support)>>,
    ) -> (r: Option<Vec<(AccountId, Exposure)>>)
        requires
            old(self).wf(),
            (match old(self).current_era {
                Some(e) => e < u32::MAX,
                None => true,
            }),
            (match election_result {
                Some(supports) => forall|i: int, j: int|
                    0 <= i < j < supports@.len() ==> (#[trigger] supports@[i]).0 != (
                    #[trigger] supports@[j]).0,
                None => true,
            }),
        ensures
            final(self).wf(),
            final(self).current_planned_session == session_index,
            r is Some <==> (spec_should_attempt_trigger(old(self), session_index)
                && spec_election_sufficient(old(self), election_result)),
            (match r {
                Some(pairs) => forall|i: int|
                    0 <= i < pairs@.len() ==> {
                        let looked_up = spec_full_exposure_of(
                            final(self),
                            (match final(self).current_era {
                                Some(c) => c,
                                None => 0,
                            }),
                            (#[trigger] pairs@[i]).0,
                        );
                        match looked_up {
                            Some(e) => {
                                &&& pairs@[i].1.own == e.own
                                &&& pairs@[i].1.total == e.total
                                &&& pairs@[i].1.others@ == e.others@
                            },
                            None => {
                                &&& pairs@[i].1.own == 0
                                &&& pairs@[i].1.total == 0
                                &&& pairs@[i].1.others@.len() == 0
                            },
                        }
                    },
                None => true,
            }),
    {
        let maybe = self.new_session(session_index, election_result);
        let validators = match maybe {
            Some(v) => v,
            None => {
                return None;
            },
        };
        let current_era: EraIndex = match self.current_era {
            Some(c) => c,
            None => 0,
        };
        let n = validators.len();
        let mut pairs: Vec<(AccountId, Exposure)> = Vec::with_capacity(n);
        let mut i: usize = 0;
        while i < n
            invariant
                self.wf(),
                n == validators@.len(),
                i <= n,
                current_era == (match self.current_era {
                    Some(c) => c,
                    None => 0u32,
                }),
                pairs@.len() == i,
                forall|m: int|
                    0 <= m < i ==> {
                        let looked_up = spec_full_exposure_of(
                            self,
                            current_era,
                            (#[trigger] pairs@[m]).0,
                        );
                        match looked_up {
                            Some(e) => {
                                &&& pairs@[m].1.own == e.own
                                &&& pairs@[m].1.total == e.total
                                &&& pairs@[m].1.others@ == e.others@
                            },
                            None => {
                                &&& pairs@[m].1.own == 0
                                &&& pairs@[m].1.total == 0
                                &&& pairs@[m].1.others@.len() == 0
                            },
                        }
                    },
            decreases n - i,
        {
            let v = validators[i];
            let exposure: Exposure = match self.eras_stakers.get(current_era as u64) {
                Some(inner) => {
                    proof {
                        let idx = self.eras_stakers.key_index(current_era as u64);
                        assert(self.eras_stakers@[idx].1.wf());
                    }
                    match inner.get(v) {
                        Some(e) => Exposure {
                            total: e.total,
                            own: e.own,
                            others: crate::consumer::copy_exposure_list(&e.others),
                        },
                        None => Exposure::empty(),
                    }
                },
                None => Exposure::empty(),
            };
            pairs.push((v, exposure));
            i = i + 1;
        }
        Some(pairs)
    }
}

} // verus!
