//! The election result consumer: turns the solver's winner/support output
//! into per-era exposure records and persists the staking facts of the new
//! era.
//!
//! Each winner gets two records: the full exposure, which slashing reads,
//! and a reward-facing copy whose nominator list is clipped to the top-N
//! highest-value entries. The asymmetry is intentional: clipping both copies
//! would silently under-slash.

use vstd::prelude::*;
use crate::{AccountId, EraIndex};
use crate::alist::AList;
use crate::fraction::{lemma_sum_values_nonneg, lemma_sum_values_remove, sum_values};
use crate::state::Staking;
use crate::types::{exposure_values, Exposure, IndividualExposure, Support, ValidatorPrefs};

verus! {

/// The stake-unit value of a solver weight: the saturating conversion into
/// the balance type.
pub open spec fn spec_to_currency(w: u128) -> u64 {
    if w > u64::MAX {
        u64::MAX
    } else {
        w as u64
    }
}

/// Convert a solver weight into stake units, saturating.
pub fn to_currency(w: u128) -> (r: u64)
    ensures
        r == spec_to_currency(w),
{
    if w > u64::MAX as u128 {
        u64::MAX
    } else {
        w as u64
    }
}

/// One step of folding a support's voters into an exposure: the own stake,
/// the nominator parts and the total so far. A contribution that would push
/// the total over the balance type is dropped, so the record stays balanced.
pub open spec fn spec_collect_step(
    validator: AccountId,
    acc: (int, Seq<IndividualExposure>, int),
    v: (AccountId, u128),
) -> (int, Seq<IndividualExposure>, int) {
    let stake = spec_to_currency(v.1) as int;
    if acc.2 + stake > u64::MAX {
        acc
    } else if v.0 == validator {
        (acc.0 + stake, acc.1, acc.2 + stake)
    } else {
        (acc.0, acc.1.push(IndividualExposure { who: v.0, value: spec_to_currency(v.1) }), acc.2
            + stake)
    }
}

/// The exposure drawn from one support: own stake, nominator parts and
/// total, folded over the voters in order.
pub open spec fn spec_collect_support(validator: AccountId, voters: Seq<(AccountId, u128)>) -> (
    int,
    Seq<IndividualExposure>,
    int,
)
    decreases voters.len(),
{
    if voters.len() == 0 {
        (0, Seq::empty(), 0)
    } else {
        spec_collect_step(
            validator,
            spec_collect_support(validator, voters.drop_last()),
            voters.last(),
        )
    }
}

/// The folded exposure is balanced and fits the balance type.
pub proof fn lemma_collect_support_balanced(validator: AccountId, voters: Seq<(AccountId, u128)>)
    ensures
        ({
            let folded = spec_collect_support(validator, voters);
            &&& 0 <= folded.0
            &&& folded.0 + sum_values(exposure_values(folded.1)) == folded.2
            &&& folded.2 <= u64::MAX
        }),
    decreases voters.len(),
{
    if voters.len() == 0 {
        assert(exposure_values(Seq::<IndividualExposure>::empty())
            =~= Seq::<u64>::empty());
    } else {
        lemma_collect_support_balanced(validator, voters.drop_last());
        let prev = spec_collect_support(validator, voters.drop_last());
        let stake = spec_to_currency(voters.last().1) as int;
        if prev.2 + stake <= u64::MAX && voters.last().0 != validator {
            let e = IndividualExposure {
                who: voters.last().0,
                value: spec_to_currency(voters.last().1),
            };
            assert(exposure_values(prev.1.push(e)) =~= exposure_values(prev.1).push(e.value));
            assert(exposure_values(prev.1.push(e)).drop_last() =~= exposure_values(prev.1));
        }
    }
}

/// The relation between a full exposure and its reward-facing copy: the own
/// stake and the total are kept; the nominator list is kept whole when it
/// fits, else replaced by `max` of its entries, in descending value order
/// and worth no more in sum.
pub open spec fn spec_clipped_of(full: Exposure, clipped: Exposure, max: int) -> bool {
    &&& clipped.own == full.own
    &&& clipped.total == full.total
    &&& if full.others@.len() <= max {
        clipped.others@ == full.others@
    } else {
        &&& clipped.others@.len() == max
        &&& (forall|i: int, j: int|
            0 <= i < j < clipped.others@.len() ==> (#[trigger] clipped.others@[i]).value >= (
            #[trigger] clipped.others@[j]).value)
        &&& (forall|e: IndividualExposure|
            clipped.others@.to_multiset().count(e) <= full.others@.to_multiset().count(e))
        &&& (forall|e: IndividualExposure, i: int|
            (#[trigger] full.others@.to_multiset().count(e))
                > clipped.others@.to_multiset().count(e) && 0 <= i < clipped.others@.len()
                ==> e.value <= (#[trigger] clipped.others@[i]).value)
        &&& clipped.others_sum() <= full.others_sum()
    }
}

/// The total stake of a set of exposures.
pub open spec fn spec_stake_sum(s: Seq<(AccountId, Exposure)>) -> int
    decreases s.len(),
{
    if s.len() == 0 {
        0
    } else {
        spec_stake_sum(s.drop_last()) + s.last().1.total
    }
}

/// The preferences a winner is recorded with: its registered preferences, or
/// the default when it is no longer registered.
pub open spec fn spec_prefs_of(s: &Staking, stash: AccountId) -> ValidatorPrefs {
    match s.validators.spec_get(stash) {
        Some(p) => p,
        None => ValidatorPrefs {
            commission: crate::fraction::Perbill::spec_zero(),
            blocked: false,
        },
    }
}

/// A copy of a list of individual exposures.
pub(crate) fn copy_exposure_list(v: &Vec<IndividualExposure>) -> (r: Vec<IndividualExposure>)
    ensures
        r@ == v@,
{
    let mut out: Vec<IndividualExposure> = Vec::with_capacity(v.len());
    let n = v.len();
    let mut i: usize = 0;
    while i < n
        invariant
            n == v@.len(),
            i <= n,
            out@ == v@.take(i as int),
        decreases n - i,
    {
        out.push(v[i]);
        proof {
            assert(v@.take(i as int + 1) =~= v@.take(i as int).push(v@[i as int]));
        }
        i = i + 1;
    }
    proof {
        assert(v@.take(n as int) =~= v@);
    }
    out
}

/// The position of a largest value in a non-empty list.
fn index_of_max_value(v: &Vec<IndividualExposure>) -> (r: usize)
    requires
        v@.len() > 0,
    ensures
        r < v@.len(),
        forall|i: int| 0 <= i < v@.len() ==> (#[trigger] v@[i]).value <= v@[r as int].value,
{
    let mut best: usize = 0;
    let n = v.len();
    let mut i: usize = 1;
    while i < n
        invariant
            n == v@.len(),
            best < i <= n,
            forall|m: int| 0 <= m < i ==> (#[trigger] v@[m]).value <= v@[best as int].value,
        decreases n - i,
    {
        if v[i].value > v[best].value {
            best = i;
        }
        i = i + 1;
    }
    best
}

/// The `n` highest-value entries of `v`, in descending value order.
fn top_n_by_value(v: Vec<IndividualExposure>, n: usize) -> (r: Vec<IndividualExposure>)
    requires
        n <= v@.len(),
    ensures
        r@.len() == n,
        forall|i: int, j: int|
            0 <= i < j < r@.len() ==> (#[trigger] r@[i]).value >= (#[trigger] r@[j]).value,
        forall|e: IndividualExposure|
            r@.to_multiset().count(e) <= v@.to_multiset().count(e),
        forall|e: IndividualExposure, i: int|
            (#[trigger] v@.to_multiset().count(e)) > r@.to_multiset().count(e) && 0 <= i < r@.len()
                ==> e.value <= (#[trigger] r@[i]).value,
        sum_values(exposure_values(r@)) <= sum_values(exposure_values(v@)),
{
    let ghost orig = v@;
    let mut work = v;
    let mut out: Vec<IndividualExposure> = Vec::with_capacity(n);
    proof {
        broadcast use vstd::seq_lib::group_to_multiset_ensures;

        assert(out@.to_multiset().add(work@.to_multiset()) =~= orig.to_multiset());
        assert(exposure_values(out@) =~= Seq::<u64>::empty());
    }
    while out.len() < n
        invariant
            out@.len() + work@.len() == orig.len(),
            out@.len() <= n <= orig.len(),
            out@.to_multiset().add(work@.to_multiset()) == orig.to_multiset(),
            sum_values(exposure_values(out@)) + sum_values(exposure_values(work@)) == sum_values(
                exposure_values(orig),
            ),
            forall|i: int, j: int|
                0 <= i < j < out@.len() ==> (#[trigger] out@[i]).value >= (
                #[trigger] out@[j]).value,
            forall|a: int, b: int|
                0 <= a < out@.len() && 0 <= b < work@.len() ==> (#[trigger] out@[a]).value >= (
                #[trigger] work@[b]).value,
        decreases n - out.len(),
    {
        let j = index_of_max_value(&work);
        let ghost work_before = work@;
        let ghost out_before = out@;
        let e = work.remove(j);
        out.push(e);
        proof {
            broadcast use vstd::seq_lib::group_to_multiset_ensures;

            assert(work@ =~= work_before.remove(j as int));
            assert(out@ =~= out_before.push(e));
            assert(out@.to_multiset() =~= out_before.to_multiset().insert(e));
            assert(work@.to_multiset() =~= work_before.to_multiset().remove(e));
            assert(work_before.to_multiset().count(e) > 0) by {
                assert(work_before.contains(e));
            }
            assert(out@.to_multiset().add(work@.to_multiset()) =~= orig.to_multiset());
            assert(exposure_values(work@) =~= exposure_values(work_before).remove(j as int));
            lemma_sum_values_remove(exposure_values(work_before), j as int);
            assert(exposure_values(out@) =~= exposure_values(out_before).push(e.value));
            assert(exposure_values(out@).drop_last() =~= exposure_values(out_before));
        }
    }
    proof {
        lemma_sum_values_nonneg(exposure_values(work@));
        assert forall|e: IndividualExposure|
            out@.to_multiset().count(e) <= orig.to_multiset().count(e) by {
            assert(orig.to_multiset().count(e) == out@.to_multiset().count(e)
                + work@.to_multiset().count(e));
        }
        // everything left behind is no larger than anything kept
        assert forall|e: IndividualExposure, i: int|
            (#[trigger] orig.to_multiset().count(e)) > out@.to_multiset().count(e) && 0 <= i
                < out@.len() implies e.value <= (#[trigger] out@[i]).value by {
            broadcast use vstd::seq_lib::group_to_multiset_ensures;

            assert(orig.to_multiset().count(e) == out@.to_multiset().count(e)
                + work@.to_multiset().count(e));
            assert(work@.to_multiset().count(e) > 0);
            assert(work@.contains(e));
            let widx = choose|w: int| 0 <= w < work@.len() && work@[w] == e;
            assert(out@[i].value >= work@[widx].value);
        }
    }
    out
}

impl Staking {
    /// Consume a set of supports from the external solver and collect them
    /// into one exposure per winner, converting solver weights into stake
    /// units.
    pub fn collect_exposures(&self, supports: &Vec<(AccountId, Support)>) -> (r: Vec<(
        AccountId,
        Exposure,
    )>)
        ensures
            r@.len() == supports@.len(),
            forall|i: int|
                0 <= i < r@.len() ==> {
                    let folded = spec_collect_support(supports@[i].0, supports@[i].1.voters@);
                    &&& (#[trigger] r@[i]).0 == supports@[i].0
                    &&& r@[i].1.own as int == folded.0
                    &&& r@[i].1.others@ == folded.1
                    &&& r@[i].1.total as int == folded.2
                    &&& r@[i].1.balanced()
                },
    {
        let n = supports.len();
        let mut out: Vec<(AccountId, Exposure)> = Vec::with_capacity(n);
        let mut i: usize = 0;
        while i < n
            invariant
                n == supports@.len(),
                i <= n,
                out@.len() == i,
                forall|m: int|
                    0 <= m < i ==> {
                        let folded = spec_collect_support(supports@[m].0, supports@[m].1.voters@);
                        &&& (#[trigger] out@[m]).0 == supports@[m].0
                        &&& out@[m].1.own as int == folded.0
                        &&& out@[m].1.others@ == folded.1
                        &&& out@[m].1.total as int == folded.2
                        &&& out@[m].1.balanced()
                    },
            decreases n - i,
        {
            let validator = supports[i].0;
            let voters = &supports[i].1.voters;
            let m = voters.len();
            let mut own: u64 = 0;
            let mut total: u64 = 0;
            let mut others: Vec<IndividualExposure> = Vec::with_capacity(m);
            let mut j: usize = 0;
            while j < m
                invariant
                    m == voters@.len(),
                    j <= m,
                    ({
                        let folded = spec_collect_support(validator, voters@.take(j as int));
                        &&& own as int == folded.0
                        &&& others@ == folded.1
                        &&& total as int == folded.2
                        &&& own <= total
                    }),
                decreases m - j,
            {
                let nominator = voters[j].0;
                let stake = to_currency(voters[j].1);
                let ghost before = (own as int, others@, total as int);
                match total.checked_add(stake) {
                    Some(new_total) => {
                        if nominator == validator {
                            own = own + stake;
                        } else {
                            others.push(IndividualExposure { who: nominator, value: stake });
                        }
                        total = new_total;
                    },
                    None => {},
                }
                proof {
                    let taken = voters@.take(j as int);
                    let taken1 = voters@.take(j as int + 1);
                    assert(taken1.drop_last() =~= taken);
                    assert(taken1.last() == voters@[j as int]);
                    lemma_collect_support_balanced(validator, taken1);
                    lemma_sum_values_nonneg(
                        exposure_values(spec_collect_support(validator, taken1).1),
                    );
                }
                j = j + 1;
            }
            proof {
                assert(voters@.take(m as int) =~= voters@);
                lemma_collect_support_balanced(validator, voters@);
            }
            out.push((validator, Exposure { total, own, others }));
            i = i + 1;
        }
        out
    }
}


impl Staking {
    /// Process the output of the election: persist the full and the
    /// reward-clipped exposures, the elected preferences and the total stake
    /// of the new planned era. Returns the elected stashes, in order.
    pub fn store_stakers_info(
        &mut self,
        exposures: &Vec<(AccountId, Exposure)>,
        new_planned_era: EraIndex,
    ) -> (r: Vec<AccountId>)
        requires
            old(self).wf(),
            forall|i: int| 0 <= i < exposures@.len() ==> (#[trigger] exposures@[i]).1.balanced(),
            forall|i: int, j: int|
                0 <= i < j < exposures@.len() ==> (#[trigger] exposures@[i]).0 != (
                #[trigger] exposures@[j]).0,
        ensures
            final(self).wf(),
            r@ == exposures@.map_values(|e: (AccountId, Exposure)| e.0),
            (match final(self).eras_stakers.spec_get(new_planned_era as u64) {
                Some(inner) => {
                    &&& inner@.len() == exposures@.len()
                    &&& forall|i: int|
                        0 <= i < inner@.len() ==> {
                            &&& (#[trigger] inner@[i]).0 == exposures@[i].0
                            &&& inner@[i].1.own == exposures@[i].1.own
                            &&& inner@[i].1.total == exposures@[i].1.total
                            &&& inner@[i].1.others@ == exposures@[i].1.others@
                        }
                },
                None => false,
            }),
            (match final(self).eras_stakers_clipped.spec_get(new_planned_era as u64) {
                Some(inner) => {
                    &&& inner@.len() == exposures@.len()
                    &&& forall|i: int|
                        0 <= i < inner@.len() ==> (#[trigger] inner@[i]).0 == exposures@[i].0
                            && spec_clipped_of(
                            exposures@[i].1,
                            inner@[i].1,
                            old(self).config.max_nominator_rewarded_per_validator as int,
                        )
                },
                None => false,
            }),
            (match final(self).eras_validator_prefs.spec_get(new_planned_era as u64) {
                Some(inner) => {
                    &&& inner@.len() == exposures@.len()
                    &&& forall|i: int|
                        0 <= i < inner@.len() ==> (#[trigger] inner@[i]).0 == exposures@[i].0
                            && inner@[i].1 == spec_prefs_of(old(self), exposures@[i].0)
                },
                None => false,
            }),
            final(self).eras_total_stake.spec_get(new_planned_era as u64) == Some(
                vstd::math::min(spec_stake_sum(exposures@), u64::MAX as int) as u64,
            ),
            forall|k: u64|
                k != new_planned_era as u64 ==> {
                    &&& final(self).eras_stakers.spec_get(k) == old(self).eras_stakers.spec_get(k)
                    &&& final(self).eras_stakers_clipped.spec_get(k) == old(
                        self,
                    ).eras_stakers_clipped.spec_get(k)
                    &&& final(self).eras_validator_prefs.spec_get(k) == old(
                        self,
                    ).eras_validator_prefs.spec_get(k)
                    &&& final(self).eras_total_stake.spec_get(k) == old(
                        self,
                    ).eras_total_stake.spec_get(k)
                },
            (*final(self)) == (Staking {
                eras_stakers: final(self).eras_stakers,
                eras_stakers_clipped: final(self).eras_stakers_clipped,
                eras_validator_prefs: final(self).eras_validator_prefs,
                eras_total_stake: final(self).eras_total_stake,
                ..*old(self)
            }),
    {
        let n = exposures.len();
        let max_len = self.config.max_nominator_rewarded_per_validator as usize;
        let mut elected: Vec<AccountId> = Vec::with_capacity(n);
        let mut stakers_inner: AList<Exposure> = AList::new();
        let mut clipped_inner: AList<Exposure> = AList::new();
        let mut prefs_inner: AList<ValidatorPrefs> = AList::new();
        let mut total_stake: u64 = 0;
        let mut i: usize = 0;
        while i < n
            invariant
                self.wf(),
                (*self) == (*old(self)),
                n == exposures@.len(),
                i <= n,
                max_len as int == self.config.max_nominator_rewarded_per_validator as int,
                forall|m: int| 0 <= m < n ==> (#[trigger] exposures@[m]).1.balanced(),
                forall|a: int, b: int|
                    0 <= a < b < n ==> (#[trigger] exposures@[a]).0 != (#[trigger] exposures@[b]).0,
                elected@ == exposures@.take(i as int).map_values(|e: (AccountId, Exposure)| e.0),
                stakers_inner.wf(),
                clipped_inner.wf(),
                prefs_inner.wf(),
                stakers_inner@.len() == i,
                clipped_inner@.len() == i,
                prefs_inner@.len() == i,
                forall|m: int|
                    0 <= m < i ==> {
                        &&& (#[trigger] stakers_inner@[m]).0 == exposures@[m].0
                        &&& stakers_inner@[m].1.own == exposures@[m].1.own
                        &&& stakers_inner@[m].1.total == exposures@[m].1.total
                        &&& stakers_inner@[m].1.others@ == exposures@[m].1.others@
                    },
                forall|m: int|
                    0 <= m < i ==> (#[trigger] clipped_inner@[m]).0 == exposures@[m].0
                        && spec_clipped_of(exposures@[m].1, clipped_inner@[m].1, max_len as int)
                        && clipped_inner@[m].1.sub_balanced(),
                forall|m: int|
                    0 <= m < i ==> (#[trigger] prefs_inner@[m]).0 == exposures@[m].0
                        && prefs_inner@[m].1 == spec_prefs_of(self, exposures@[m].0)
                        && prefs_inner@[m].1.wf(),
                total_stake as int == vstd::math::min(
                    spec_stake_sum(exposures@.take(i as int)),
                    u64::MAX as int,
                ),
            decreases n - i,
        {
            let stash = exposures[i].0;
            let own = exposures[i].1.own;
            let total = exposures[i].1.total;
            proof {
                assert(!stakers_inner.spec_contains_key(stash)) by {
                    if stakers_inner.spec_contains_key(stash) {
                        let m = stakers_inner.key_index(stash);
                        assert(stakers_inner@[m].0 == stash);
                    }
                }
                assert(!clipped_inner.spec_contains_key(stash)) by {
                    if clipped_inner.spec_contains_key(stash) {
                        let m = clipped_inner.key_index(stash);
                        assert(clipped_inner@[m].0 == stash);
                    }
                }
                assert(!prefs_inner.spec_contains_key(stash)) by {
                    if prefs_inner.spec_contains_key(stash) {
                        let m = prefs_inner.key_index(stash);
                        assert(prefs_inner@[m].0 == stash);
                    }
                }
            }
            let others_full = copy_exposure_list(&exposures[i].1.others);
            stakers_inner.insert(stash, Exposure { total, own, others: others_full });
            let others_for_clip = copy_exposure_list(&exposures[i].1.others);
            let clipped_others = if others_for_clip.len() > max_len {
                top_n_by_value(others_for_clip, max_len)
            } else {
                others_for_clip
            };
            let clipped = Exposure { total, own, others: clipped_others };
            proof {
                assert(spec_clipped_of(exposures@[i as int].1, clipped, max_len as int));
                assert(clipped.sub_balanced());
            }
            clipped_inner.insert(stash, clipped);
            let prefs = match self.validators.get(stash) {
                Some(p) => *p,
                None => ValidatorPrefs::default_prefs(),
            };
            proof {
                assert(prefs == spec_prefs_of(self, stash));
                assert(prefs.wf()) by {
                    if self.validators.spec_contains_key(stash) {
                        let m = self.validators.key_index(stash);
                        assert(self.validators@[m].1.wf());
                    } else {
                        crate::fraction::Perbill::lemma_spec_zero();
                    }
                }
            }
            prefs_inner.insert(stash, prefs);
            total_stake = total_stake.saturating_add(total);
            elected.push(stash);
            proof {
                let taken = exposures@.take(i as int);
                let taken1 = exposures@.take(i as int + 1);
                assert(taken1.drop_last() =~= taken);
                assert(taken1.last() == exposures@[i as int]);
                let f = |e: (AccountId, Exposure)| e.0;
                assert(taken1.map_values(f) =~= taken.map_values(f).push(stash));
            }
            i = i + 1;
        }
        proof {
            assert(exposures@.take(n as int) =~= exposures@);
        }
        let era_key = new_planned_era as u64;
        self.eras_stakers.insert(era_key, stakers_inner);
        proof {
            let v = self.eras_stakers@;
            let o = old(self).eras_stakers@;
            assert forall|m: int| 0 <= m < v.len() implies (#[trigger] v[m]).1.wf() by {
                if old(self).eras_stakers.spec_contains_key(era_key) {
                    if m != old(self).eras_stakers.key_index(era_key) {
                        assert(v[m] == o[m]);
                    }
                } else {
                    if m < o.len() {
                        assert(v[m] == o[m]);
                    }
                }
            }
        }
        self.eras_stakers_clipped.insert(era_key, clipped_inner);
        proof {
            let v = self.eras_stakers_clipped@;
            let o = old(self).eras_stakers_clipped@;
            assert forall|m: int| 0 <= m < v.len() implies (#[trigger] v[m]).1.wf() by {
                if old(self).eras_stakers_clipped.spec_contains_key(era_key) {
                    if m != old(self).eras_stakers_clipped.key_index(era_key) {
                        assert(v[m] == o[m]);
                    }
                } else {
                    if m < o.len() {
                        assert(v[m] == o[m]);
                    }
                }
            }
            assert forall|m: int, j: int|
                0 <= m < v.len() && 0 <= j < (#[trigger] v[m]).1@.len() implies (
            #[trigger] v[m].1@[j]).1.sub_balanced() by {
                if old(self).eras_stakers_clipped.spec_contains_key(era_key) {
                    if m != old(self).eras_stakers_clipped.key_index(era_key) {
                        assert(v[m] == o[m]);
                    }
                } else {
                    if m < o.len() {
                        assert(v[m] == o[m]);
                    }
                }
            }
        }
        self.eras_validator_prefs.insert(era_key, prefs_inner);
        proof {
            let v = self.eras_validator_prefs@;
            let o = old(self).eras_validator_prefs@;
            assert forall|m: int| 0 <= m < v.len() implies (#[trigger] v[m]).1.wf() by {
                if old(self).eras_validator_prefs.spec_contains_key(era_key) {
                    if m != old(self).eras_validator_prefs.key_index(era_key) {
                        assert(v[m] == o[m]);
                    }
                } else {
                    if m < o.len() {
                        assert(v[m] == o[m]);
                    }
                }
            }
            assert forall|m: int, j: int|
                0 <= m < v.len() && 0 <= j < (#[trigger] v[m]).1@.len() implies (
            #[trigger] v[m].1@[j]).1.wf() by {
                if old(self).eras_validator_prefs.spec_contains_key(era_key) {
                    if m != old(self).eras_validator_prefs.key_index(era_key) {
                        assert(v[m] == o[m]);
                    }
                } else {
                    if m < o.len() {
                        assert(v[m] == o[m]);
                    }
                }
            }
        }
        self.eras_total_stake.insert(era_key, total_stake);
        elected
    }
}


impl Staking {
    /// Record one validator's full exposure for an era directly, as election
    /// bootstrapping or scenario setup would.
    pub fn add_era_stakers(&mut self, current_era: EraIndex, stash: AccountId, exposure: Exposure)
        requires
            old(self).wf(),
        ensures
            final(self).wf(),
            (match final(self).eras_stakers.spec_get(current_era as u64) {
                Some(inner) => (match inner.spec_get(stash) {
                    Some(stored) => {
                        &&& stored.own == exposure.own
                        &&& stored.total == exposure.total
                        &&& stored.others@ == exposure.others@
                    },
                    None => false,
                }),
                None => false,
            }),
            forall|k: u64|
                k != current_era as u64 ==> final(self).eras_stakers.spec_get(k) == old(
                    self,
                ).eras_stakers.spec_get(k),
            (*final(self)) == (Staking { eras_stakers: final(self).eras_stakers, ..*old(self) }),
    {
        let era_key = current_era as u64;
        let mut inner: AList<Exposure> = match self.eras_stakers.take(era_key) {
            Some(m) => m,
            None => AList::new(),
        };
        proof {
            if old(self).eras_stakers.spec_contains_key(era_key) {
                let v = self.eras_stakers@;
                let o = old(self).eras_stakers@;
                let idx = old(self).eras_stakers.key_index(era_key);
                assert(o[idx].1.wf());
                assert forall|m: int| 0 <= m < v.len() implies (#[trigger] v[m]).1.wf() by {
                    if m < idx {
                        assert(v[m] == o[m]);
                    } else {
                        assert(v[m] == o[m + 1]);
                    }
                }
            }
        }
        inner.insert(stash, exposure);
        self.eras_stakers.insert(era_key, inner);
        proof {
            let v = self.eras_stakers@;
            let o = old(self).eras_stakers@;
            assert forall|m: int| 0 <= m < v.len() implies (#[trigger] v[m]).1.wf() by {
                if old(self).eras_stakers.spec_contains_key(era_key) {
                    let idx = old(self).eras_stakers.key_index(era_key);
                    if m < idx {
                        assert(v[m] == o[m]);
                    } else if m < v.len() - 1 {
                        assert(v[m] == o[m + 1]);
                    }
                } else {
                    if m < o.len() {
                        assert(v[m] == o[m]);
                    }
                }
            }
        }
    }
}

} // verus!
