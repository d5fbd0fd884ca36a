//! The size-bounded election snapshot builder.
//!
//! Voter ordering policy: all current validators are included first, each
//! contributing a self-vote; remaining capacity is filled by nominators in
//! registry order. A nominator's targets are filtered to drop validators the
//! nominator has not re-confirmed since their last non-zero slash; a
//! nominator with no targets left contributes no record, though its
//! unfiltered size still counts towards the bounds.

use vstd::prelude::*;
use crate::{AccountId, VoteWeight};
use crate::bounds::SnapshotBounds;
use crate::state::Staking;
use crate::tracker::{
    spec_length_prefix, spec_voter_items_size, spec_voter_size, spec_voters_size,
    spec_targets_size, StaticSizeTracker, Voter, ACCOUNT_BYTES,
};
use crate::types::Nominations;

verus! {

/// The most bytes one allocation may reserve; capacity predictions are
/// capped at half of this.
pub const MAX_POSSIBLE_ALLOCATION: u32 = 33554432;

/// The ghost content of one voter record.
pub open spec fn voter_view(v: Voter) -> (AccountId, VoteWeight, Seq<AccountId>) {
    (v.0, v.1, v.2@)
}

/// The ghost content of a voter list.
pub open spec fn voters_views(s: Seq<Voter>) -> Seq<(AccountId, VoteWeight, Seq<AccountId>)> {
    s.map_values(|v: Voter| voter_view(v))
}

/// Whether a nomination submitted in `submitted_in` still counts towards
/// `target`: it does unless the target's last non-zero slash came later.
pub open spec fn spec_keep_target(s: &Staking, submitted_in: u32, target: AccountId) -> bool {
    match s.last_nonzero_slash.spec_get(target) {
        Some(era) => submitted_in >= era,
        None => true,
    }
}

/// The target filter of one nomination record, as a predicate.
pub open spec fn spec_target_filter(s: &Staking, submitted_in: u32) -> spec_fn(AccountId) -> bool {
    |t: AccountId| spec_keep_target(s, submitted_in, t)
}

/// The targets of a nomination that still count.
pub open spec fn spec_filtered_targets(s: &Staking, nom: Nominations) -> Seq<AccountId> {
    nom.targets@.filter(spec_target_filter(s, nom.submitted_in))
}

/// The self-vote of a validator: itself, its weight, and itself as the only
/// target.
pub open spec fn spec_self_vote(s: &Staking, v: AccountId) -> (AccountId, VoteWeight, Seq<
    AccountId,
>) {
    (v, s.spec_slashable_balance_of(v), seq![v])
}

/// The self-votes of a prefix of the validator registry.
pub open spec fn spec_validator_self_votes(
    s: &Staking,
    vals: Seq<(AccountId, crate::types::ValidatorPrefs)>,
) -> Seq<(AccountId, VoteWeight, Seq<AccountId>)> {
    vals.map_values(|e: (AccountId, crate::types::ValidatorPrefs)| spec_self_vote(s, e.0))
}

/// The voter records contributed by a prefix of the nominator registry: one
/// per nominator whose filtered targets are non-empty, in registry order.
pub open spec fn spec_nominator_votes(s: &Staking, noms: Seq<(AccountId, Nominations)>) -> Seq<(
    AccountId,
    VoteWeight,
    Seq<AccountId>,
)>
    decreases noms.len(),
{
    if noms.len() == 0 {
        Seq::empty()
    } else {
        let rest = spec_nominator_votes(s, noms.drop_last());
        let who = noms.last().0;
        let targets = spec_filtered_targets(s, noms.last().1);
        if targets.len() > 0 {
            rest.push((who, s.spec_slashable_balance_of(who), targets))
        } else {
            rest
        }
    }
}

/// A record is a valid self-vote: a registered validator voting for itself
/// with its slashable weight.
pub open spec fn spec_is_self_vote(s: &Staking, v: (AccountId, VoteWeight, Seq<AccountId>)) -> bool {
    &&& s.validators.spec_contains_key(v.0)
    &&& v.1 == s.spec_slashable_balance_of(v.0)
    &&& v.2 == seq![v.0]
}

/// A record is a valid nominator record: a registered nominator with its
/// slashable weight and its filtered, non-empty target list.
pub open spec fn spec_is_nominator_record(
    s: &Staking,
    v: (AccountId, VoteWeight, Seq<AccountId>),
) -> bool {
    match s.nominators.spec_get(v.0) {
        Some(nom) => {
            &&& v.1 == s.spec_slashable_balance_of(v.0)
            &&& v.2 == spec_filtered_targets(s, nom)
            &&& v.2.len() > 0
        },
        None => false,
    }
}

/// The bytes the bounded walk has registered after offering the first `j`
/// nominators: every candidate counts with its unfiltered vote count,
/// whether or not its record was taken.
pub open spec fn spec_nominators_registered(noms: Seq<(AccountId, Nominations)>, j: int) -> int
    decreases j,
{
    if j <= 0 {
        0
    } else {
        spec_nominators_registered(noms, j - 1) + spec_voter_size(noms[j - 1].1.targets@.len())
    }
}

/// The shape every bounded walk produces: the self-votes of some leading run
/// of the validator registry, followed by the records of some leading run of
/// the nominator registry — and each run ends only because taking one more
/// candidate would exhaust a bound, never earlier.
pub open spec fn spec_built_validators_first(
    s: &Staking,
    bounds: SnapshotBounds,
    views: Seq<(AccountId, VoteWeight, Seq<AccountId>)>,
) -> bool {
    exists|k: int, j: int|
        {
            &&& 0 <= k <= s.validators@.len()
            &&& 0 <= j <= s.nominators@.len()
            &&& views == spec_validator_self_votes(s, s.validators@.take(k))
                + spec_nominator_votes(s, s.nominators@.take(j))
            &&& (k < s.validators@.len() ==> j == 0 && spec_will_exhaust(
                bounds,
                vstd::math::min(25 * (k + 1), usize::MAX as int),
                k,
            ))
            &&& (k == s.validators@.len() && j < s.nominators@.len() ==> (spec_will_exhaust(
                bounds,
                vstd::math::min(25 * k, usize::MAX as int),
                k,
            ) || spec_will_exhaust(
                bounds,
                vstd::math::min(
                    25 * k + spec_nominators_registered(s.nominators@, j + 1),
                    usize::MAX as int,
                ),
                views.len() as int,
            )))
        }
}

/// A prefix of the nominator registry contributes a prefix of the records
/// that the whole registry contributes.
pub proof fn lemma_nominator_votes_prefix(
    s: &Staking,
    noms: Seq<(AccountId, Nominations)>,
    j: int,
)
    requires
        0 <= j <= noms.len(),
    ensures
        spec_nominator_votes(s, noms.take(j)).len() <= spec_nominator_votes(s, noms).len(),
        spec_nominator_votes(s, noms.take(j)) == spec_nominator_votes(s, noms).take(
            spec_nominator_votes(s, noms.take(j)).len() as int,
        ),
    decreases noms.len(),
{
    if j == noms.len() {
        assert(noms.take(j) =~= noms);
        assert(spec_nominator_votes(s, noms) =~= spec_nominator_votes(s, noms).take(
            spec_nominator_votes(s, noms).len() as int,
        ));
    } else {
        let shorter = noms.drop_last();
        assert(noms.take(j) =~= shorter.take(j));
        lemma_nominator_votes_prefix(s, shorter, j);
        let pv = spec_nominator_votes(s, noms.take(j));
        let whole = spec_nominator_votes(s, noms);
        let part = spec_nominator_votes(s, shorter);
        assert(pv == part.take(pv.len() as int));
        if spec_filtered_targets(s, noms.last().1).len() > 0 {
            assert(whole.take(part.len() as int) =~= part);
            assert(whole.take(pv.len() as int) =~= part.take(pv.len() as int));
        } else {
            assert(whole == part);
        }
    }
}

impl Staking {
    /// The targets of one nomination that still count, given the target's
    /// last non-zero slash.
    fn filter_targets(&self, submitted_in: u32, targets: &Vec<AccountId>) -> (r: Vec<AccountId>)
        requires
            self.wf(),
        ensures
            r@ == targets@.filter(spec_target_filter(self, submitted_in)),
            r@.len() <= targets@.len(),
    {
        let ghost pred = spec_target_filter(self, submitted_in);
        let mut kept: Vec<AccountId> = Vec::new();
        let n = targets.len();
        let mut i: usize = 0;
        while i < n
            invariant
                n == targets@.len(),
                i <= n,
                self.wf(),
                kept@ == targets@.take(i as int).filter(pred),
                kept@.len() <= i,
                pred == spec_target_filter(self, submitted_in),
            decreases n - i,
        {
            let t = targets[i];
            let keep = match self.last_nonzero_slash.get(t) {
                Some(era) => submitted_in >= *era,
                None => true,
            };
            proof {
                reveal(Seq::filter);
                let before = targets@.take(i as int);
                let after = targets@.take(i as int + 1);
                assert(after.drop_last() =~= before);
                assert(after.last() == targets@[i as int]);
                assert(keep == pred(targets@[i as int]));
                if keep {
                    assert(after.filter(pred) == before.filter(pred).push(targets@[i as int]));
                } else {
                    assert(after.filter(pred) == before.filter(pred));
                }
            }
            if keep {
                kept.push(t);
            }
            i = i + 1;
        }
        proof {
            assert(targets@.take(n as int) =~= targets@);
        }
        kept
    }

    /// Get all of the voters that are eligible for the next election,
    /// without any bound.
    ///
    /// Nominator records come first, in registry order, followed by every
    /// validator's self-vote. This function is self-weighing.
    pub fn get_npos_voters_unbounded(&mut self) -> (r: Vec<Voter>)
        requires
            old(self).wf(),
        ensures
            final(self).wf(),
            (*final(self)) == (Staking {
                consumed_weight: final(self).consumed_weight,
                ..*old(self)
            }),
            voters_views(r@) == spec_validator_self_votes(old(self), old(self).validators@)
                + spec_nominator_votes(old(self), old(self).nominators@),
    {
        let mut voters: Vec<Voter> = Vec::new();
        let n_validators = self.validators.len();
        let mut j: usize = 0;
        while j < n_validators
            invariant
                self.wf(),
                (*self) == (*old(self)),
                n_validators == self.validators@.len(),
                j <= n_validators,
                voters_views(voters@) == spec_validator_self_votes(
                    self,
                    self.validators@.take(j as int),
                ),
            decreases n_validators - j,
        {
            let v = self.validators.entries()[j].0;
            let weight = self.weight_of(v);
            let ghost before = voters@;
            let mut self_targets: Vec<AccountId> = Vec::new();
            self_targets.push(v);
            voters.push((v, weight, self_targets));
            proof {
                let taken = self.validators@.take(j as int);
                let taken1 = self.validators@.take(j as int + 1);
                assert(voters_views(voters@) =~= voters_views(before).push(
                    voter_view(voters@.last()),
                ));
                assert(voter_view(voters@.last()) == spec_self_vote(self, v));
                assert(spec_validator_self_votes(self, taken1) =~= spec_validator_self_votes(
                    self,
                    taken,
                ).push(spec_self_vote(self, taken1[j as int].0)));
            }
            j = j + 1;
        }
        proof {
            assert(self.validators@.take(n_validators as int) =~= self.validators@);
        }
        let ghost validator_part = voters_views(voters@);
        let n_nominators = self.nominators.len();
        let mut i: usize = 0;
        while i < n_nominators
            invariant
                self.wf(),
                (*self) == (*old(self)),
                n_nominators == self.nominators@.len(),
                i <= n_nominators,
                validator_part == spec_validator_self_votes(self, self.validators@),
                voters_views(voters@) == validator_part + spec_nominator_votes(
                    self,
                    self.nominators@.take(i as int),
                ),
            decreases n_nominators - i,
        {
            let who = self.nominators.entries()[i].0;
            let submitted_in = self.nominators.entries()[i].1.submitted_in;
            let targets = self.filter_targets(submitted_in, &self.nominators.entries()[i].1.targets);
            let ghost before = voters@;
            if targets.len() > 0 {
                let weight = self.weight_of(who);
                voters.push((who, weight, targets));
            }
            proof {
                let taken = self.nominators@.take(i as int);
                let taken1 = self.nominators@.take(i as int + 1);
                assert(taken1.drop_last() =~= taken);
                assert(taken1.last() == self.nominators@[i as int]);
                if spec_filtered_targets(self, self.nominators@[i as int].1).len() > 0 {
                    assert(voters_views(voters@) =~= voters_views(before).push(
                        voter_view(voters@.last()),
                    ));
                } else {
                    assert(voters_views(voters@) =~= voters_views(before));
                }
            }
            i = i + 1;
        }
        proof {
            assert(self.nominators@.take(n_nominators as int) =~= self.nominators@);
        }
        let count = voters.len();
        self.register_weight(count as u64);
        voters
    }

    /// Get the list of targets (validators) that are eligible for the next
    /// election, without any bound. This function is self-weighing.
    pub fn get_npos_targets_unbounded(&mut self) -> (r: Vec<AccountId>)
        requires
            old(self).wf(),
        ensures
            final(self).wf(),
            (*final(self)) == (Staking {
                consumed_weight: final(self).consumed_weight,
                ..*old(self)
            }),
            r@ == old(self).validators@.map_values(
                |e: (AccountId, crate::types::ValidatorPrefs)| e.0,
            ),
    {
        let mut targets: Vec<AccountId> = Vec::new();
        let n_validators = self.validators.len();
        let mut i: usize = 0;
        while i < n_validators
            invariant
                self.wf(),
                (*self) == (*old(self)),
                n_validators == self.validators@.len(),
                i <= n_validators,
                targets@ == self.validators@.take(i as int).map_values(
                    |e: (AccountId, crate::types::ValidatorPrefs)| e.0,
                ),
            decreases n_validators - i,
        {
            let v = self.validators.entries()[i].0;
            targets.push(v);
            proof {
                let f = |e: (AccountId, crate::types::ValidatorPrefs)| e.0;
                assert(self.validators@.take(i as int + 1).map_values(f) =~= self.validators@.take(
                    i as int,
                ).map_values(f).push(v));
            }
            i = i + 1;
        }
        proof {
            assert(self.validators@.take(n_validators as int) =~= self.validators@);
        }
        let count = targets.len();
        self.register_weight(count as u64);
        targets
    }
}


/// What the exhaustion pre-check sees: whether appending one more voter
/// would push the tracked final byte size over the size bound, or the new
/// count over the count bound.
pub open spec fn spec_will_exhaust(bounds: SnapshotBounds, size: int, len: int) -> bool {
    let new_size = vstd::math::min(
        size + spec_length_prefix((len + 1) as nat),
        usize::MAX as int,
    );
    match (bounds.spec_size_bound(), bounds.spec_count_bound()) {
        (Some(b), Some(c)) => new_size > b as int || len + 1 > c as int,
        (Some(b), None) => new_size > b as int,
        (None, Some(c)) => len + 1 > c as int,
        (None, None) => false,
    }
}

/// Check if adding one more voter will exhaust any of the bounds.
fn next_will_exhaust(bounds: &SnapshotBounds, tracker: &StaticSizeTracker, len: usize) -> (r: bool)
    requires
        bounds.spec_size_bound() is Some ==> len as int + 1 <= u32::MAX as int,
    ensures
        r == spec_will_exhaust(*bounds, tracker.spec_size(), len as int),
{
    match (bounds.size_bound(), bounds.count_bound()) {
        (Some(max_size), Some(max_count)) => tracker.final_byte_size_of(len + 1) > max_size
            || len >= max_count,
        (Some(max_size), None) => tracker.final_byte_size_of(len + 1) > max_size,
        (None, Some(max_count)) => len >= max_count,
        (None, None) => false,
    }
}

impl Staking {
    /// Get all of the voters that are eligible for the next election,
    /// respecting `bounds` over the count and the encoded byte size of the
    /// entire returned vector.
    ///
    /// First all the validators are included, in registry order; the
    /// remainder is taken from the nominators. Nominations are filtered
    /// against each target's last non-zero slash, and stale votes DO count
    /// towards the bounds. The already-accumulated voters are kept when a
    /// bound is reached, never rolled back.
    ///
    /// This function is self-weighing.
    pub fn get_npos_voters_bounded(&mut self, bounds: SnapshotBounds) -> (r: Vec<Voter>)
        requires
            old(self).wf(),
            (match bounds.spec_size_bound() {
                Some(b) => (b as int) < usize::MAX as int,
                None => true,
            }),
        ensures
            final(self).wf(),
            (*final(self)) == (Staking {
                consumed_weight: final(self).consumed_weight,
                ..*old(self)
            }),
            (match bounds.spec_size_bound() {
                Some(b) => r@.len() == 0 || spec_voters_size(r@) <= b as int,
                None => true,
            }),
            (match bounds.spec_count_bound() {
                Some(c) => r@.len() <= c as int,
                None => true,
            }),
            forall|i: int|
                0 <= i < r@.len() ==> spec_is_self_vote(old(self), voter_view(#[trigger] r@[i]))
                    || spec_is_nominator_record(old(self), voter_view(r@[i])),
            spec_built_validators_first(old(self), bounds, voters_views(r@)),
            (match (bounds.spec_size_bound(), bounds.spec_count_bound()) {
                (None, Some(c)) => {
                    &&& (c as int <= old(self).validators@.len() ==> voters_views(r@)
                        == spec_validator_self_votes(
                        old(self),
                        old(self).validators@.take(c as int),
                    ))
                    &&& (c as int >= old(self).validators@.len() + spec_nominator_votes(
                        old(self),
                        old(self).nominators@,
                    ).len() ==> voters_views(r@) == spec_validator_self_votes(
                        old(self),
                        old(self).validators@,
                    ) + spec_nominator_votes(old(self), old(self).nominators@))
                },
                (None, None) => voters_views(r@) == spec_validator_self_votes(
                    old(self),
                    old(self).validators@,
                ) + spec_nominator_votes(old(self), old(self).nominators@),
                _ => true,
            }),
    {
        let mut tracker = StaticSizeTracker::new();
        let ghost mut reg: int = 0;
        let max_votes = self.config.max_nominations as usize;
        let mut voters: Vec<Voter> = match bounds.predict_capacity(
            StaticSizeTracker::voter_size(max_votes),
        ) {
            Some(capacity) => {
                let cap_limit: usize = (MAX_POSSIBLE_ALLOCATION / 2) as usize;
                Vec::with_capacity(if capacity < cap_limit {
                    capacity
                } else {
                    cap_limit
                })
            },
            None => Vec::new(),
        };

        // first, grab all validators, in registry order. In most cases, all
        // of them should fit anyway.
        let n_validators = self.validators.len();
        let mut i: usize = 0;
        while i < n_validators
            invariant_except_break
                voters@.len() == i,
                bounds.spec_size_bound() is Some ==> reg == 25 * i,
            invariant
                self.wf(),
                (*self) == (*old(self)),
                (match bounds.spec_size_bound() {
                    Some(b) => (b as int) < usize::MAX as int,
                    None => true,
                }),
                n_validators == self.validators@.len(),
                i <= n_validators,
                voters@.len() <= i,
                voters_views(voters@) == spec_validator_self_votes(
                    self,
                    self.validators@.take(voters@.len() as int),
                ),
                spec_voter_items_size(voters@) == 25 * voters@.len(),
                forall|m: int|
                    0 <= m < voters@.len() ==> spec_is_self_vote(
                        self,
                        voter_view(#[trigger] voters@[m]),
                    ) || spec_is_nominator_record(self, voter_view(voters@[m])),
                (match bounds.spec_size_bound() {
                    Some(b) => {
                        &&& tracker.spec_size() == vstd::math::min(reg, usize::MAX as int)
                        &&& spec_voter_items_size(voters@) <= reg
                        &&& (voters@.len() == 0 || spec_voters_size(voters@) <= b as int)
                    },
                    None => true,
                }),
                (match bounds.spec_count_bound() {
                    Some(c) => voters@.len() <= c as int,
                    None => true,
                }),
            ensures
                self.wf(),
                (*self) == (*old(self)),
                n_validators == self.validators@.len(),
                voters@.len() <= n_validators,
                voters_views(voters@) == spec_validator_self_votes(
                    self,
                    self.validators@.take(voters@.len() as int),
                ),
                spec_voter_items_size(voters@) == 25 * voters@.len(),
                forall|m: int|
                    0 <= m < voters@.len() ==> spec_is_self_vote(
                        self,
                        voter_view(#[trigger] voters@[m]),
                    ) || spec_is_nominator_record(self, voter_view(voters@[m])),
                (match bounds.spec_size_bound() {
                    Some(b) => {
                        &&& tracker.spec_size() == vstd::math::min(reg, usize::MAX as int)
                        &&& spec_voter_items_size(voters@) <= reg
                        &&& (voters@.len() == 0 || spec_voters_size(voters@) <= b as int)
                    },
                    None => true,
                }),
                (match bounds.spec_count_bound() {
                    Some(c) => voters@.len() <= c as int,
                    None => true,
                }),
                (match (bounds.spec_size_bound(), bounds.spec_count_bound()) {
                    (None, Some(c)) => voters@.len() as int == vstd::math::min(
                        c as int,
                        n_validators as int,
                    ),
                    (None, None) => voters@.len() == n_validators,
                    _ => true,
                }),
                bounds.spec_size_bound() is Some ==> reg == 25 * voters@.len() + (
                if voters@.len() < n_validators {
                    25int
                } else {
                    0int
                }),
                voters@.len() < n_validators ==> spec_will_exhaust(
                    bounds,
                    vstd::math::min(25 * (voters@.len() + 1) as int, usize::MAX as int),
                    voters@.len() as int,
                ),
            decreases n_validators - i,
        {
            let v = self.validators.entries()[i].0;
            let weight = self.weight_of(v);
            if bounds.size_bound().is_some() {
                tracker.register_voter(1);
                proof {
                    crate::tracker::lemma_voter_size_at_least(1);
                    reg = reg + spec_voter_size(1);
                }
            }
            proof {
                if bounds.spec_size_bound() is Some {
                    if voters@.len() > 0 {
                        crate::tracker::lemma_voter_items_size_lower(voters@);
                    }
                }
            }
            if next_will_exhaust(&bounds, &tracker, voters.len()) {
                break ;
            }
            let mut self_targets: Vec<AccountId> = Vec::new();
            self_targets.push(v);
            let ghost before = voters@;
            voters.push((v, weight, self_targets));
            proof {
                assert(voters@.drop_last() =~= before);
                assert(voters@.last().2@ =~= seq![v]);
                crate::tracker::lemma_voter_size_at_least(1);
                assert(voters_views(voters@) =~= voters_views(before).push(
                    voter_view(voters@.last()),
                ));
                let taken = self.validators@.take(before.len() as int);
                let taken1 = self.validators@.take(before.len() as int + 1);
                assert(taken1.drop_last() =~= taken);
                assert(spec_validator_self_votes(self, taken1) =~= spec_validator_self_votes(
                    self,
                    taken,
                ).push(spec_self_vote(self, taken1[before.len() as int].0)));
                assert(taken1[before.len() as int].0 == v);
                assert(self.validators@[i as int].0 == v);
                assert(self.validators.spec_contains_key(v));
                assert(spec_is_self_vote(self, voter_view(voters@.last())));
                assert(forall|m: int|
                    0 <= m < before.len() ==> voters@[m] == #[trigger] before[m]);
            }
            i = i + 1;
        }
        let validators_taken = voters.len();
        let ghost k0 = voters@.len();
        let ghost base = voters_views(voters@);

        // only bother with the nominators if we are not exhausted already.
        proof {
            if bounds.spec_size_bound() is Some {
                if voters@.len() > 0 {
                    crate::tracker::lemma_voter_items_size_lower(voters@);
                }
            }
        }
        let proceed = !next_will_exhaust(&bounds, &tracker, voters.len());
        if proceed {
            proof {
                // the guard sees the same exhaustion a validator break left
                // behind, so reaching here means every validator was taken
                assert(k0 == self.validators@.len());
            }
            let n_nominators = self.nominators.len();
            let mut j: usize = 0;
            while j < n_nominators
                invariant_except_break
                    bounds.spec_size_bound() is Some ==> reg == 25 * k0
                        + spec_nominators_registered(self.nominators@, j as int),
                invariant
                    self.wf(),
                    (*self) == (*old(self)),
                    (match bounds.spec_size_bound() {
                        Some(b) => (b as int) < usize::MAX as int,
                        None => true,
                    }),
                    n_nominators == self.nominators@.len(),
                    j <= n_nominators,
                    base == spec_validator_self_votes(
                        self,
                        self.validators@.take(k0 as int),
                    ),
                    k0 == self.validators@.len(),
                    voters_views(voters@) == base + spec_nominator_votes(
                        self,
                        self.nominators@.take(j as int),
                    ),
                    voters@.len() == k0 + spec_nominator_votes(
                        self,
                        self.nominators@.take(j as int),
                    ).len(),
                    j == n_nominators ==> spec_nominator_votes(
                        self,
                        self.nominators@.take(j as int),
                    ) == spec_nominator_votes(self, self.nominators@),
                    spec_voter_items_size(voters@) >= 17 * voters@.len(),
                    forall|m: int|
                        0 <= m < voters@.len() ==> spec_is_self_vote(
                            self,
                            voter_view(#[trigger] voters@[m]),
                        ) || spec_is_nominator_record(self, voter_view(voters@[m])),
                    (match bounds.spec_size_bound() {
                        Some(b) => {
                            &&& tracker.spec_size() == vstd::math::min(reg, usize::MAX as int)
                            &&& spec_voter_items_size(voters@) <= reg
                            &&& (voters@.len() == 0 || spec_voters_size(voters@) <= b as int)
                        },
                        None => true,
                    }),
                    (match bounds.spec_count_bound() {
                        Some(c) => voters@.len() <= c as int,
                        None => true,
                    }),
                ensures
                    self.wf(),
                    (*self) == (*old(self)),
                    forall|m: int|
                        0 <= m < voters@.len() ==> spec_is_self_vote(
                            self,
                            voter_view(#[trigger] voters@[m]),
                        ) || spec_is_nominator_record(self, voter_view(voters@[m])),
                    voters_views(voters@) == base + spec_nominator_votes(
                        self,
                        self.nominators@.take(j as int),
                    ),
                    j <= self.nominators@.len(),
                    k0 == self.validators@.len(),
                    j < n_nominators ==> spec_will_exhaust(
                        bounds,
                        vstd::math::min(
                            25 * k0 + spec_nominators_registered(
                                self.nominators@,
                                j as int + 1,
                            ),
                            usize::MAX as int,
                        ),
                        (k0 + spec_nominator_votes(
                            self,
                            self.nominators@.take(j as int),
                        ).len()) as int,
                    ),
                    (match bounds.spec_size_bound() {
                        Some(b) => voters@.len() == 0 || spec_voters_size(voters@) <= b as int,
                        None => true,
                    }),
                    (match bounds.spec_count_bound() {
                        Some(c) => voters@.len() <= c as int,
                        None => true,
                    }),
                    (match (bounds.spec_size_bound(), bounds.spec_count_bound()) {
                        (None, Some(c)) => c as int >= k0 + spec_nominator_votes(
                            self,
                            self.nominators@,
                        ).len() ==> voters_views(voters@) == base + spec_nominator_votes(
                            self,
                            self.nominators@,
                        ),
                        (None, None) => voters_views(voters@) == base + spec_nominator_votes(
                            self,
                            self.nominators@,
                        ),
                        _ => true,
                    }),
                decreases n_nominators - j,
            {
                let who = self.nominators.entries()[j].0;
                let submitted_in = self.nominators.entries()[j].1.submitted_in;
                let unfiltered_len = self.nominators.entries()[j].1.targets.len();
                if bounds.size_bound().is_some() {
                    tracker.register_voter(unfiltered_len);
                    proof {
                        crate::tracker::lemma_voter_size_at_least(unfiltered_len as nat);
                        reg = reg + spec_voter_size(unfiltered_len as nat);
                    }
                }
                proof {
                    assert(spec_nominators_registered(self.nominators@, j as int + 1)
                        == spec_nominators_registered(self.nominators@, j as int)
                        + spec_voter_size(self.nominators@[j as int].1.targets@.len()));
                }
                proof {
                    if bounds.spec_size_bound() is Some {
                        if voters@.len() > 0 {
                            crate::tracker::lemma_voter_items_size_lower(voters@);
                        }
                    }
                }
                if next_will_exhaust(&bounds, &tracker, voters.len()) {
                    proof {
                        // a count bound can only stop us once the whole
                        // nominator tail no longer fits
                        if bounds.spec_size_bound() is None {
                            if bounds.spec_count_bound() is Some {
                                let c = bounds.spec_count_bound()->0;
                                let nv_all = spec_nominator_votes(self, self.nominators@);
                                let nv_j = spec_nominator_votes(
                                    self,
                                    self.nominators@.take(j as int),
                                );
                                lemma_nominator_votes_prefix(self, self.nominators@, j as int);
                                if c as int >= k0 + nv_all.len() {
                                    assert(voters@.len() >= c);
                                    assert(nv_j.len() >= nv_all.len());
                                    assert(nv_j =~= nv_all);
                                }
                            }
                        }
                    }
                    break ;
                }
                let targets = self.filter_targets(
                    submitted_in,
                    &self.nominators.entries()[j].1.targets,
                );
                let ghost taken = self.nominators@.take(j as int);
                let ghost taken1 = self.nominators@.take(j as int + 1);
                proof {
                    assert(taken1.drop_last() =~= taken);
                    assert(taken1.last() == self.nominators@[j as int]);
                }
                if targets.len() > 0 {
                    let weight = self.weight_of(who);
                    let ghost before = voters@;
                    voters.push((who, weight, targets));
                    proof {
                        assert(voters@.drop_last() =~= before);
                        assert(voters_views(voters@) =~= voters_views(before).push(
                            voter_view(voters@.last()),
                        ));
                        crate::tracker::lemma_voter_size_at_least(targets@.len());
                        crate::tracker::lemma_voter_size_monotone(
                            targets@.len(),
                            unfiltered_len as nat,
                        );
                        self.nominators.lemma_key_index_unique(who, j as int);
                        assert(spec_is_nominator_record(self, voter_view(voters@.last())));
                        assert(forall|m: int|
                            0 <= m < before.len() ==> voters@[m] == #[trigger] before[m]);
                    }
                }
                j = j + 1;
                proof {
                    if j == n_nominators {
                        assert(self.nominators@.take(j as int) =~= self.nominators@);
                    }
                }
            }
            proof {
                assert(voters_views(voters@) == spec_validator_self_votes(
                    self,
                    self.validators@.take(k0 as int),
                ) + spec_nominator_votes(self, self.nominators@.take(j as int)));
                assert(voters_views(voters@).len() as int == k0 + spec_nominator_votes(
                    self,
                    self.nominators@.take(j as int),
                ).len());
                assert(spec_built_validators_first(self, bounds, voters_views(voters@)));
            }
        } else {
            proof {
                assert(self.nominators@.take(0) =~= Seq::<(AccountId, Nominations)>::empty());
                assert(spec_nominator_votes(self, self.nominators@.take(0))
                    =~= Seq::<(AccountId, VoteWeight, Seq<AccountId>)>::empty());
                assert(voters_views(voters@) =~= spec_validator_self_votes(
                    self,
                    self.validators@.take(voters@.len() as int),
                ) + spec_nominator_votes(self, self.nominators@.take(0)));
                if k0 == self.validators@.len() && self.nominators@.len() > 0 {
                    // the guard stopped the walk before any nominator
                    assert(spec_will_exhaust(
                        bounds,
                        vstd::math::min(25 * k0 as int, usize::MAX as int),
                        k0 as int,
                    ));
                }
                assert(spec_built_validators_first(self, bounds, voters_views(voters@)));
            }
        }
        let nominators_taken = voters.len() - validators_taken;
        self.register_weight(
            (validators_taken as u64).saturating_add(nominators_taken as u64),
        );
        proof {
            assert(self.validators@.take(self.validators@.len() as int) =~= self.validators@);
            assert(self.nominators@.take(self.nominators@.len() as int) =~= self.nominators@);
        }
        voters
    }
}


/// The account ids of the validator registry, in order.
pub open spec fn spec_validator_keys(s: &Staking) -> Seq<AccountId> {
    s.validators@.map_values(|e: (AccountId, crate::types::ValidatorPrefs)| e.0)
}

/// Whether a target list of `m` entries fits within `bounds`.
pub open spec fn spec_targets_fits(bounds: SnapshotBounds, m: nat) -> bool {
    &&& match bounds.spec_size_bound() {
        Some(b) => spec_targets_size(m) <= b as int,
        None => true,
    }
    &&& match bounds.spec_count_bound() {
        Some(c) => m <= c,
        None => true,
    }
}

/// How many of `n` candidate targets the bounded walk takes: it extends the
/// list while each new length still fits, and stops for good at the first
/// one that does not.
pub open spec fn spec_bounded_targets_len(bounds: SnapshotBounds, n: nat) -> nat
    decreases n,
{
    if n == 0 {
        0
    } else {
        let k = spec_bounded_targets_len(bounds, (n - 1) as nat);
        if k == n - 1 && spec_targets_fits(bounds, n) {
            n
        } else {
            k
        }
    }
}

/// With no bounds at all, the walk takes every candidate.
pub proof fn lemma_bounded_targets_len_unbounded(bounds: SnapshotBounds, n: nat)
    requires
        bounds.spec_size_bound() is None,
        bounds.spec_count_bound() is None,
    ensures
        spec_bounded_targets_len(bounds, n) == n,
    decreases n,
{
    if n > 0 {
        lemma_bounded_targets_len_unbounded(bounds, (n - 1) as nat);
    }
}

/// Once the walk has stopped short, more candidates change nothing.
pub proof fn lemma_bounded_targets_len_stable(bounds: SnapshotBounds, m: nat, n: nat)
    requires
        m <= n,
        spec_bounded_targets_len(bounds, m) < m,
    ensures
        spec_bounded_targets_len(bounds, n) == spec_bounded_targets_len(bounds, m),
    decreases n - m,
{
    if n > m {
        lemma_bounded_targets_len_stable(bounds, m, (n - 1) as nat);
    }
}

impl Staking {
    /// Get the list of targets (validators) that are eligible for the next
    /// election, respecting `bounds` over the count and the encoded byte
    /// size of the returned vector. This function is self-weighing.
    pub fn get_npos_targets_bounded(&mut self, bounds: SnapshotBounds) -> (r: Vec<AccountId>)
        requires
            old(self).wf(),
            (match bounds.spec_size_bound() {
                Some(b) => (b as int) < usize::MAX as int,
                None => true,
            }),
        ensures
            final(self).wf(),
            (*final(self)) == (Staking {
                consumed_weight: final(self).consumed_weight,
                ..*old(self)
            }),
            r@ == spec_validator_keys(old(self)).take(
                spec_bounded_targets_len(bounds, old(self).validators@.len() as nat) as int,
            ),
            (match bounds.spec_size_bound() {
                Some(b) => r@.len() == 0 || spec_targets_size(r@.len() as nat) <= b as int,
                None => true,
            }),
            (match bounds.spec_count_bound() {
                Some(c) => r@.len() <= c as int,
                None => true,
            }),
            bounds.spec_size_bound() is None && bounds.spec_count_bound() is None
                ==> r@ == spec_validator_keys(old(self)),
    {
        let mut internal_size: usize = 0;
        let mut targets: Vec<AccountId> = match bounds.predict_capacity(ACCOUNT_BYTES) {
            Some(capacity) => {
                let cap_limit: usize = (MAX_POSSIBLE_ALLOCATION / 2) as usize;
                Vec::with_capacity(if capacity < cap_limit {
                    capacity
                } else {
                    cap_limit
                })
            },
            None => Vec::new(),
        };
        let n_validators = self.validators.len();
        let mut i: usize = 0;
        while i < n_validators
            invariant_except_break
                targets@.len() == i,
            invariant
                self.wf(),
                (*self) == (*old(self)),
                (match bounds.spec_size_bound() {
                    Some(b) => (b as int) < usize::MAX as int,
                    None => true,
                }),
                n_validators == self.validators@.len(),
                i <= n_validators,
                targets@.len() <= i,
                targets@ == spec_validator_keys(self).take(targets@.len() as int),
                spec_bounded_targets_len(bounds, targets@.len() as nat) == targets@.len() as nat,
                spec_bounded_targets_len(bounds, n_validators as nat) == spec_bounded_targets_len(
                    bounds,
                    targets@.len() as nat,
                ) || targets@.len() == i,
                (match bounds.spec_size_bound() {
                    Some(_) => internal_size as int == ACCOUNT_BYTES * targets@.len(),
                    None => true,
                }),
                (match bounds.spec_size_bound() {
                    Some(b) => targets@.len() == 0 || spec_targets_size(targets@.len() as nat)
                        <= b as int,
                    None => true,
                }),
                (match bounds.spec_count_bound() {
                    Some(c) => targets@.len() <= c as int,
                    None => true,
                }),
            ensures
                self.wf(),
                (*self) == (*old(self)),
                n_validators == self.validators@.len(),
                targets@ == spec_validator_keys(self).take(targets@.len() as int),
                targets@.len() as nat == spec_bounded_targets_len(bounds, n_validators as nat),
                (match bounds.spec_size_bound() {
                    Some(b) => targets@.len() == 0 || spec_targets_size(targets@.len() as nat)
                        <= b as int,
                    None => true,
                }),
                (match bounds.spec_count_bound() {
                    Some(c) => targets@.len() <= c as int,
                    None => true,
                }),
            decreases n_validators - i,
        {
            let len = targets.len();
            proof {
                if bounds.spec_size_bound() is Some {
                    if len > 0 {
                        assert(spec_targets_size(len as nat) >= ACCOUNT_BYTES * len + 1);
                    }
                }
            }
            let fits = match (bounds.size_bound(), bounds.count_bound()) {
                (Some(max_size), Some(max_count)) => {
                    let new_internal = internal_size.saturating_add(ACCOUNT_BYTES);
                    let new_final = new_internal.saturating_add(
                        StaticSizeTracker::length_prefix(len + 1),
                    );
                    new_final <= max_size && len + 1 <= max_count
                },
                (Some(max_size), None) => {
                    let new_internal = internal_size.saturating_add(ACCOUNT_BYTES);
                    let new_final = new_internal.saturating_add(
                        StaticSizeTracker::length_prefix(len + 1),
                    );
                    new_final <= max_size
                },
                (None, Some(max_count)) => len < max_count,
                (None, None) => true,
            };
            proof {
                assert(fits == spec_targets_fits(bounds, (targets@.len() + 1) as nat));
            }
            if !fits {
                proof {
                    lemma_bounded_targets_len_stable(
                        bounds,
                        (targets@.len() + 1) as nat,
                        n_validators as nat,
                    );
                }
                break ;
            }
            let v = self.validators.entries()[i].0;
            targets.push(v);
            if bounds.size_bound().is_some() {
                internal_size = internal_size + ACCOUNT_BYTES;
            }
            proof {
                let keys = spec_validator_keys(self);
                assert(keys.take(targets@.len() as int) =~= keys.take(
                    targets@.len() as int - 1,
                ).push(keys[targets@.len() as int - 1]));
            }
            i = i + 1;
        }
        proof {
            if bounds.spec_size_bound() is None && bounds.spec_count_bound() is None {
                lemma_bounded_targets_len_unbounded(bounds, n_validators as nat);
            }
            if targets@.len() == n_validators {
                assert(spec_validator_keys(self).take(targets@.len() as int)
                    =~= spec_validator_keys(self));
            }
        }
        let count = targets.len();
        self.register_weight(count as u64);
        targets
    }

    /// The number of targets to elect: the governance-configured winner
    /// count. This function is self-weighing.
    pub fn desired_targets(&mut self) -> (r: Result<u32, &'static str>)
        requires
            old(self).wf(),
        ensures
            final(self).wf(),
            (*final(self)) == (Staking {
                consumed_weight: final(self).consumed_weight,
                ..*old(self)
            }),
            r == Ok::<u32, &'static str>(old(self).config.validator_count),
    {
        self.register_weight(1);
        Ok(self.config.validator_count)
    }

    /// All possible voters for the election, respecting `bounds` when one is
    /// set and falling back to the unbounded walk otherwise.
    pub fn voters(&mut self, bounds: SnapshotBounds) -> (r: Result<
        Vec<Voter>,
        &'static str,
    >)
        requires
            old(self).wf(),
            (match bounds.spec_size_bound() {
                Some(b) => (b as int) < usize::MAX as int,
                None => true,
            }),
        ensures
            final(self).wf(),
            (*final(self)) == (Staking {
                consumed_weight: final(self).consumed_weight,
                ..*old(self)
            }),
            (match r {
                Ok(v) => {
                    &&& (bounds.spec_size_bound() is None && bounds.spec_count_bound() is None
                        ==> voters_views(v@) == spec_validator_self_votes(
                        old(self),
                        old(self).validators@,
                    ) + spec_nominator_votes(old(self), old(self).nominators@))
                    &&& (match bounds.spec_size_bound() {
                        Some(b) => v@.len() == 0 || spec_voters_size(v@) <= b as int,
                        None => true,
                    })
                    &&& (match bounds.spec_count_bound() {
                        Some(c) => v@.len() <= c as int,
                        None => true,
                    })
                    &&& forall|i: int|
                        0 <= i < v@.len() ==> spec_is_self_vote(
                            old(self),
                            voter_view(#[trigger] v@[i]),
                        ) || spec_is_nominator_record(old(self), voter_view(v@[i]))
                        || (bounds.spec_size_bound() is None && bounds.spec_count_bound() is None)
                    &&& (bounds.spec_size_bound() is Some || bounds.spec_count_bound() is Some
                        ==> spec_built_validators_first(old(self), bounds, voters_views(v@)))
                    &&& (match (bounds.spec_size_bound(), bounds.spec_count_bound()) {
                        (None, Some(c)) => c as int <= old(self).validators@.len()
                            ==> voters_views(v@) == spec_validator_self_votes(
                            old(self),
                            old(self).validators@.take(c as int),
                        ),
                        _ => true,
                    })
                },
                Err(_) => false,
            }),
    {
        if bounds.is_unbounded() {
            Ok(self.get_npos_voters_unbounded())
        } else {
            Ok(self.get_npos_voters_bounded(bounds))
        }
    }

    /// All possible targets for the election, respecting `bounds` when one
    /// is set and falling back to the unbounded walk otherwise.
    pub fn targets(&mut self, bounds: SnapshotBounds) -> (r: Result<
        Vec<AccountId>,
        &'static str,
    >)
        requires
            old(self).wf(),
            (match bounds.spec_size_bound() {
                Some(b) => (b as int) < usize::MAX as int,
                None => true,
            }),
        ensures
            final(self).wf(),
            (*final(self)) == (Staking {
                consumed_weight: final(self).consumed_weight,
                ..*old(self)
            }),
            (match r {
                Ok(t) => {
                    &&& (bounds.spec_size_bound() is None && bounds.spec_count_bound() is None
                        ==> t@ == spec_validator_keys(old(self)))
                    &&& (bounds.spec_size_bound() is Some || bounds.spec_count_bound() is Some
                        ==> t@ == spec_validator_keys(old(self)).take(
                        spec_bounded_targets_len(bounds, old(self).validators@.len() as nat) as int,
                    ))
                    &&& (match bounds.spec_size_bound() {
                        Some(b) => t@.len() == 0 || spec_targets_size(t@.len() as nat) <= b as int,
                        None => true,
                    })
                    &&& (match bounds.spec_count_bound() {
                        Some(c) => t@.len() <= c as int,
                        None => true,
                    })
                },
                Err(_) => false,
            }),
    {
        if bounds.is_unbounded() {
            Ok(self.get_npos_targets_unbounded())
        } else {
            Ok(self.get_npos_targets_bounded(bounds))
        }
    }
}


/// The voter-count range that a set of bounds supports: the low end is
/// realized when every voter casts the maximum number of votes, the high end
/// when every voter casts one, and the mid point between them. The byte
/// budget is discounted by an assumed four-byte outer length prefix.
pub open spec fn spec_bounds_limits(bounds: SnapshotBounds, max_votes: u32) -> (int, int, int) {
    let vs_one = vstd::math::min(spec_voter_size(1), usize::MAX as int);
    let vs_max = vstd::math::min(spec_voter_size(max_votes as nat), usize::MAX as int);
    let vs_mid = vstd::math::min(spec_voter_size((max_votes / 2) as nat), usize::MAX as int);
    match (bounds.spec_size_bound(), bounds.spec_count_bound()) {
        (None, None) => (usize::MAX as int, usize::MAX as int, usize::MAX as int),
        (None, Some(count)) => (count as int, count as int, count as int),
        (Some(size), Some(count)) => {
            let budget = if size >= 4 {
                size - 4
            } else {
                0
            };
            (
                vstd::math::min(budget as int / vs_max, count as int),
                vstd::math::min(budget as int / vs_mid, count as int),
                vstd::math::min(budget as int / vs_one, count as int),
            )
        },
        (Some(size), None) => {
            let budget = if size >= 4 {
                size - 4
            } else {
                0
            };
            (budget as int / vs_max, budget as int / vs_mid, budget as int / vs_one)
        },
    }
}

/// Return some information about the voter-count range at which the given
/// `bounds` works, as `(low, mid, high)`: `low` is the minimum number of
/// voters that `bounds` supports, realized when all voters cast `max_votes`
/// votes; `high` the maximum, realized when all cast one; `mid` between the
/// two.
pub fn bounds_limits(bounds: SnapshotBounds, max_votes: u32) -> (r: (usize, usize, usize))
    ensures
        (r.0 as int, r.1 as int, r.2 as int) == spec_bounds_limits(bounds, max_votes),
{
    proof {
        crate::tracker::lemma_voter_size_at_least(1);
        crate::tracker::lemma_voter_size_at_least(max_votes as nat);
        crate::tracker::lemma_voter_size_at_least((max_votes / 2) as nat);
    }
    let vs_one = StaticSizeTracker::voter_size(1);
    let vs_max = StaticSizeTracker::voter_size(max_votes as usize);
    let vs_mid = StaticSizeTracker::voter_size((max_votes / 2) as usize);
    match (bounds.size_bound(), bounds.count_bound()) {
        (None, None) => (usize::MAX, usize::MAX, usize::MAX),
        (None, Some(count)) => (count, count, count),
        (Some(size), Some(count)) => {
            let budget: usize = if size >= 4 {
                size - 4
            } else {
                0
            };
            let low = budget / vs_max;
            let mid = budget / vs_mid;
            let high = budget / vs_one;
            (
                if low < count {
                    low
                } else {
                    count
                },
                if mid < count {
                    mid
                } else {
                    count
                },
                if high < count {
                    high
                } else {
                    count
                },
            )
        },
        (Some(size), None) => {
            let budget: usize = if size >= 4 {
                size - 4
            } else {
                0
            };
            (budget / vs_max, budget / vs_mid, budget / vs_one)
        },
    }
}

} // verus!
