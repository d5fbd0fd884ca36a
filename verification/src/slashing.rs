//! The deferred slashing engine: computing the punitive stake reduction for
//! a reported offence, attributing it to the era it happened in, and
//! applying it once its safety window has elapsed.

use vstd::prelude::*;
use crate::{AccountId, Balance, EraIndex, SessionIndex, Weight};
use crate::fraction::{spec_ratio_floor, Perbill, BILLION};
use crate::state::Staking;
use crate::types::{
    DisableStrategy, Exposure, IndividualExposure, OffenceDetails, StakingLedger, UnappliedSlash,
};

verus! {

/// The first era whose slashes must still be kept back at an era start:
/// everything strictly older is applied.
pub open spec fn spec_keep_from(active_era: EraIndex, defer: u32) -> int {
    if active_era >= defer {
        active_era - defer
    } else {
        0
    }
}

/// How one era start settles the pending-slash queue: every era from the
/// watermark up to (but excluding) the keep-from cutoff is drained, nothing
/// else is touched, and the watermark advances to the cutoff without ever
/// regressing.
pub open spec fn spec_applies_pending(pre: Staking, post: Staking, active_era: EraIndex) -> bool {
    let keep_from = spec_keep_from(active_era, pre.config.slash_defer_duration);
    match pre.earliest_unapplied_slash {
        None => {
            &&& post.unapplied_slashes@ == pre.unapplied_slashes@
            &&& post.earliest_unapplied_slash is None
        },
        Some(earliest) => {
            &&& post.earliest_unapplied_slash == Some(
                vstd::math::max(earliest as int, keep_from) as EraIndex,
            )
            &&& forall|k: EraIndex|
                earliest <= k < keep_from ==> !post.unapplied_slashes.spec_contains_key(
                    #[trigger] (k as u64),
                )
            &&& forall|k: EraIndex|
                !(earliest <= k < keep_from) ==> post.unapplied_slashes.spec_get(
                    #[trigger] (k as u64),
                ) == pre.unapplied_slashes.spec_get(k as u64)
        },
    }
}

/// The era an offence reported at `slash_session` belongs to: the active era
/// when the session falls inside it, else the latest bonded era whose first
/// session is no later than the report; an offence before the bonding window
/// resolves to nothing and is dropped.
pub open spec fn spec_scan_bonded(eras: Seq<(EraIndex, SessionIndex)>, session: SessionIndex) -> Option<
    EraIndex,
>
    decreases eras.len(),
{
    if eras.len() == 0 {
        None
    } else if eras.last().1 <= session {
        Some(eras.last().0)
    } else {
        spec_scan_bonded(eras.drop_last(), session)
    }
}

/// Where an offence reported at `slash_session` is attributed.
pub open spec fn spec_resolved_slash_era(s: &Staking, slash_session: SessionIndex) -> Option<
    EraIndex,
> {
    match s.active_era {
        None => None,
        Some(info) => {
            let start = match s.eras_start_session_index.spec_get(info.index as u64) {
                Some(x) => x,
                None => 0,
            };
            if slash_session >= start {
                Some(info.index)
            } else {
                spec_scan_bonded(s.bonded_eras@, slash_session)
            }
        },
    }
}

/// The slash taken from one stake value: the offence fraction of it,
/// rounded down.
pub open spec fn spec_slash_of(parts: int, value: int) -> int {
    spec_ratio_floor(value, parts, BILLION as int)
}

/// The total slashed across a validator's own stake and its nominators,
/// saturating at the balance type.
pub open spec fn spec_slashed_total(parts: int, own: int, others: Seq<IndividualExposure>) -> int
    decreases others.len(),
{
    if others.len() == 0 {
        spec_slash_of(parts, own)
    } else {
        vstd::math::min(
            spec_slashed_total(parts, own, others.drop_last()) + spec_slash_of(
                parts,
                others.last().value as int,
            ),
            u64::MAX as int,
        )
    }
}


/// The fields of a computed slash record for one offence.
pub open spec fn spec_is_computed_slash(
    u: UnappliedSlash,
    fraction: Perbill,
    offender: AccountId,
    exposure: Exposure,
    reporters: Seq<AccountId>,
    reward_proportion: Perbill,
) -> bool {
    &&& u.validator == offender
    &&& u.own as int == spec_slash_of(fraction.spec_parts(), exposure.own as int)
    &&& u.others@.len() == exposure.others@.len()
    &&& forall|k: int|
        0 <= k < u.others@.len() ==> (#[trigger] u.others@[k]).who == exposure.others@[k].who
            && u.others@[k].value as int == spec_slash_of(
            fraction.spec_parts(),
            exposure.others@[k].value as int,
        )
    &&& u.reporters@ == reporters
    &&& u.payout as int == spec_ratio_floor(
        spec_slashed_total(fraction.spec_parts(), exposure.own as int, exposure.others@),
        reward_proportion.spec_parts(),
        BILLION as int,
    )
}

/// Whether two stashes resolve to the same controller ledger.
pub open spec fn spec_same_controller(s: &Staking, a: AccountId, b: AccountId) -> bool {
    match (s.bonded.spec_get(a), s.bonded.spec_get(b)) {
        (Some(x), Some(y)) => x == y,
        _ => false,
    }
}

/// All the ledgers a slash record touches are distinct, and so are its
/// reporters; under aliasing the per-account effects compound and only the
/// frame is stated.
pub open spec fn spec_slash_targets_distinct(s: &Staking, u: UnappliedSlash) -> bool {
    &&& (forall|i: int, j: int|
        0 <= i < j < u.others@.len() ==> !spec_same_controller(
            s,
            (#[trigger] u.others@[i]).who,
            (#[trigger] u.others@[j]).who,
        ))
    &&& (forall|i: int|
        0 <= i < u.others@.len() ==> !spec_same_controller(s, u.validator, (
        #[trigger] u.others@[i]).who))
    &&& (forall|i: int, j: int|
        0 <= i < j < u.reporters@.len() ==> #[trigger] u.reporters@[i] != #[trigger] u.reporters@[j])
}

/// What one stash actually loses to a slash of `value`: its active stake,
/// as far as it reaches, or nothing when it has no bond or ledger.
pub open spec fn spec_slash_taken(s: &Staking, who: AccountId, value: Balance) -> int {
    match s.bonded.spec_get(who) {
        Some(c) => match s.ledgers.spec_get(c) {
            Some(l) => vstd::math::min(value as int, l.active as int),
            None => 0,
        },
        None => 0,
    }
}

/// The ledger one stash is left with after a slash of `value`; nothing
/// changes when it has no bond or ledger.
pub open spec fn spec_slashed_ledger_ok(s: &Staking, post: &Staking, who: AccountId, value: Balance) -> bool {
    match s.bonded.spec_get(who) {
        Some(c) => match s.ledgers.spec_get(c) {
            Some(l) => post.ledgers.spec_get(c) == Some(
                StakingLedger {
                    stash: l.stash,
                    total: vstd::math::max(
                        l.total as int - vstd::math::min(value as int, l.active as int),
                        0,
                    ) as u64,
                    active: (l.active as int - vstd::math::min(
                        value as int,
                        l.active as int,
                    )) as u64,
                    claimed_rewards: l.claimed_rewards,
                },
            ),
            None => true,
        },
        None => true,
    }
}

/// The total a slash record takes out of circulation, summed over the
/// offender and the listed nominators against the pre-slash ledgers.
pub open spec fn spec_slash_taken_sum(s: &Staking, u: UnappliedSlash, upto: int) -> int
    decreases upto,
{
    if upto <= 0 {
        spec_slash_taken(s, u.validator, u.own)
    } else {
        spec_slash_taken_sum(s, u, upto - 1) + spec_slash_taken(
            s,
            u.others@[upto - 1].who,
            u.others@[upto - 1].value,
        )
    }
}

/// The slashed total reads only bonds and ledgers, so states that agree on
/// them agree on it.
proof fn lemma_slash_taken_sum_congruent(a: &Staking, b: &Staking, u: UnappliedSlash, upto: int)
    requires
        a.bonded == b.bonded,
        a.ledgers == b.ledgers,
    ensures
        spec_slash_taken_sum(a, u, upto) == spec_slash_taken_sum(b, u, upto),
    decreases upto,
{
    if upto > 0 {
        lemma_slash_taken_sum_congruent(a, b, u, upto - 1);
    }
}

/// The count of effective offences grows with the scanned range.
proof fn lemma_effective_count_mono(
    s: &Staking,
    offenders: Seq<OffenceDetails>,
    fractions: Seq<Perbill>,
    a: int,
    b: int,
)
    requires
        0 <= a <= b,
    ensures
        spec_effective_count(s, offenders, fractions, a) <= spec_effective_count(
            s,
            offenders,
            fractions,
            b,
        ),
    decreases b,
{
    if b > a {
        lemma_effective_count_mono(s, offenders, fractions, a, b - 1);
    }
}

/// Scanning one more offence that produced no record does not change which
/// accounts the report slashes.
proof fn lemma_any_effective_unchanged(
    s: &Staking,
    offenders: Seq<OffenceDetails>,
    fractions: Seq<Perbill>,
    i: int,
    x: AccountId,
)
    requires
        0 <= i < offenders.len(),
        !spec_offence_effective_at(s, offenders, fractions, i),
    ensures
        (exists|ii: int|
            0 <= ii < i + 1 && (#[trigger] offenders[ii]).offender == x
                && spec_offence_effective_at(s, offenders, fractions, ii)) == (exists|ii: int|
            0 <= ii < i && (#[trigger] offenders[ii]).offender == x && spec_offence_effective_at(
                s,
                offenders,
                fractions,
                ii,
            )),
{
    if exists|ii: int|
        0 <= ii < i + 1 && (#[trigger] offenders[ii]).offender == x && spec_offence_effective_at(
            s,
            offenders,
            fractions,
            ii,
        ) {
        let ii = choose|ii: int|
            0 <= ii < i + 1 && (#[trigger] offenders[ii]).offender == x
                && spec_offence_effective_at(s, offenders, fractions, ii);
        assert(ii != i);
    }
}

/// Compute the slash record for one reported offence: the offender loses the
/// offence fraction of its own stake, each exposed nominator the same
/// fraction of its portion, and a reward share of the total is set aside for
/// the reporters. No record is produced when nothing would be slashed.
pub fn compute_slash(
    fraction: Perbill,
    offender: AccountId,
    exposure: &Exposure,
    reporters: &Vec<AccountId>,
    reward_proportion: Perbill,
) -> (r: Option<UnappliedSlash>)
    requires
        fraction.wf(),
        reward_proportion.wf(),
    ensures
        r is None <==> spec_slashed_total(
            fraction.spec_parts(),
            exposure.own as int,
            exposure.others@,
        ) == 0,
        (match r {
            Some(u) => spec_is_computed_slash(
                u,
                fraction,
                offender,
                *exposure,
                reporters@,
                reward_proportion,
            ),
            None => true,
        }),
{
    let own_slash = fraction.mul_floor(exposure.own);
    let mut total: u64 = own_slash;
    let mut slashed_others: Vec<IndividualExposure> = Vec::with_capacity(exposure.others.len());
    let n = exposure.others.len();
    let mut i: usize = 0;
    while i < n
        invariant
            n == exposure.others@.len(),
            i <= n,
            fraction.wf(),
            own_slash as int == spec_slash_of(fraction.spec_parts(), exposure.own as int),
            total as int == spec_slashed_total(
                fraction.spec_parts(),
                exposure.own as int,
                exposure.others@.take(i as int),
            ),
            slashed_others@.len() == i,
            forall|k: int|
                0 <= k < i ==> (#[trigger] slashed_others@[k]).who == exposure.others@[k].who
                    && slashed_others@[k].value as int == spec_slash_of(
                    fraction.spec_parts(),
                    exposure.others@[k].value as int,
                ),
        decreases n - i,
    {
        let entry = exposure.others[i];
        let cut = fraction.mul_floor(entry.value);
        slashed_others.push(IndividualExposure { who: entry.who, value: cut });
        total = total.saturating_add(cut);
        proof {
            let taken = exposure.others@.take(i as int);
            let taken1 = exposure.others@.take(i as int + 1);
            assert(taken1.drop_last() =~= taken);
            assert(taken1.last() == exposure.others@[i as int]);
        }
        i = i + 1;
    }
    proof {
        assert(exposure.others@.take(n as int) =~= exposure.others@);
    }
    if total == 0 {
        return None;
    }
    let payout = reward_proportion.mul_floor(total);
    let mut reporters_copy: Vec<AccountId> = Vec::with_capacity(reporters.len());
    let m = reporters.len();
    let mut j: usize = 0;
    while j < m
        invariant
            m == reporters@.len(),
            j <= m,
            reporters_copy@ == reporters@.take(j as int),
        decreases m - j,
    {
        reporters_copy.push(reporters[j]);
        proof {
            assert(reporters@.take(j as int + 1) =~= reporters@.take(j as int).push(
                reporters@[j as int],
            ));
        }
        j = j + 1;
    }
    proof {
        assert(reporters@.take(m as int) =~= reporters@);
    }
    Some(
        UnappliedSlash {
            validator: offender,
            own: own_slash,
            others: slashed_others,
            reporters: reporters_copy,
            payout,
        },
    )
}

impl Staking {
    /// Reduce one stash's bonded stake by `value`, as far as its active
    /// stake reaches, and burn the slashed amount from the issuance. A stash
    /// without a bond or a ledger is left alone.
    fn do_slash(&mut self, stash: AccountId, value: Balance)
        requires
            old(self).wf(),
        ensures
            final(self).wf(),
            (*final(self)) == (Staking {
                ledgers: final(self).ledgers,
                total_issuance: final(self).total_issuance,
                ..*old(self)
            }),
            (match old(self).bonded.spec_get(stash) {
                Some(controller) => (match old(self).ledgers.spec_get(controller) {
                    Some(l) => {
                        let slashed = vstd::math::min(value as int, l.active as int);
                        &&& final(self).ledgers.spec_get(controller) == Some(
                            StakingLedger {
                                stash: l.stash,
                                total: vstd::math::max(l.total as int - slashed, 0) as u64,
                                active: (l.active - slashed) as u64,
                                claimed_rewards: l.claimed_rewards,
                            },
                        )
                        &&& forall|k: u64|
                            k != controller ==> final(self).ledgers.spec_get(k) == old(self).ledgers.spec_get(k)
                        &&& final(self).total_issuance as int == vstd::math::max(
                            old(self).total_issuance as int - slashed,
                            0,
                        )
                    },
                    None => {
                        &&& final(self).ledgers@ == old(self).ledgers@
                        &&& final(self).total_issuance == old(self).total_issuance
                    },
                }),
                None => {
                    &&& final(self).ledgers@ == old(self).ledgers@
                    &&& final(self).total_issuance == old(self).total_issuance
                },
            }),
    {
        let controller = match self.bonded.get(stash) {
            Some(c) => *c,
            None => {
                return ;
            },
        };
        let ledger = match self.ledgers.take(controller) {
            Some(l) => l,
            None => {
                return ;
            },
        };
        proof {
            let v = self.ledgers@;
            let o = old(self).ledgers@;
            let idx = old(self).ledgers.key_index(controller);
            assert forall|m: int| 0 <= m < v.len() implies (#[trigger] v[m]).1.wf() by {
                if m < idx {
                    assert(v[m] == o[m]);
                } else {
                    assert(v[m] == o[m + 1]);
                }
            }
        }
        let slashed = if value < ledger.active {
            value
        } else {
            ledger.active
        };
        let updated = StakingLedger {
            active: ledger.active - slashed,
            total: ledger.total.saturating_sub(slashed),
            ..ledger
        };
        self.update_ledger(controller, updated);
        self.total_issuance = self.total_issuance.saturating_sub(slashed);
    }

    /// Pay the offence's reporters their reward: an equal floor share of the
    /// set-aside payout is minted for each.
    fn pay_reporters(&mut self, reward: Balance, reporters: &Vec<AccountId>)
        requires
            old(self).wf(),
        ensures
            final(self).wf(),
            (*final(self)) == (Staking {
                balances: final(self).balances,
                total_issuance: final(self).total_issuance,
                ..*old(self)
            }),
            reporters@.len() == 0 ==> {
                &&& final(self).balances@ == old(self).balances@
                &&& final(self).total_issuance == old(self).total_issuance
            },
            (forall|i: int, j: int|
                0 <= i < j < reporters@.len() ==> #[trigger] reporters@[i]
                    != #[trigger] reporters@[j]) && reporters@.len() > 0 ==> {
                let share = reward as int / reporters@.len() as int;
                &&& forall|i: int|
                    0 <= i < reporters@.len() ==> final(self).balances.spec_get(
                        #[trigger] reporters@[i],
                    ) == Some(
                        vstd::math::min(
                            (match old(self).balances.spec_get(reporters@[i]) {
                                Some(b) => b as int,
                                None => 0,
                            }) + share,
                            u64::MAX as int,
                        ) as u64,
                    )
                &&& forall|x: u64|
                    !reporters@.contains(x) ==> final(self).balances.spec_get(x) == old(
                        self,
                    ).balances.spec_get(x)
                &&& final(self).total_issuance as int == vstd::math::min(
                    old(self).total_issuance as int + reporters@.len() * share,
                    u64::MAX as int,
                )
            },
    {
        let n = reporters.len();
        if n == 0 {
            return ;
        }
        let share = reward / (n as u64);
        let ghost dist = forall|i: int, j: int|
            0 <= i < j < reporters@.len() ==> #[trigger] reporters@[i] != #[trigger] reporters@[j];
        let mut i: usize = 0;
        while i < n
            invariant
                self.wf(),
                (*self) == (Staking {
                    balances: self.balances,
                    total_issuance: self.total_issuance,
                    ..*old(self)
                }),
                n == reporters@.len(),
                i <= n,
                share as int == reward as int / n as int,
                dist == (forall|a: int, b: int|
                    0 <= a < b < reporters@.len() ==> #[trigger] reporters@[a]
                        != #[trigger] reporters@[b]),
                self.total_issuance as int == vstd::math::min(
                    old(self).total_issuance as int + i * share as int,
                    u64::MAX as int,
                ),
                dist ==> forall|m: int|
                    0 <= m < i ==> self.balances.spec_get(#[trigger] reporters@[m]) == Some(
                        vstd::math::min(
                            (match old(self).balances.spec_get(reporters@[m]) {
                                Some(b) => b as int,
                                None => 0,
                            }) + share as int,
                            u64::MAX as int,
                        ) as u64,
                    ),
                forall|x: u64|
                    !reporters@.take(i as int).contains(x) ==> #[trigger] self.balances.spec_get(x)
                        == old(self).balances.spec_get(x),
            decreases n - i,
        {
            let who = reporters[i];
            proof {
                assert(!reporters@.take(i as int).contains(who) ==> self.balances.spec_get(who)
                    == old(self).balances.spec_get(who));
            }
            let current = match self.balances.take(who) {
                Some(b) => b,
                None => 0,
            };
            self.balances.insert(who, current.saturating_add(share));
            self.total_issuance = self.total_issuance.saturating_add(share);
            proof {
                assert((i + 1) * share as int == i * share as int + share as int)
                    by (nonlinear_arith);
                if dist {
                    assert(!reporters@.take(i as int).contains(who)) by {
                        if reporters@.take(i as int).contains(who) {
                            let m = choose|m: int|
                                0 <= m < i && reporters@.take(i as int)[m] == who;
                            assert(reporters@[m] == reporters@[i as int]);
                        }
                    }
                }
                assert forall|x: u64|
                    !reporters@.take(i as int + 1).contains(x) implies #[trigger] self
                    .balances.spec_get(x) == old(self).balances.spec_get(x) by {
                    assert(reporters@.take(i as int + 1)[i as int] == who);
                    assert(x != who);
                    assert(!reporters@.take(i as int).contains(x)) by {
                        if reporters@.take(i as int).contains(x) {
                            let m = choose|m: int|
                                0 <= m < i && reporters@.take(i as int)[m] == x;
                            assert(reporters@.take(i as int + 1)[m] == x);
                        }
                    }
                }
            }
            i = i + 1;
        }
        proof {
            assert forall|x: u64| !reporters@.contains(x) implies #[trigger] self
                .balances.spec_get(x) == old(self).balances.spec_get(x) by {
                assert(!reporters@.take(n as int).contains(x)) by {
                    if reporters@.take(n as int).contains(x) {
                        let m = choose|m: int| 0 <= m < n && reporters@.take(n as int)[m] == x;
                        assert(reporters@[m] == x);
                    }
                }
            }
        }
    }

    /// Apply one previously computed slash record: reduce the offender's and
    /// the affected nominators' bonded stake, and pay the reporters their
    /// share. The record is consumed; application is at most once because the
    /// caller removed it from its queue. When the touched ledgers and the
    /// reporters are pairwise distinct the exact per-account effects are
    /// stated; under aliasing the effects compound and only the frame holds.
    pub fn apply_slash(&mut self, unapplied: UnappliedSlash)
        requires
            old(self).wf(),
        ensures
            final(self).wf(),
            (*final(self)) == (Staking {
                ledgers: final(self).ledgers,
                balances: final(self).balances,
                total_issuance: final(self).total_issuance,
                ..*old(self)
            }),
            spec_slash_targets_distinct(old(self), unapplied) ==> {
                let taken = spec_slash_taken_sum(
                    old(self),
                    unapplied,
                    unapplied.others@.len() as int,
                );
                let n_rep = unapplied.reporters@.len() as int;
                let share: int = if n_rep > 0 {
                    unapplied.payout as int / n_rep
                } else {
                    0
                };
                &&& spec_slashed_ledger_ok(
                    old(self),
                    final(self),
                    unapplied.validator,
                    unapplied.own,
                )
                &&& forall|i: int|
                    0 <= i < unapplied.others@.len() ==> spec_slashed_ledger_ok(
                        old(self),
                        final(self),
                        (#[trigger] unapplied.others@[i]).who,
                        unapplied.others@[i].value,
                    )
                &&& final(self).total_issuance as int == vstd::math::min(
                    vstd::math::max(old(self).total_issuance as int - taken, 0) + n_rep * share,
                    u64::MAX as int,
                )
                &&& forall|i: int|
                    0 <= i < unapplied.reporters@.len() ==> final(self).balances.spec_get(
                        #[trigger] unapplied.reporters@[i],
                    ) == Some(
                        vstd::math::min(
                            (match old(self).balances.spec_get(unapplied.reporters@[i]) {
                                Some(b) => b as int,
                                None => 0,
                            }) + share,
                            u64::MAX as int,
                        ) as u64,
                    )
                &&& forall|x: u64|
                    !unapplied.reporters@.contains(x) ==> final(self).balances.spec_get(x) == old(
                        self,
                    ).balances.spec_get(x)
            },
    {
        let ghost dist = spec_slash_targets_distinct(old(self), unapplied);
        self.do_slash(unapplied.validator, unapplied.own);
        let n = unapplied.others.len();
        let mut i: usize = 0;
        while i < n
            invariant
                self.wf(),
                (*self) == (Staking {
                    ledgers: self.ledgers,
                    balances: self.balances,
                    total_issuance: self.total_issuance,
                    ..*old(self)
                }),
                n == unapplied.others@.len(),
                i <= n,
                self.balances@ == old(self).balances@,
                dist == spec_slash_targets_distinct(old(self), unapplied),
                dist ==> {
                    &&& self.total_issuance as int == vstd::math::max(
                        old(self).total_issuance as int - spec_slash_taken_sum(
                            old(self),
                            unapplied,
                            i as int,
                        ),
                        0,
                    )
                    &&& spec_slashed_ledger_ok(old(self), self, unapplied.validator, unapplied.own)
                    &&& (forall|m: int|
                        0 <= m < i ==> spec_slashed_ledger_ok(
                            old(self),
                            self,
                            (#[trigger] unapplied.others@[m]).who,
                            unapplied.others@[m].value,
                        ))
                    &&& (forall|c: u64|
                        old(self).bonded.spec_get(unapplied.validator) != Some(c) && (forall|m: int|
                            0 <= m < i ==> old(self).bonded.spec_get(
                                (#[trigger] unapplied.others@[m]).who,
                            ) != Some(c)) ==> #[trigger] self.ledgers.spec_get(c) == old(
                            self,
                        ).ledgers.spec_get(c))
                },
            decreases n - i,
        {
            let entry = unapplied.others[i];
            let ghost pre = *self;
            self.do_slash(entry.who, entry.value);
            proof {
                if dist {
                    // this stash's ledger was untouched so far, so the
                    // effect reads against the original state
                    match old(self).bonded.spec_get(entry.who) {
                        Some(c) => {
                            assert(old(self).bonded.spec_get(unapplied.validator) != Some(c));
                            assert(forall|m: int|
                                0 <= m < i ==> old(self).bonded.spec_get(
                                    (#[trigger] unapplied.others@[m]).who,
                                ) != Some(c));
                            assert(pre.ledgers.spec_get(c) == old(self).ledgers.spec_get(c));
                        },
                        None => {},
                    }
                    assert(spec_slash_taken(&pre, entry.who, entry.value) == spec_slash_taken(
                        old(self),
                        entry.who,
                        entry.value,
                    ));
                }
            }
            i = i + 1;
        }
        self.pay_reporters(unapplied.payout, &unapplied.reporters);
    }

    /// Apply previously-unapplied slashes on the beginning of a new era,
    /// after the defer delay: drain and apply every queued slash for eras
    /// strictly older than the keep-from cutoff, then advance the watermark
    /// to the cutoff, never regressing it.
    pub fn apply_unapplied_slashes(&mut self, active_era: EraIndex)
        requires
            old(self).wf(),
        ensures
            final(self).wf(),
            spec_applies_pending(*old(self), *final(self), active_era),
            (*final(self)) == (Staking {
                ledgers: final(self).ledgers,
                balances: final(self).balances,
                total_issuance: final(self).total_issuance,
                unapplied_slashes: final(self).unapplied_slashes,
                earliest_unapplied_slash: final(self).earliest_unapplied_slash,
                ..*old(self)
            }),
    {
        let defer = self.config.slash_defer_duration;
        let keep_from: EraIndex = if active_era >= defer {
            active_era - defer
        } else {
            0
        };
        let earliest = match self.earliest_unapplied_slash {
            Some(e) => e,
            None => {
                return ;
            },
        };
        let mut era = earliest;
        while era < keep_from
            invariant
                self.wf(),
                earliest <= era,
                era <= keep_from || era == earliest,
                keep_from as int == spec_keep_from(active_era, old(self).config.slash_defer_duration),
                (*self) == (Staking {
                    ledgers: self.ledgers,
                    balances: self.balances,
                    total_issuance: self.total_issuance,
                    unapplied_slashes: self.unapplied_slashes,
                    ..*old(self)
                }),
                forall|k: EraIndex|
                    earliest <= k < era ==> !self.unapplied_slashes.spec_contains_key(
                        #[trigger] (k as u64),
                    ),
                forall|k: EraIndex|
                    !(earliest <= k < era) ==> self.unapplied_slashes.spec_get(
                        #[trigger] (k as u64),
                    ) == old(self).unapplied_slashes.spec_get(k as u64),
            decreases keep_from - era,
        {
            match self.unapplied_slashes.take(era as u64) {
                Some(mut era_slashes) => {
                    while era_slashes.len() > 0
                        invariant
                            self.wf(),
                            (*self) == (Staking {
                                ledgers: self.ledgers,
                                balances: self.balances,
                                total_issuance: self.total_issuance,
                                unapplied_slashes: self.unapplied_slashes,
                                ..*old(self)
                            }),
                            forall|k: EraIndex|
                                earliest <= k <= era ==> !self.unapplied_slashes.spec_contains_key(
                                    #[trigger] (k as u64),
                                ),
                            forall|k: EraIndex|
                                !(earliest <= k <= era) ==> self.unapplied_slashes.spec_get(
                                    #[trigger] (k as u64),
                                ) == old(self).unapplied_slashes.spec_get(k as u64),
                        decreases era_slashes@.len(),
                    {
                        let slash = match era_slashes.pop() {
                            Some(s) => s,
                            None => {
                                break ;
                            },
                        };
                        self.apply_slash(slash);
                    }
                },
                None => {},
            }
            era = era + 1;
        }
        let new_earliest = if earliest > keep_from {
            earliest
        } else {
            keep_from
        };
        self.earliest_unapplied_slash = Some(new_earliest);
    }
}

/// A slash pending for era `e` is untouched by an era start within its defer
/// window, leaves the queue at the first era start past the window, and is
/// never queued at `e` again by later era starts: application happens
/// exactly once.
pub proof fn lemma_deferred_slash_applied_once(
    s0: Staking,
    s1: Staking,
    s2: Staking,
    e: EraIndex,
    earliest: EraIndex,
    a1: EraIndex,
    a2: EraIndex,
)
    requires
        spec_applies_pending(s0, s1, a1),
        spec_applies_pending(s1, s2, a2),
        s1.config.slash_defer_duration == s0.config.slash_defer_duration,
        s0.earliest_unapplied_slash == Some(earliest),
        earliest <= e,
        s0.unapplied_slashes.spec_contains_key(e as u64),
    ensures
        e >= spec_keep_from(a1, s0.config.slash_defer_duration)
            ==> s1.unapplied_slashes.spec_get(e as u64) == s0.unapplied_slashes.spec_get(e as u64),
        e < spec_keep_from(a1, s0.config.slash_defer_duration) ==> {
            &&& !s1.unapplied_slashes.spec_contains_key(e as u64)
            &&& !s2.unapplied_slashes.spec_contains_key(e as u64)
        },
{
    let keep1 = spec_keep_from(a1, s0.config.slash_defer_duration);
    if e < keep1 {
        assert(!s1.unapplied_slashes.spec_contains_key(e as u64));
        let w1 = vstd::math::max(earliest as int, keep1) as EraIndex;
        assert(s1.earliest_unapplied_slash == Some(w1));
        assert(e < w1);
        let keep2 = spec_keep_from(a2, s1.config.slash_defer_duration);
        if w1 <= e < keep2 {
            assert(false);
        } else {
            assert(s2.unapplied_slashes.spec_get(e as u64) == s1.unapplied_slashes.spec_get(
                e as u64,
            ));
            assert(!s2.unapplied_slashes.spec_contains_key(e as u64)) by {
                if s2.unapplied_slashes.spec_contains_key(e as u64) {
                    assert(s2.unapplied_slashes.spec_get(e as u64) is Some);
                }
            }
        }
    }
}


/// Whether a reported offender leads to no slash at all: it is invulnerable,
/// or the offence fraction of its whole exposure rounds down to nothing.
pub open spec fn spec_offence_ineffective(s: &Staking, d: OffenceDetails, fraction: Perbill) -> bool {
    ||| s.invulnerables@.contains(d.offender)
    ||| spec_slashed_total(fraction.spec_parts(), d.exposure.own as int, d.exposure.others@) == 0
}

/// Whether the offence at position `i` of a report produces a slash record.
pub open spec fn spec_offence_effective_at(
    s: &Staking,
    offenders: Seq<OffenceDetails>,
    fractions: Seq<Perbill>,
    i: int,
) -> bool {
    !spec_offence_ineffective(s, offenders[i], fractions[i])
}

/// How many of the first `upto` offences of a report produce a record.
pub open spec fn spec_effective_count(
    s: &Staking,
    offenders: Seq<OffenceDetails>,
    fractions: Seq<Perbill>,
    upto: int,
) -> int
    decreases upto,
{
    if upto <= 0 {
        0
    } else {
        spec_effective_count(s, offenders, fractions, upto - 1) + (if spec_offence_effective_at(
            s,
            offenders,
            fractions,
            upto - 1,
        ) {
            1int
        } else {
            0int
        })
    }
}

/// Whether some offence of the report slashes `x`.
pub open spec fn spec_any_effective_for(
    s: &Staking,
    offenders: Seq<OffenceDetails>,
    fractions: Seq<Perbill>,
    x: AccountId,
) -> bool {
    exists|i: int|
        0 <= i < offenders.len() && (#[trigger] offenders[i]).offender == x
            && spec_offence_effective_at(s, offenders, fractions, i)
}

/// The ledgers one offence touches are distinct, and so are its reporters.
pub open spec fn spec_offence_targets_distinct(s: &Staking, d: OffenceDetails) -> bool {
    &&& (forall|i: int, j: int|
        0 <= i < j < d.exposure.others@.len() ==> !spec_same_controller(
            s,
            (#[trigger] d.exposure.others@[i]).who,
            (#[trigger] d.exposure.others@[j]).who,
        ))
    &&& (forall|i: int|
        0 <= i < d.exposure.others@.len() ==> !spec_same_controller(s, d.offender, (
        #[trigger] d.exposure.others@[i]).who))
    &&& (forall|i: int, j: int|
        0 <= i < j < d.reporters@.len() ==> #[trigger] d.reporters@[i]
            != #[trigger] d.reporters@[j])
}

/// Whether an account is in a list.
fn contains_account(v: &Vec<AccountId>, who: AccountId) -> (r: bool)
    ensures
        r == v@.contains(who),
{
    let n = v.len();
    let mut i: usize = 0;
    while i < n
        invariant
            n == v@.len(),
            i <= n,
            forall|m: int| 0 <= m < i ==> v@[m] != who,
        decreases n - i,
    {
        if v[i] == who {
            return true;
        }
        i = i + 1;
    }
    false
}

impl Staking {
    /// Handle a batch of offence reports from the misbehaviour-reporting
    /// layer: attribute them to the era the offence happened in, compute one
    /// slash per vulnerable offender, and apply it at once when no defer
    /// delay is configured, else queue it under the offence's era. Offenders
    /// are marked for disabling per the strategy; the consumed cost is
    /// registered and returned.
    #[verifier::rlimit(100)]
    #[verifier::spinoff_prover]
    pub fn on_offence(
        &mut self,
        offenders: &Vec<OffenceDetails>,
        slash_fractions: &Vec<Perbill>,
        slash_session: SessionIndex,
        disable_strategy: DisableStrategy,
    ) -> (r: Weight)
        requires
            old(self).wf(),
            slash_fractions@.len() == offenders@.len(),
            forall|m: int| 0 <= m < slash_fractions@.len() ==> (#[trigger] slash_fractions@[m]).wf(),
        ensures
            final(self).wf(),
            (*final(self)) == (Staking {
                unapplied_slashes: final(self).unapplied_slashes,
                earliest_unapplied_slash: final(self).earliest_unapplied_slash,
                last_nonzero_slash: final(self).last_nonzero_slash,
                offending_validators: final(self).offending_validators,
                ledgers: final(self).ledgers,
                balances: final(self).balances,
                total_issuance: final(self).total_issuance,
                consumed_weight: final(self).consumed_weight,
                ..*old(self)
            }),
            (match spec_resolved_slash_era(old(self), slash_session) {
                None => {
                    &&& final(self).unapplied_slashes@ == old(self).unapplied_slashes@
                    &&& final(self).earliest_unapplied_slash == old(self).earliest_unapplied_slash
                    &&& final(self).ledgers@ == old(self).ledgers@
                    &&& final(self).balances@ == old(self).balances@
                },
                Some(e) => {
                    &&& (old(self).config.slash_defer_duration > 0 ==> final(self).earliest_unapplied_slash == (match old(self).earliest_unapplied_slash {
                        Some(x) => Some(x),
                        None => Some(e),
                    }))
                    &&& (old(self).config.slash_defer_duration == 0 ==> {
                        &&& final(self).earliest_unapplied_slash == old(self).earliest_unapplied_slash
                        &&& final(self).unapplied_slashes@ == old(self).unapplied_slashes@
                    })
                    &&& (old(self).config.slash_defer_duration > 0 ==> {
                        &&& forall|k: u64|
                            k != e as u64 ==> #[trigger] final(self).unapplied_slashes.spec_get(k)
                                == old(self).unapplied_slashes.spec_get(k)
                        &&& (match final(self).unapplied_slashes.spec_get(e as u64) {
                            Some(q) => {
                                &&& q@.len() == spec_queue_at(old(self), e).len()
                                    + spec_effective_count(
                                    old(self),
                                    offenders@,
                                    slash_fractions@,
                                    offenders@.len() as int,
                                )
                                &&& forall|m: int|
                                    0 <= m < spec_queue_at(old(self), e).len() ==> #[trigger] q@[m]
                                        == spec_queue_at(old(self), e)[m]
                                &&& forall|i: int|
                                    0 <= i < offenders@.len() && spec_offence_effective_at(
                                        old(self),
                                        offenders@,
                                        slash_fractions@,
                                        i,
                                    ) ==> spec_is_computed_slash(
                                        q@[spec_queue_at(old(self), e).len()
                                            + spec_effective_count(
                                            old(self),
                                            offenders@,
                                            slash_fractions@,
                                            i,
                                        )],
                                        slash_fractions@[i],
                                        (#[trigger] offenders@[i]).offender,
                                        offenders@[i].exposure,
                                        offenders@[i].reporters@,
                                        old(self).slash_reward_fraction,
                                    )
                            },
                            None => {
                                &&& !old(self).unapplied_slashes.spec_contains_key(e as u64)
                                &&& spec_effective_count(
                                    old(self),
                                    offenders@,
                                    slash_fractions@,
                                    offenders@.len() as int,
                                ) == 0
                            },
                        })
                    })
                    &&& forall|x: u64| #[trigger] final(self).last_nonzero_slash.spec_get(x) == (
                    if spec_any_effective_for(old(self), offenders@, slash_fractions@, x) {
                        (match old(self).last_nonzero_slash.spec_get(x) {
                            Some(prev) => Some(vstd::math::max(prev as int, e as int) as u32),
                            None => Some(e),
                        })
                    } else {
                        old(self).last_nonzero_slash.spec_get(x)
                    })
                    &&& (old(self).config.slash_defer_duration == 0 && offenders@.len() == 1
                        && spec_offence_effective_at(old(self), offenders@, slash_fractions@, 0)
                        && spec_offence_targets_distinct(old(self), offenders@[0]) ==> (
                    exists|u: UnappliedSlash|
                        {
                            &&& #[trigger] spec_is_computed_slash(
                                u,
                                slash_fractions@[0],
                                offenders@[0].offender,
                                offenders@[0].exposure,
                                offenders@[0].reporters@,
                                old(self).slash_reward_fraction,
                            )
                            &&& spec_slashed_ledger_ok(old(self), final(self), u.validator, u.own)
                            &&& (forall|m: int|
                                0 <= m < u.others@.len() ==> spec_slashed_ledger_ok(
                                    old(self),
                                    final(self),
                                    (#[trigger] u.others@[m]).who,
                                    u.others@[m].value,
                                ))
                            &&& final(self).total_issuance as int == vstd::math::min(
                                vstd::math::max(
                                    old(self).total_issuance as int - spec_slash_taken_sum(
                                        old(self),
                                        u,
                                        u.others@.len() as int,
                                    ),
                                    0,
                                ) + u.reporters@.len() * (if u.reporters@.len() > 0 {
                                    u.payout as int / u.reporters@.len() as int
                                } else {
                                    0int
                                }),
                                u64::MAX as int,
                            )
                        }
                    ))
                },
            }),
    {
        let reward_proportion = self.slash_reward_fraction;
        let mut consumed: u64 = 1;
        let active = match self.active_era {
            Some(info) => info.index,
            None => {
                self.register_weight(consumed);
                return consumed;
            },
        };
        let start = match self.eras_start_session_index.get(active as u64) {
            Some(x) => *x,
            None => 0,
        };
        consumed = consumed.saturating_add(1);
        let slash_era: EraIndex = if slash_session >= start {
            active
        } else {
            consumed = consumed.saturating_add(1);
            let n_eras = self.bonded_eras.len();
            proof {
                assert(self.bonded_eras@.take(n_eras as int) =~= self.bonded_eras@);
            }
            let mut idx: usize = n_eras;
            let mut found: Option<EraIndex> = None;
            while idx > 0 && found.is_none()
                invariant
                    idx <= n_eras,
                    n_eras == self.bonded_eras@.len(),
                    (match found {
                        Some(f) => spec_scan_bonded(self.bonded_eras@, slash_session) == Some(f),
                        None => spec_scan_bonded(self.bonded_eras@, slash_session)
                            == spec_scan_bonded(
                            self.bonded_eras@.take(idx as int),
                            slash_session,
                        ),
                    }),
                decreases idx,
            {
                idx = idx - 1;
                proof {
                    assert(self.bonded_eras@.take(idx as int + 1).drop_last() =~= self
                        .bonded_eras@.take(idx as int));
                    assert(self.bonded_eras@.take(idx as int + 1).last() == self.bonded_eras@[
                        idx as int
                    ]);
                }
                if self.bonded_eras[idx].1 <= slash_session {
                    found = Some(self.bonded_eras[idx].0);
                }
            }
            match found {
                Some(e) => e,
                None => {
                    proof {
                        assert(self.bonded_eras@.take(0) =~= Seq::<(EraIndex, SessionIndex)>::empty());
                    }
                    self.register_weight(consumed);
                    return consumed;
                },
            }
        };
        let defer = self.config.slash_defer_duration;
        if defer > 0 && self.earliest_unapplied_slash.is_none() {
            self.earliest_unapplied_slash = Some(slash_era);
        }
        consumed = consumed.saturating_add(2);
        let ghost base = *self;
        let n = offenders.len();
        let mut i: usize = 0;
        while i < n
            invariant
                self.wf(),
                n == offenders@.len(),
                n == slash_fractions@.len(),
                forall|m: int|
                    0 <= m < slash_fractions@.len() ==> (#[trigger] slash_fractions@[m]).wf(),
                i <= n,
                reward_proportion == old(self).slash_reward_fraction,
                reward_proportion.wf(),
                defer == old(self).config.slash_defer_duration,
                base == (Staking {
                    earliest_unapplied_slash: base.earliest_unapplied_slash,
                    ..*old(self)
                }),
                (*self) == (Staking {
                    unapplied_slashes: self.unapplied_slashes,
                    last_nonzero_slash: self.last_nonzero_slash,
                    offending_validators: self.offending_validators,
                    ledgers: self.ledgers,
                    balances: self.balances,
                    total_issuance: self.total_issuance,
                    ..base
                }),
                i == 0 ==> {
                    &&& self.ledgers == old(self).ledgers
                    &&& self.balances == old(self).balances
                    &&& self.total_issuance == old(self).total_issuance
                },
                defer == 0 ==> self.unapplied_slashes@ == old(self).unapplied_slashes@,
                defer > 0 ==> forall|k: u64|
                    k != slash_era as u64 ==> #[trigger] self.unapplied_slashes.spec_get(k)
                        == old(self).unapplied_slashes.spec_get(k),
                defer > 0 ==> (match self.unapplied_slashes.spec_get(slash_era as u64) {
                    Some(q) => {
                        &&& q@.len() == spec_queue_at(old(self), slash_era).len()
                            + spec_effective_count(old(self), offenders@, slash_fractions@, i as int)
                        &&& forall|m: int|
                            0 <= m < spec_queue_at(old(self), slash_era).len() ==> #[trigger] q@[m]
                                == spec_queue_at(old(self), slash_era)[m]
                        &&& forall|ii: int|
                            0 <= ii < i && spec_offence_effective_at(
                                old(self),
                                offenders@,
                                slash_fractions@,
                                ii,
                            ) ==> spec_is_computed_slash(
                                q@[spec_queue_at(old(self), slash_era).len()
                                    + spec_effective_count(
                                    old(self),
                                    offenders@,
                                    slash_fractions@,
                                    ii,
                                )],
                                slash_fractions@[ii],
                                (#[trigger] offenders@[ii]).offender,
                                offenders@[ii].exposure,
                                offenders@[ii].reporters@,
                                old(self).slash_reward_fraction,
                            )
                    },
                    None => {
                        &&& !old(self).unapplied_slashes.spec_contains_key(slash_era as u64)
                        &&& spec_effective_count(
                            old(self),
                            offenders@,
                            slash_fractions@,
                            i as int,
                        ) == 0
                    },
                }),
                forall|x: u64| #[trigger] self.last_nonzero_slash.spec_get(x) == (if (
                exists|ii: int|
                    0 <= ii < i && (#[trigger] offenders@[ii]).offender == x
                        && spec_offence_effective_at(old(self), offenders@, slash_fractions@, ii)) {
                    (match old(self).last_nonzero_slash.spec_get(x) {
                        Some(prev) => Some(
                            vstd::math::max(prev as int, slash_era as int) as u32,
                        ),
                        None => Some(slash_era),
                    })
                } else {
                    old(self).last_nonzero_slash.spec_get(x)
                }),
                (defer == 0 && n == 1 && i == 1 && spec_offence_effective_at(
                    old(self),
                    offenders@,
                    slash_fractions@,
                    0,
                ) && spec_offence_targets_distinct(old(self), offenders@[0])) ==> (
                exists|u: UnappliedSlash|
                    {
                        &&& #[trigger] spec_is_computed_slash(
                            u,
                            slash_fractions@[0],
                            offenders@[0].offender,
                            offenders@[0].exposure,
                            offenders@[0].reporters@,
                            old(self).slash_reward_fraction,
                        )
                        &&& spec_slashed_ledger_ok(old(self), self, u.validator, u.own)
                        &&& (forall|m: int|
                            0 <= m < u.others@.len() ==> spec_slashed_ledger_ok(
                                old(self),
                                self,
                                (#[trigger] u.others@[m]).who,
                                u.others@[m].value,
                            ))
                        &&& self.total_issuance as int == vstd::math::min(
                            vstd::math::max(
                                old(self).total_issuance as int - spec_slash_taken_sum(
                                    old(self),
                                    u,
                                    u.others@.len() as int,
                                ),
                                0,
                            ) + u.reporters@.len() * (if u.reporters@.len() > 0 {
                                u.payout as int / u.reporters@.len() as int
                            } else {
                                0int
                            }),
                            u64::MAX as int,
                        )
                    }
                ),
                old(self).invulnerables@ == self.invulnerables@,
            decreases n - i,
        {
            let offender = offenders[i].offender;
            let vulnerable = !contains_account(&self.invulnerables, offender);
            proof {
                assert(spec_effective_count(old(self), offenders@, slash_fractions@, i as int + 1)
                    == spec_effective_count(old(self), offenders@, slash_fractions@, i as int) + (
                if spec_offence_effective_at(old(self), offenders@, slash_fractions@, i as int) {
                    1int
                } else {
                    0int
                }));
            }
            if vulnerable {
                let maybe_unapplied = compute_slash(
                    slash_fractions[i],
                    offender,
                    &offenders[i].exposure,
                    &offenders[i].reporters,
                    reward_proportion,
                );
                match maybe_unapplied {
                    Some(unapplied) => {
                        proof {
                            assert(spec_offence_effective_at(
                                old(self),
                                offenders@,
                                slash_fractions@,
                                i as int,
                            ));
                        }
                        consumed = consumed.saturating_add(3);
                        let disable = match disable_strategy {
                            DisableStrategy::Always => true,
                            DisableStrategy::WhenSlashed => true,
                            DisableStrategy::Never => false,
                        };
                        if disable {
                            self.offending_validators.push((offender, true));
                        }
                        let ghost lns_before = self.last_nonzero_slash;
                        let note_era = match self.last_nonzero_slash.take(offender) {
                            Some(prev) => if prev > slash_era {
                                prev
                            } else {
                                slash_era
                            },
                            None => slash_era,
                        };
                        self.last_nonzero_slash.insert(offender, note_era);
                        proof {
                            assert forall|x: u64| #[trigger] self.last_nonzero_slash.spec_get(x)
                                == (if (exists|ii: int|
                                0 <= ii < i + 1 && (#[trigger] offenders@[ii]).offender == x
                                    && spec_offence_effective_at(
                                    old(self),
                                    offenders@,
                                    slash_fractions@,
                                    ii,
                                )) {
                                (match old(self).last_nonzero_slash.spec_get(x) {
                                    Some(prev) => Some(
                                        vstd::math::max(prev as int, slash_era as int) as u32,
                                    ),
                                    None => Some(slash_era),
                                })
                            } else {
                                old(self).last_nonzero_slash.spec_get(x)
                            }) by {
                                if x == offender {
                                    assert(offenders@[i as int].offender == x);
                                } else {
                                    assert(self.last_nonzero_slash.spec_get(x)
                                        == lns_before.spec_get(x));
                                    if exists|ii: int|
                                        0 <= ii < i + 1 && (#[trigger] offenders@[ii]).offender
                                            == x && spec_offence_effective_at(
                                            old(self),
                                            offenders@,
                                            slash_fractions@,
                                            ii,
                                        ) {
                                        let ii = choose|ii: int|
                                            0 <= ii < i + 1 && (#[trigger] offenders@[ii]).offender
                                                == x && spec_offence_effective_at(
                                                old(self),
                                                offenders@,
                                                slash_fractions@,
                                                ii,
                                            );
                                        assert(ii < i);
                                    }
                                }
                            }
                        }
                        if defer == 0 {
                            let ghost record = unapplied;
                            let ghost pre_apply = *self;
                            self.apply_slash(unapplied);
                            proof {
                                if n == 1 && spec_offence_targets_distinct(
                                    old(self),
                                    offenders@[0],
                                ) {
                                    assert(spec_slash_targets_distinct(&pre_apply, record)) by {
                                        assert forall|a: int, b: int|
                                            0 <= a < b < record.others@.len() implies
                                            !spec_same_controller(
                                                &pre_apply,
                                                (#[trigger] record.others@[a]).who,
                                                (#[trigger] record.others@[b]).who,
                                            ) by {
                                            assert(record.others@[a].who
                                                == offenders@[0].exposure.others@[a].who);
                                            assert(record.others@[b].who
                                                == offenders@[0].exposure.others@[b].who);
                                        }
                                        assert forall|a: int|
                                            0 <= a < record.others@.len() implies
                                            !spec_same_controller(
                                                &pre_apply,
                                                record.validator,
                                                (#[trigger] record.others@[a]).who,
                                            ) by {
                                            assert(record.others@[a].who
                                                == offenders@[0].exposure.others@[a].who);
                                        }
                                    }
                                    assert(spec_slashed_ledger_ok(
                                        old(self),
                                        self,
                                        record.validator,
                                        record.own,
                                    ));
                                    assert(spec_slash_taken_sum(
                                        &pre_apply,
                                        record,
                                        record.others@.len() as int,
                                    ) == spec_slash_taken_sum(
                                        old(self),
                                        record,
                                        record.others@.len() as int,
                                    )) by {
                                        lemma_slash_taken_sum_congruent(
                                            &pre_apply,
                                            old(self),
                                            record,
                                            record.others@.len() as int,
                                        );
                                    }
                                }
                            }
                            consumed = consumed.saturating_add(5);
                        } else {
                            let mut queue = match self.unapplied_slashes.take(slash_era as u64) {
                                Some(q) => q,
                                None => Vec::new(),
                            };
                            let ghost queue_before = queue@;
                            queue.push(unapplied);
                            self.unapplied_slashes.insert(slash_era as u64, queue);
                            proof {
                                let base_len = spec_queue_at(old(self), slash_era).len() as int;
                                let cnt_i = spec_effective_count(
                                    old(self),
                                    offenders@,
                                    slash_fractions@,
                                    i as int,
                                );
                                lemma_effective_count_mono(
                                    old(self),
                                    offenders@,
                                    slash_fractions@,
                                    0,
                                    i as int,
                                );
                                assert(spec_effective_count(
                                    old(self),
                                    offenders@,
                                    slash_fractions@,
                                    0,
                                ) == 0);
                                if !old(self).unapplied_slashes.spec_contains_key(
                                    slash_era as u64,
                                ) {
                                    assert(spec_queue_at(old(self), slash_era)
                                        =~= Seq::<UnappliedSlash>::empty());
                                }
                                assert(queue_before.len() == base_len + cnt_i);
                                assert(queue@ == queue_before.push(unapplied));
                                assert(self.unapplied_slashes.spec_get(slash_era as u64) == Some(
                                    queue,
                                ));
                                assert forall|ii: int|
                                    0 <= ii < i + 1 && spec_offence_effective_at(
                                        old(self),
                                        offenders@,
                                        slash_fractions@,
                                        ii,
                                    ) implies spec_is_computed_slash(
                                    queue@[base_len + spec_effective_count(
                                        old(self),
                                        offenders@,
                                        slash_fractions@,
                                        ii,
                                    )],
                                    slash_fractions@[ii],
                                    (#[trigger] offenders@[ii]).offender,
                                    offenders@[ii].exposure,
                                    offenders@[ii].reporters@,
                                    old(self).slash_reward_fraction,
                                ) by {
                                    if ii < i {
                                        lemma_effective_count_mono(
                                            old(self),
                                            offenders@,
                                            slash_fractions@,
                                            ii + 1,
                                            i as int,
                                        );
                                        assert(spec_effective_count(
                                            old(self),
                                            offenders@,
                                            slash_fractions@,
                                            ii + 1,
                                        ) == spec_effective_count(
                                            old(self),
                                            offenders@,
                                            slash_fractions@,
                                            ii,
                                        ) + 1);
                                        lemma_effective_count_mono(
                                            old(self),
                                            offenders@,
                                            slash_fractions@,
                                            0,
                                            ii,
                                        );
                                        assert(spec_effective_count(
                                            old(self),
                                            offenders@,
                                            slash_fractions@,
                                            0,
                                        ) == 0);
                                        let idx = base_len + spec_effective_count(
                                            old(self),
                                            offenders@,
                                            slash_fractions@,
                                            ii,
                                        );
                                        assert(0 <= idx < queue_before.len());
                                        assert(queue@[idx] == queue_before[idx]);
                                    } else {
                                        assert(ii == i);
                                        assert(spec_effective_count(
                                            old(self),
                                            offenders@,
                                            slash_fractions@,
                                            ii,
                                        ) == cnt_i);
                                        assert(queue@[base_len + cnt_i] == unapplied);
                                    }
                                }
                                assert(queue@.len() == base_len + spec_effective_count(
                                    old(self),
                                    offenders@,
                                    slash_fractions@,
                                    i as int + 1,
                                ));
                                assert forall|m: int|
                                    0 <= m < base_len implies #[trigger] queue@[m]
                                        == spec_queue_at(old(self), slash_era)[m] by {
                                    assert(queue@[m] == queue_before[m]);
                                }
                            }
                            consumed = consumed.saturating_add(1);
                        }
                    },
                    None => {
                        proof {
                            assert(!spec_offence_effective_at(
                                old(self),
                                offenders@,
                                slash_fractions@,
                                i as int,
                            ));
                            assert forall|x: u64| #[trigger] self.last_nonzero_slash.spec_get(x)
                                == (if (exists|ii: int|
                                0 <= ii < i + 1 && (#[trigger] offenders@[ii]).offender == x
                                    && spec_offence_effective_at(
                                    old(self),
                                    offenders@,
                                    slash_fractions@,
                                    ii,
                                )) {
                                (match old(self).last_nonzero_slash.spec_get(x) {
                                    Some(prev) => Some(
                                        vstd::math::max(prev as int, slash_era as int) as u32,
                                    ),
                                    None => Some(slash_era),
                                })
                            } else {
                                old(self).last_nonzero_slash.spec_get(x)
                            }) by {
                                lemma_any_effective_unchanged(
                                    old(self),
                                    offenders@,
                                    slash_fractions@,
                                    i as int,
                                    x,
                                );
                            }
                        }
                        if match disable_strategy {
                            DisableStrategy::Always => true,
                            _ => false,
                        } {
                            self.offending_validators.push((offender, true));
                        }
                        consumed = consumed.saturating_add(4);
                    },
                }
            } else {
                proof {
                    assert(!spec_offence_effective_at(
                        old(self),
                        offenders@,
                        slash_fractions@,
                        i as int,
                    ));
                    assert forall|x: u64| #[trigger] self.last_nonzero_slash.spec_get(x) == (if (
                    exists|ii: int|
                        0 <= ii < i + 1 && (#[trigger] offenders@[ii]).offender == x
                            && spec_offence_effective_at(
                            old(self),
                            offenders@,
                            slash_fractions@,
                            ii,
                        )) {
                        (match old(self).last_nonzero_slash.spec_get(x) {
                            Some(prev) => Some(
                                vstd::math::max(prev as int, slash_era as int) as u32,
                            ),
                            None => Some(slash_era),
                        })
                    } else {
                        old(self).last_nonzero_slash.spec_get(x)
                    }) by {
                        lemma_any_effective_unchanged(
                            old(self),
                            offenders@,
                            slash_fractions@,
                            i as int,
                            x,
                        );
                    }
                }
            }
            i = i + 1;
        }
        self.register_weight(consumed);
        consumed
    }
}

/// The pending queue of one era, or nothing when none is stored.
pub open spec fn spec_queue_at(s: &Staking, era: EraIndex) -> Seq<UnappliedSlash> {
    match s.unapplied_slashes.spec_get(era as u64) {
        Some(q) => q@,
        None => Seq::empty(),
    }
}

} // verus!
