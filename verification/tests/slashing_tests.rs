use staking_core::fraction::Perbill;
use staking_core::slashing::compute_slash;
use staking_core::state::{Staking, StakingConfig};
use staking_core::types::{
    ActiveEraInfo, DisableStrategy, Exposure, IndividualExposure, OffenceDetails, StakingLedger,
    ValidatorPrefs,
};

fn config(defer: u32) -> StakingConfig {
    StakingConfig {
        sessions_per_era: 3,
        bonding_duration: 28,
        slash_defer_duration: defer,
        history_depth: 84,
        minimum_validator_count: 1,
        validator_count: 10,
        max_nominator_rewarded_per_validator: 64,
        max_nominations: 16,
    }
}

fn bond(s: &mut Staking, who: u64, stake: u64) {
    s.bonded.insert(who, who);
    s.ledgers.insert(
        who,
        StakingLedger { stash: who, total: stake, active: stake, claimed_rewards: vec![] },
    );
    s.balances.insert(who, 0);
}

fn offence(offender: u64, own: u64, nominator: Option<(u64, u64)>) -> OffenceDetails {
    let others: Vec<IndividualExposure> = nominator
        .into_iter()
        .map(|(who, value)| IndividualExposure { who, value })
        .collect();
    let total = own + others.iter().map(|o| o.value).sum::<u64>();
    OffenceDetails { offender, exposure: Exposure { total, own, others }, reporters: vec![900] }
}

/// A state with active era 5 whose first session is 50, and a bonded-eras
/// window covering eras 3 through 5.
fn active_state(defer: u32) -> Staking {
    let mut s = Staking::new(config(defer));
    s.active_era = Some(ActiveEraInfo { index: 5, start: Some(0) });
    s.current_era = Some(5);
    s.eras_start_session_index.insert(5, 50);
    s.bonded_eras = vec![(3, 30), (4, 40), (5, 50)];
    bond(&mut s, 1, 1_000);
    bond(&mut s, 2_001, 500);
    s.balances.insert(900, 0);
    s
}

#[test]
fn compute_slash_takes_the_fraction_of_everyone() {
    let details = offence(1, 1_000, Some((2_001, 500)));
    let slash = compute_slash(
        Perbill::from_percent(10),
        1,
        &details.exposure,
        &details.reporters,
        Perbill::from_percent(20),
    )
    .unwrap();
    assert_eq!(slash.validator, 1);
    assert_eq!(slash.own, 100);
    assert_eq!(slash.others.len(), 1);
    assert_eq!(slash.others[0].who, 2_001);
    assert_eq!(slash.others[0].value, 50);
    // the reporters' bounty is a fifth of the 150 slashed in total
    assert_eq!(slash.payout, 30);
    // a fraction that rounds everything to zero produces no record
    assert!(compute_slash(
        Perbill::from_parts(1),
        1,
        &Exposure { total: 3, own: 2, others: vec![IndividualExposure { who: 9, value: 1 }] },
        &vec![],
        Perbill::from_percent(20),
    )
    .is_none());
}

#[test]
fn deferred_slash_applies_exactly_once_after_the_window() {
    // a slash enqueued in era 5 with defer 2 is applied at the first era
    // start with active - 2 > 5, that is era 8
    let mut s = active_state(2);
    s.set_slash_reward_fraction(Perbill::from_percent(20));
    let weight = s.on_offence(
        &vec![offence(1, 1_000, Some((2_001, 500)))],
        &vec![Perbill::from_percent(10)],
        50,
        DisableStrategy::WhenSlashed,
    );
    assert!(weight > 0);
    assert_eq!(s.unapplied_slashes.get(5).unwrap().len(), 1);
    assert_eq!(s.earliest_unapplied_slash, Some(5));
    assert_eq!(s.ledgers.get(1).unwrap().active, 1_000);

    s.apply_unapplied_slashes(6);
    assert!(s.unapplied_slashes.get(5).is_some());
    s.apply_unapplied_slashes(7);
    assert!(s.unapplied_slashes.get(5).is_some());
    assert_eq!(s.ledgers.get(1).unwrap().active, 1_000);

    s.apply_unapplied_slashes(8);
    assert!(s.unapplied_slashes.get(5).is_none());
    assert_eq!(s.ledgers.get(1).unwrap().active, 900);
    assert_eq!(s.ledgers.get(2_001).unwrap().active, 450);
    assert_eq!(s.balances.get(900), Some(&30));
    assert_eq!(s.earliest_unapplied_slash, Some(6));

    // applying again changes nothing: the record is gone
    s.apply_unapplied_slashes(9);
    assert_eq!(s.ledgers.get(1).unwrap().active, 900);
    assert_eq!(s.balances.get(900), Some(&30));
}

#[test]
fn immediate_slash_with_no_defer() {
    let mut s = active_state(0);
    s.on_offence(
        &vec![offence(1, 1_000, None)],
        &vec![Perbill::from_percent(10)],
        50,
        DisableStrategy::WhenSlashed,
    );
    assert_eq!(s.unapplied_slashes.len(), 0);
    assert_eq!(s.ledgers.get(1).unwrap().active, 900);
}

#[test]
fn offence_is_attributed_to_its_own_era() {
    // an offence at session 35, before the active era's first session 50 but
    // within the bonding window, lands in era 3 (first session 30), not in
    // the active era
    let mut s = active_state(2);
    s.on_offence(
        &vec![offence(1, 1_000, None)],
        &vec![Perbill::from_percent(10)],
        35,
        DisableStrategy::WhenSlashed,
    );
    assert!(s.unapplied_slashes.get(5).is_none());
    assert_eq!(s.unapplied_slashes.get(3).unwrap().len(), 1);
    assert_eq!(s.earliest_unapplied_slash, Some(3));
}

#[test]
fn offences_outside_the_window_are_dropped() {
    let mut s = active_state(2);
    s.on_offence(
        &vec![offence(1, 1_000, None)],
        &vec![Perbill::from_percent(10)],
        10,
        DisableStrategy::WhenSlashed,
    );
    assert_eq!(s.unapplied_slashes.len(), 0);
    assert_eq!(s.earliest_unapplied_slash, None);
}

#[test]
fn batches_process_each_vulnerable_offender() {
    let mut s = active_state(2);
    bond(&mut s, 2, 800);
    bond(&mut s, 3, 600);
    s.invulnerables = vec![2];
    // three offenders at once: one invulnerable, two slashed
    s.on_offence(
        &vec![offence(1, 1_000, None), offence(2, 800, None), offence(3, 600, None)],
        &vec![
            Perbill::from_percent(10),
            Perbill::from_percent(10),
            Perbill::from_percent(50),
        ],
        50,
        DisableStrategy::WhenSlashed,
    );
    let queue = s.unapplied_slashes.get(5).unwrap();
    assert_eq!(queue.len(), 2);
    assert_eq!(queue[0].validator, 1);
    assert_eq!(queue[0].own, 100);
    assert_eq!(queue[1].validator, 3);
    assert_eq!(queue[1].own, 300);
    // the snapshot filter learns of both slashes, not of the skipped one
    assert_eq!(s.last_nonzero_slash.get(1), Some(&5));
    assert_eq!(s.last_nonzero_slash.get(3), Some(&5));
    assert_eq!(s.last_nonzero_slash.get(2), None);
}

#[test]
fn invulnerable_offenders_are_skipped() {
    let mut s = active_state(2);
    s.invulnerables = vec![1];
    s.on_offence(
        &vec![offence(1, 1_000, None)],
        &vec![Perbill::from_percent(10)],
        50,
        DisableStrategy::WhenSlashed,
    );
    assert_eq!(s.unapplied_slashes.len(), 0);
}

#[test]
fn flagged_offenders_are_disabled_at_session_start() {
    let mut s = active_state(0);
    s.on_offence(
        &vec![offence(1, 1_000, None)],
        &vec![Perbill::from_percent(10)],
        50,
        DisableStrategy::Always,
    );
    let disabled = s.start_session(99, None);
    assert_eq!(disabled, vec![1]);
    // ending the era clears the markers
    s.eras_start_session_index.insert(6, 61);
    s.end_session(60, 0, 0);
    assert!(s.offending_validators.is_empty());
}

#[test]
fn reward_clipping_keeps_the_top_nominators() {
    // the reward-facing exposure copy is clipped to the top-two values,
    // while the slashing-facing copy keeps everyone
    let mut s = Staking::new(StakingConfig {
        max_nominator_rewarded_per_validator: 2,
        ..config(2)
    });
    s.do_add_validator(1, ValidatorPrefs::default_prefs());
    let exposures = vec![(
        1u64,
        Exposure {
            total: 1_000,
            own: 100,
            others: vec![
                IndividualExposure { who: 11, value: 200 },
                IndividualExposure { who: 12, value: 400 },
                IndividualExposure { who: 13, value: 300 },
            ],
        },
    )];
    s.store_stakers_info(&exposures, 0);
    let full = s.eras_stakers.get(0).unwrap().get(1).unwrap();
    assert_eq!(full.others.len(), 3);
    assert_eq!(full.total, 1_000);
    let clipped = s.eras_stakers_clipped.get(0).unwrap().get(1).unwrap();
    assert_eq!(clipped.others.len(), 2);
    assert_eq!(clipped.others[0].value, 400);
    assert_eq!(clipped.others[1].value, 300);
    assert_eq!(clipped.own, 100);
    assert_eq!(clipped.total, 1_000);
    assert_eq!(s.eras_total_stake.get(0), Some(&1_000));
}
