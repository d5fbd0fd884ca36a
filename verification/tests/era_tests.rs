use staking_core::state::{Staking, StakingConfig};
use staking_core::types::{Forcing, StakingError, StakingLedger, Support, ValidatorPrefs};

fn config() -> StakingConfig {
    StakingConfig {
        sessions_per_era: 1,
        bonding_duration: 28,
        slash_defer_duration: 2,
        history_depth: 84,
        minimum_validator_count: 1,
        validator_count: 10,
        max_nominator_rewarded_per_validator: 64,
        max_nominations: 16,
    }
}

fn bond(s: &mut Staking, who: u64, stake: u64) {
    s.bonded.insert(who, who);
    s.ledgers.insert(
        who,
        StakingLedger { stash: who, total: stake, active: stake, claimed_rewards: vec![] },
    );
    s.balances.insert(who, 0);
}

fn self_votes(stakes: &[(u64, u64)]) -> Vec<(u64, Support)> {
    stakes
        .iter()
        .map(|&(v, stake)| {
            (v, Support { total: stake as u128, voters: vec![(v, stake as u128)] })
        })
        .collect()
}

#[test]
fn era_counter_counts_successful_triggers() {
    let mut s = Staking::new(config());
    for v in 1..=3u64 {
        bond(&mut s, v, 100);
        s.do_add_validator(v, ValidatorPrefs::default_prefs());
    }
    assert_eq!(s.current_era, None);
    // after N successful triggers from no era, the counter reads N - 1
    for n in 0..4u32 {
        let elected = s.try_trigger_new_era(n, Some(self_votes(&[(1, 100), (2, 100), (3, 100)])));
        assert_eq!(elected, Some(vec![1, 2, 3]));
        assert_eq!(s.current_era, Some(n));
    }
    // a failed trigger (the solver failed) never changes the counter
    let failed = s.try_trigger_new_era(9, None);
    assert_eq!(failed, None);
    assert_eq!(s.current_era, Some(3));
    // too few winners is a failure too
    let mut strict = Staking::new(StakingConfig { minimum_validator_count: 5, ..config() });
    for v in 1..=3u64 {
        bond(&mut strict, v, 100);
        strict.do_add_validator(v, ValidatorPrefs::default_prefs());
    }
    strict.current_era = Some(7);
    strict.eras_start_session_index.insert(7, 0);
    let failed = strict.try_trigger_new_era(1, Some(self_votes(&[(1, 100)])));
    assert_eq!(failed, None);
    assert_eq!(strict.current_era, Some(7));
}

#[test]
fn genesis_tolerates_an_empty_election() {
    let mut s = Staking::new(config());
    // no candidates at all: the election is failed, but era zero is still
    // recorded so the session layer can fall back to its own default set
    let r = s.try_trigger_new_era(0, Some(vec![]));
    assert_eq!(r, None);
    assert_eq!(s.current_era, Some(0));
}

#[test]
fn forcing_modes_gate_the_trigger() {
    let mut s = Staking::new(config());
    bond(&mut s, 1, 100);
    s.do_add_validator(1, ValidatorPrefs::default_prefs());
    assert!(s.new_session(0, Some(self_votes(&[(1, 100)]))).is_some());
    // ForceNone never triggers, even past the era length
    s.force_era = Forcing::ForceNone;
    assert!(s.new_session(5, Some(self_votes(&[(1, 100)]))).is_none());
    assert_eq!(s.current_era, Some(0));
    // ForceNew triggers once and resets itself
    s.force_era = Forcing::ForceNew;
    assert!(s.new_session(5, Some(self_votes(&[(1, 100)]))).is_some());
    assert_eq!(s.force_era, Forcing::NotForcing);
    assert_eq!(s.current_era, Some(1));
    // ensure_new_era arms the forcing mode
    s.ensure_new_era();
    assert_eq!(s.force_era, Forcing::ForceNew);
}

#[test]
fn full_era_cycle_pays_by_points() {
    // End-to-end: era 0 triggers with 3 validators and no nominators; all
    // three are elected on self-votes only; reward points 20/0/10 over the
    // era; at the era end, the payout splits 20/30 and 10/30, with nothing
    // for the pointless validator.
    let mut s = Staking::new(config());
    for v in 1..=3u64 {
        bond(&mut s, v, 100);
        s.do_add_validator(v, ValidatorPrefs::default_prefs());
    }
    let result = || Some(self_votes(&[(1, 100), (2, 100), (3, 100)]));

    let elected = s.new_session(0, result());
    assert_eq!(elected, Some(vec![1, 2, 3]));
    assert_eq!(s.current_era, Some(0));
    let disabled = s.start_session(0, Some(1_000));
    assert!(disabled.is_empty());
    assert_eq!(s.active_era.unwrap().index, 0);
    assert_eq!(s.active_era.unwrap().start, Some(1_000));

    // block production credit: 20 points to validator 1, 10 to validator 3
    s.note_author(1);
    s.reward_by_ids(&vec![(3, 10)]);

    // plan the next era, then end the session that closes era 0
    assert!(s.new_session(1, result()).is_some());
    let inputs = s.pending_era_payout_inputs(0, 4_000).unwrap();
    assert_eq!(inputs.0, 0);
    assert_eq!(inputs.1, 300);
    assert_eq!(inputs.3, 3_000);
    s.end_session(0, 6_000, 0);
    assert_eq!(s.eras_validator_reward.get(0), Some(&6_000));
    s.start_session(1, Some(5_000));
    assert_eq!(s.active_era.unwrap().index, 1);

    // payouts: 20/30 of 6000, nothing, 10/30 of 6000
    assert_eq!(s.do_payout_stakers(1, 0), Ok(0));
    assert_eq!(s.do_payout_stakers(2, 0), Ok(0));
    assert_eq!(s.do_payout_stakers(3, 0), Ok(0));
    assert_eq!(s.balances.get(1), Some(&4_000));
    assert_eq!(s.balances.get(2), Some(&0));
    assert_eq!(s.balances.get(3), Some(&2_000));

    // the zero-points claim still counts as claimed
    assert_eq!(s.do_payout_stakers(2, 0), Err(StakingError::AlreadyClaimed));
}

#[test]
fn skipped_session_still_starts_the_era() {
    let mut s = Staking::new(config());
    bond(&mut s, 1, 100);
    s.do_add_validator(1, ValidatorPrefs::default_prefs());
    assert!(s.new_session(0, Some(self_votes(&[(1, 100)]))).is_some());
    // the recorded start session is 0, but session 2 starts next: the era
    // must start anyway rather than stall the chain
    s.start_session(2, Some(1_000));
    assert_eq!(s.active_era.unwrap().index, 0);
}

#[test]
fn historical_sessions_carry_exposures() {
    let mut s = Staking::new(config());
    for v in 1..=2u64 {
        bond(&mut s, v, 100 * v);
        s.do_add_validator(v, ValidatorPrefs::default_prefs());
    }
    let pairs = s
        .new_session_historical(0, Some(self_votes(&[(1, 100), (2, 200)])))
        .unwrap();
    assert_eq!(pairs.len(), 2);
    assert_eq!(pairs[0].0, 1);
    assert_eq!(pairs[0].1.own, 100);
    assert_eq!(pairs[0].1.total, 100);
    assert_eq!(pairs[1].1.own, 200);
}

#[test]
fn election_prediction_follows_forcing() {
    let mut s = Staking::new(config());
    s.current_era = Some(3);
    s.eras_start_session_index.insert(3, 9);
    s.current_planned_session = 9;
    // one session per era and no progress: the era closes with this session
    assert_eq!(s.next_election_prediction(100, Some(110), 30), 110);
    s.force_era = Forcing::ForceNone;
    assert_eq!(s.next_election_prediction(100, Some(110), 30), u64::MAX);
    s.force_era = Forcing::ForceAlways;
    assert_eq!(s.next_election_prediction(100, Some(110), 30), 110);
}
