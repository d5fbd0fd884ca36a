use staking_core::fraction::Perbill;
use staking_core::state::{Staking, StakingConfig};
use staking_core::types::{Nominations, StakingError, StakingLedger, ValidatorPrefs};

fn config() -> StakingConfig {
    StakingConfig {
        sessions_per_era: 3,
        bonding_duration: 28,
        slash_defer_duration: 2,
        history_depth: 84,
        minimum_validator_count: 1,
        validator_count: 10,
        max_nominator_rewarded_per_validator: 64,
        max_nominations: 16,
    }
}

fn nominations(targets: Vec<u64>) -> Nominations {
    Nominations { targets, submitted_in: 0, suppressed: false }
}

#[test]
fn guarded_mutation_keeps_counters_honest() {
    let mut s = Staking::new(config());
    s.do_add_validator(1, ValidatorPrefs::default_prefs());
    s.do_add_validator(2, ValidatorPrefs::default_prefs());
    // updating preferences does not bump the counter
    s.do_add_validator(1, ValidatorPrefs { commission: Perbill::from_percent(5), blocked: true });
    assert_eq!(s.counter_for_validators, 2);
    assert!(s.validators.get(1).unwrap().blocked);

    s.do_add_nominator(10, nominations(vec![1]));
    s.do_add_nominator(11, nominations(vec![2]));
    s.do_add_nominator(10, nominations(vec![1, 2]));
    assert_eq!(s.counter_for_nominators, 2);
    assert_eq!(s.nominator_count(), 2);
    assert!(s.nominator_contains(11));

    assert!(s.do_remove_nominator(10));
    assert!(!s.do_remove_nominator(10));
    assert_eq!(s.counter_for_nominators, 1);
    assert!(s.do_remove_validator(2));
    assert!(!s.do_remove_validator(99));
    assert_eq!(s.counter_for_validators, 1);
}

#[test]
fn chill_removes_both_roles() {
    let mut s = Staking::new(config());
    s.do_add_validator(1, ValidatorPrefs::default_prefs());
    s.do_add_nominator(1, nominations(vec![1]));
    assert!(s.chill_stash(1));
    assert!(!s.chill_stash(1));
    assert_eq!(s.counter_for_validators, 0);
    assert_eq!(s.counter_for_nominators, 0);
}

#[test]
fn kill_stash_removes_everything() {
    let mut s = Staking::new(config());
    assert_eq!(s.kill_stash(1), Err(StakingError::NotStash));
    s.bonded.insert(1, 100);
    s.ledgers.insert(
        100,
        StakingLedger { stash: 1, total: 10, active: 10, claimed_rewards: vec![] },
    );
    s.do_add_validator(1, ValidatorPrefs::default_prefs());
    assert_eq!(s.kill_stash(1), Ok(()));
    assert!(s.bonded.get(1).is_none());
    assert!(s.ledgers.get(100).is_none());
    assert_eq!(s.counter_for_validators, 0);
}

#[test]
fn clearing_nominators_walks_from_the_front() {
    let mut s = Staking::new(config());
    for n in 1..=4u64 {
        s.do_add_nominator(n, nominations(vec![9]));
    }
    assert_eq!(s.clear_nominators(Some(2)), 2);
    assert_eq!(s.counter_for_nominators, 2);
    assert!(!s.nominator_contains(1));
    assert!(s.nominator_contains(3));
    assert_eq!(s.clear_nominators(None), 2);
    assert_eq!(s.counter_for_nominators, 0);
}

#[test]
fn slashable_balance_reads_the_ledger() {
    let mut s = Staking::new(config());
    assert_eq!(s.slashable_balance_of(1), 0);
    s.bonded.insert(1, 5);
    assert_eq!(s.slashable_balance_of(1), 0);
    s.ledgers.insert(5, StakingLedger { stash: 1, total: 80, active: 60, claimed_rewards: vec![] });
    assert_eq!(s.slashable_balance_of(1), 60);
    assert_eq!(s.weight_of(1), 60);
    assert_eq!(s.vote_weight(1), 60);
    assert_eq!(s.slashable_balance_of_vote_weight(1, 123_456), 60);
}
