use parity_scale_codec::Encode;
use staking_core::bounds::{SnapshotBounds, SnapshotBoundsBuilder};
use staking_core::state::{Staking, StakingConfig};
use staking_core::types::{Nominations, StakingLedger, ValidatorPrefs};

fn config() -> StakingConfig {
    StakingConfig {
        sessions_per_era: 3,
        bonding_duration: 28,
        slash_defer_duration: 2,
        history_depth: 84,
        minimum_validator_count: 1,
        validator_count: 10,
        max_nominator_rewarded_per_validator: 64,
        max_nominations: 16,
    }
}

fn bond(s: &mut Staking, who: u64, stake: u64) {
    s.bonded.insert(who, who);
    s.ledgers.insert(
        who,
        StakingLedger { stash: who, total: stake, active: stake, claimed_rewards: vec![] },
    );
    s.balances.insert(who, 0);
}

fn with_registry(n_validators: u64, n_nominators: u64) -> Staking {
    let mut s = Staking::new(config());
    for v in 1..=n_validators {
        bond(&mut s, v, 100 * v);
        s.do_add_validator(v, ValidatorPrefs::default_prefs());
    }
    for i in 0..n_nominators {
        let n = 1000 + i;
        bond(&mut s, n, 10 + i);
        s.do_add_nominator(
            n,
            Nominations { targets: vec![1, 2], submitted_in: 0, suppressed: false },
        );
    }
    s
}

#[test]
fn count_only_bound_takes_validators_first() {
    // bound = count-only(2) with 5 eligible validators and 10 nominators:
    // exactly 2 entries come back, both validators, whatever the nominators
    let mut s = with_registry(5, 10);
    let voters = s.get_npos_voters_bounded(SnapshotBounds::new_count(2));
    assert_eq!(voters.len(), 2);
    assert_eq!(voters[0].0, 1);
    assert_eq!(voters[1].0, 2);
    // both are self-votes
    assert_eq!(voters[0].2, vec![1]);
    assert_eq!(voters[1].2, vec![2]);
}

#[test]
fn byte_bound_is_never_exceeded() {
    // the returned list's real encoded size stays within the byte bound,
    // whatever the bound
    for bound in [0u32, 1, 10, 25, 26, 60, 100, 151, 500, 10_000] {
        let mut s = with_registry(5, 10);
        let voters = s.get_npos_voters_bounded(SnapshotBounds::new_size(bound));
        if !voters.is_empty() {
            assert!(
                voters.encoded_size() <= bound as usize,
                "{} voters broke bound {}",
                voters.len(),
                bound
            );
        }
    }
}

#[test]
fn unbounded_voters_take_everyone() {
    let mut s = with_registry(3, 2);
    let voters = s.get_npos_voters_unbounded();
    // three self-votes first, then the two nominator records
    assert_eq!(voters.len(), 5);
    assert_eq!(voters[0].0, 1);
    assert_eq!(voters[2].0, 3);
    assert_eq!(voters[3].0, 1000);
    assert_eq!(voters[4].0, 1001);
    assert_eq!(voters[3].2, vec![1, 2]);
    assert_eq!(voters[3].1, 10);
    // the bounded walk with no bounds takes the same set, validators first
    let mut s2 = with_registry(3, 2);
    let voters2 = s2.get_npos_voters_bounded(SnapshotBounds::new_unbounded());
    assert_eq!(voters2.len(), 5);
    assert_eq!(voters2[0].0, 1);
    assert_eq!(voters2[3].0, 1000);
}

#[test]
fn stale_nominations_are_filtered_but_still_count() {
    let mut s = with_registry(2, 1);
    // validator 1 was slashed in era 5; the nomination was submitted in era 0
    s.last_nonzero_slash.insert(1, 5);
    let voters = s.get_npos_voters_unbounded();
    // the nominator's record keeps only the unslashed target
    assert_eq!(voters[2].0, 1000);
    assert_eq!(voters[2].2, vec![2]);
    // a nominator whose targets all went stale contributes no record
    let mut s2 = with_registry(2, 1);
    s2.last_nonzero_slash.insert(1, 5);
    s2.last_nonzero_slash.insert(2, 5);
    let voters2 = s2.get_npos_voters_unbounded();
    assert_eq!(voters2.len(), 2);
    assert!(voters2.iter().all(|v| v.0 == 1 || v.0 == 2));
}

#[test]
fn bounded_targets_respect_bounds() {
    let mut s = with_registry(6, 0);
    let all = s.get_npos_targets_unbounded();
    assert_eq!(all, vec![1, 2, 3, 4, 5, 6]);

    let mut s = with_registry(6, 0);
    let capped = s.get_npos_targets_bounded(SnapshotBounds::new_count(4));
    assert_eq!(capped, vec![1, 2, 3, 4]);

    // 8 bytes per target plus one byte of prefix: 33 bytes fit 4 targets
    let mut s = with_registry(6, 0);
    let sized = s.get_npos_targets_bounded(SnapshotBounds::new_size(33));
    assert_eq!(sized, vec![1, 2, 3, 4]);
    assert!(sized.encoded_size() <= 33);

    let mut s = with_registry(6, 0);
    let both = s.get_npos_targets_bounded(SnapshotBoundsBuilder::new().size(33).count(2).build());
    assert_eq!(both, vec![1, 2]);
}

#[test]
fn election_data_dispatchers() {
    let mut s = with_registry(4, 1);
    assert_eq!(s.desired_targets(), Ok(10));
    let voters = s.voters(SnapshotBounds::new_count(3)).unwrap();
    assert_eq!(voters.len(), 3);
    let targets = s.targets(SnapshotBounds::new_unbounded()).unwrap();
    assert_eq!(targets.len(), 4);
}
