use staking_core::alist::AList;
use staking_core::fraction::{ratio_floor, Perbill};
use staking_core::state::{Staking, StakingConfig};
use staking_core::types::{
    EraRewardPoints, Exposure, IndividualExposure, RewardDestination, StakingError, StakingLedger,
    ValidatorPrefs,
};

fn config() -> StakingConfig {
    StakingConfig {
        sessions_per_era: 3,
        bonding_duration: 28,
        slash_defer_duration: 2,
        history_depth: 84,
        minimum_validator_count: 1,
        validator_count: 10,
        max_nominator_rewarded_per_validator: 64,
        max_nominations: 16,
    }
}

fn bond(s: &mut Staking, who: u64, stake: u64) {
    s.bonded.insert(who, who);
    s.ledgers.insert(
        who,
        StakingLedger { stash: who, total: stake, active: stake, claimed_rewards: vec![] },
    );
    s.balances.insert(who, 0);
}

/// A state with era 0 recorded: payout 1000, validator 1 with 100 own stake
/// and two nominators backing 200 and 300, a quarter commission, and all of
/// the era's 10 points on the validator.
fn payable_state() -> Staking {
    let mut s = Staking::new(config());
    s.current_era = Some(0);
    s.eras_validator_reward.insert(0, 1_000);
    bond(&mut s, 1, 100);
    s.payees.insert(2001, RewardDestination::Stash);
    s.payees.insert(2002, RewardDestination::Stash);
    s.balances.insert(2001, 0);
    s.balances.insert(2002, 0);
    let mut clipped: AList<Exposure> = AList::new();
    clipped.insert(
        1,
        Exposure {
            total: 600,
            own: 100,
            others: vec![
                IndividualExposure { who: 2001, value: 200 },
                IndividualExposure { who: 2002, value: 300 },
            ],
        },
    );
    s.eras_stakers_clipped.insert(0, clipped);
    let mut prefs: AList<ValidatorPrefs> = AList::new();
    prefs.insert(1, ValidatorPrefs { commission: Perbill::from_percent(25), blocked: false });
    s.eras_validator_prefs.insert(0, prefs);
    let mut individual: AList<u32> = AList::new();
    individual.insert(1, 10);
    s.eras_reward_points.insert(0, EraRewardPoints { total: 10, individual });
    s
}

#[test]
fn payout_split_is_proportional_and_conservative() {
    let mut s = payable_state();
    let issuance_before = s.total_issuance;
    assert_eq!(s.do_payout_stakers(1, 0), Ok(2));
    // entitled: all 10 of 10 points of 1000 = 1000; commission cut 250;
    // leftover 750 split 100/200/300 over 600
    assert_eq!(s.balances.get(1), Some(&375)); // 125 own share + 250 commission
    assert_eq!(s.balances.get(2001), Some(&250));
    assert_eq!(s.balances.get(2002), Some(&375));
    let distributed = (s.total_issuance - issuance_before) as u64;
    assert_eq!(distributed, 1_000);
    assert!(distributed <= 1_000);
}

#[test]
fn payout_deficit_stays_under_recipient_count() {
    let mut s = payable_state();
    // make the division inexact: 700 leftover over 600 total with uneven parts
    let mut prefs: AList<ValidatorPrefs> = AList::new();
    prefs.insert(1, ValidatorPrefs { commission: Perbill::from_parts(300_000_000), blocked: false });
    s.eras_validator_prefs.remove(0);
    s.eras_validator_prefs.insert(0, prefs);
    let issuance_before = s.total_issuance;
    assert_eq!(s.do_payout_stakers(1, 0), Ok(2));
    let distributed = s.total_issuance - issuance_before;
    // commission 300, leftover 700: floor shares 116 + 233 + 350 = 699
    assert_eq!(distributed, 999);
    // sum stays at most the payout, short by fewer units than recipients
    assert!(distributed <= 1_000);
    assert!(1_000 - distributed < 3);
}

#[test]
fn double_claim_is_rejected() {
    let mut s = payable_state();
    assert_eq!(s.do_payout_stakers(1, 0), Ok(2));
    // claiming a second time for the same pair fails, and pays nothing more
    let issuance = s.total_issuance;
    assert_eq!(s.do_payout_stakers(1, 0), Err(StakingError::AlreadyClaimed));
    assert_eq!(s.total_issuance, issuance);
    assert!(s.ledgers.get(1).unwrap().claimed_rewards.contains(&0));
}

#[test]
fn payout_rejections() {
    let mut fresh = Staking::new(config());
    assert_eq!(fresh.do_payout_stakers(1, 0), Err(StakingError::InvalidEraToReward));

    let mut s = payable_state();
    // a future era
    assert_eq!(s.do_payout_stakers(1, 5), Err(StakingError::InvalidEraToReward));
    // an era beyond history
    let mut old = payable_state();
    old.current_era = Some(90);
    assert_eq!(old.do_payout_stakers(1, 0), Err(StakingError::InvalidEraToReward));
    // an era without a recorded payout
    let mut unpaid = payable_state();
    unpaid.eras_validator_reward.remove(0);
    assert_eq!(unpaid.do_payout_stakers(1, 0), Err(StakingError::InvalidEraToReward));
    // an unbonded stash
    assert_eq!(s.do_payout_stakers(99, 0), Err(StakingError::NotStash));
    // a bonded stash whose controller lost its ledger
    let mut lame = payable_state();
    lame.ledgers.remove(1);
    assert_eq!(lame.do_payout_stakers(1, 0), Err(StakingError::NotController));
}

#[test]
fn reward_points_accumulate() {
    let mut s = Staking::new(config());
    s.active_era = Some(staking_core::types::ActiveEraInfo { index: 4, start: None });
    s.note_author(7);
    s.note_author(7);
    s.note_uncle(7, 8);
    let points = s.eras_reward_points.get(4).unwrap();
    assert_eq!(points.total, 43);
    assert_eq!(points.individual.get(7), Some(&42));
    assert_eq!(points.individual.get(8), Some(&1));
    // without an active era, grants go nowhere
    let mut idle = Staking::new(config());
    idle.note_author(7);
    assert_eq!(idle.eras_reward_points.len(), 0);
}

#[test]
fn fraction_arithmetic_is_exact() {
    assert_eq!(Perbill::from_percent(50).mul_floor(9), 4);
    assert_eq!(Perbill::from_percent(100).mul_floor(9), 9);
    // percentages cap at one whole
    assert_eq!(Perbill::from_percent(200), Perbill::one());
    assert!(Perbill::zero().is_zero());
    assert!(!Perbill::one().is_zero());
    assert_eq!(Perbill::from_rational(1, 3).mul_floor(900_000_000_000), 299_999_999_700);
    assert_eq!(Perbill::from_rational(5, 5).mul_floor(7), 7);
    // a numerator above the denominator saturates at one whole
    assert_eq!(Perbill::from_rational(9, 3).mul_floor(100), 100);
    // a zero denominator pays nothing
    assert_eq!(ratio_floor(1_000, 0, 0), 0);
    assert_eq!(ratio_floor(1_000, 2, 3), 666);
}

#[test]
fn make_payout_follows_destinations() {
    let mut s = Staking::new(config());
    bond(&mut s, 1, 100);
    // default destination is the stake itself
    assert_eq!(s.make_payout(1, 40), Some(40));
    assert_eq!(s.ledgers.get(1).unwrap().active, 140);
    assert_eq!(s.balances.get(1), Some(&40));
    // a named account is always credited
    s.payees.insert(1, RewardDestination::Account(77));
    assert_eq!(s.make_payout(1, 5), Some(5));
    assert_eq!(s.balances.get(77), Some(&5));
    // a refusing destination pays nobody
    s.payees.insert(1, RewardDestination::NoPayee);
    assert_eq!(s.make_payout(1, 5), None);
}
