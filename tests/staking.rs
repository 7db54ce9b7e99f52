use travel_points::pallet::Pallet;
use travel_points::types::{Config, Error, GenesisConfig, SlashReason, TravelType};

fn test_config() -> Config {
    Config {
        max_point_batches: 100,
        default_expiration_period: 1000,
        max_tickets_per_user: 50,
        max_stakers: 100,
        min_stake_amount: 100,
        staker_reward_percent: 3000,
        blocks_per_reward_period: 100,
        unbonding_period: 50,
        offline_slash_percent: 500,
        invalid_verification_slash_percent: 1000,
        malicious_slash_percent: 10000,
        max_pools: 50,
        max_delegators_per_pool: 20,
        min_pool_operator_stake: 500,
        max_pool_commission: 5000,
        verifiers_per_era: 5,
        blocks_per_era: 200,
        issuer_reward_percent: 2000,
        max_unbonding_requests: 10,
    }
}

/// Account 1 is the admin; account 2 may issue points.
fn new_test_ext() -> Pallet {
    Pallet::new(test_config(), &GenesisConfig { admin: Some(1), authorized_issuers: vec![2] })
}

#[test]
fn stake_works() {
    let mut p = new_test_ext();
    p.set_block_number(1);
    assert_eq!(p.stake(10, 500), Ok(()));
    let stake_info = p.get_stake_info(10).expect("Stake should exist");
    assert_eq!(stake_info.amount, 500);
    assert_eq!(stake_info.staked_at, 1);
    assert!(!stake_info.is_verifier);
    assert_eq!(p.total_staked(), 500);
    let stakers = p.get_all_stakers();
    assert!(stakers.contains(&10));
}

#[test]
fn stake_below_minimum_fails() {
    let mut p = new_test_ext();
    p.set_block_number(1);
    let before = p.clone();
    assert_eq!(p.stake(10, 50), Err(Error::StakeBelowMinimum));
    assert_eq!(p, before);
}

#[test]
fn stake_twice_fails() {
    let mut p = new_test_ext();
    p.set_block_number(1);
    assert_eq!(p.stake(10, 500), Ok(()));
    let before = p.clone();
    assert_eq!(p.stake(10, 300), Err(Error::AlreadyStaking));
    assert_eq!(p, before);
}

#[test]
fn unstake_works() {
    let mut p = new_test_ext();
    p.set_block_number(1);
    assert_eq!(p.stake(10, 500), Ok(()));
    assert_eq!(p.total_staked(), 500);
    assert_eq!(p.unstake(10), Ok(()));
    assert!(p.get_stake_info(10).is_none());
    assert_eq!(p.total_staked(), 0);
    let stakers = p.get_all_stakers();
    assert!(!stakers.contains(&10));
}

#[test]
fn unstake_not_staker_fails() {
    let mut p = new_test_ext();
    p.set_block_number(1);
    let before = p.clone();
    assert_eq!(p.unstake(10), Err(Error::NotStaker));
    assert_eq!(p, before);
}

#[test]
fn add_to_reward_pool_works() {
    let mut p = new_test_ext();
    p.set_block_number(1);
    assert_eq!(p.add_to_reward_pool(10, 1000), Ok(()));
    assert_eq!(p.reward_pool(), 1000);
    assert_eq!(p.add_to_reward_pool(20, 500), Ok(()));
    assert_eq!(p.reward_pool(), 1500);
}

#[test]
fn slash_staker_offline_works() {
    let mut p = new_test_ext();
    p.set_block_number(1);
    assert_eq!(p.stake(10, 1000), Ok(()));
    assert_eq!(p.total_staked(), 1000);
    assert_eq!(p.slash_staker(1, 10, SlashReason::Offline), Ok(()));
    let stake_info = p.get_stake_info(10).expect("Stake should exist");
    assert_eq!(stake_info.amount, 950);
    assert_eq!(p.total_slashed(), 50);
    let records = p.get_slash_records(10);
    assert_eq!(records.len(), 1);
    assert_eq!(records[0].amount, 50);
}

#[test]
fn slash_staker_invalid_verification_works() {
    let mut p = new_test_ext();
    p.set_block_number(1);
    assert_eq!(p.stake(10, 1000), Ok(()));
    assert_eq!(p.slash_staker(1, 10, SlashReason::InvalidVerification), Ok(()));
    let stake_info = p.get_stake_info(10).expect("Stake should exist");
    assert_eq!(stake_info.amount, 900);
}

#[test]
fn slash_staker_malicious_works() {
    let mut p = new_test_ext();
    p.set_block_number(1);
    assert_eq!(p.stake(10, 1000), Ok(()));
    assert_eq!(p.slash_staker(1, 10, SlashReason::Malicious), Ok(()));
    let stake_info = p.get_stake_info(10).expect("Stake should exist");
    assert_eq!(stake_info.amount, 0);
}

#[test]
fn slash_staker_not_admin_fails() {
    let mut p = new_test_ext();
    p.set_block_number(1);
    assert_eq!(p.stake(10, 1000), Ok(()));
    let before = p.clone();
    assert_eq!(p.slash_staker(5, 10, SlashReason::Offline), Err(Error::NotAdmin));
    assert_eq!(p, before);
}

#[test]
fn request_unbond_works() {
    let mut p = new_test_ext();
    p.set_block_number(1);
    assert_eq!(p.stake(10, 1000), Ok(()));
    assert_eq!(p.request_unbond(10, 500), Ok(()));
    let stake_info = p.get_stake_info(10).expect("Stake should exist");
    assert_eq!(stake_info.amount, 500);
    let requests = p.get_unbonding_requests(10);
    assert_eq!(requests.len(), 1);
    assert_eq!(requests[0].amount, 500);
    assert_eq!(requests[0].requested_at, 1);
    assert_eq!(requests[0].unlocks_at, 51);
}

#[test]
fn withdraw_unbonded_works() {
    let mut p = new_test_ext();
    p.set_block_number(1);
    assert_eq!(p.stake(10, 1000), Ok(()));
    assert_eq!(p.request_unbond(10, 500), Ok(()));
    p.set_block_number(40);
    let before = p.clone();
    assert_eq!(p.withdraw_unbonded(10), Err(Error::UnbondingNotComplete));
    assert_eq!(p, before);
    p.set_block_number(60);
    assert_eq!(p.withdraw_unbonded(10), Ok(()));
    let requests = p.get_unbonding_requests(10);
    assert_eq!(requests.len(), 0);
}

#[test]
fn cancel_unbonding_works() {
    let mut p = new_test_ext();
    p.set_block_number(1);
    assert_eq!(p.stake(10, 1000), Ok(()));
    assert_eq!(p.request_unbond(10, 500), Ok(()));
    let stake_before = p.get_stake_info(10).expect("Stake should exist");
    assert_eq!(stake_before.amount, 500);
    assert_eq!(p.cancel_unbonding(10), Ok(()));
    let stake_after = p.get_stake_info(10).expect("Stake should exist");
    assert_eq!(stake_after.amount, 1000);
    let requests = p.get_unbonding_requests(10);
    assert_eq!(requests.len(), 0);
}

#[test]
fn create_pool_works() {
    let mut p = new_test_ext();
    p.set_block_number(1);
    assert_eq!(p.create_pool(10, 1000, 1000), Ok(()));
    let pool = p.get_pool(0).expect("Pool should exist");
    assert_eq!(pool.operator, 10);
    assert_eq!(pool.total_stake, 1000);
    assert_eq!(pool.operator_stake, 1000);
    assert_eq!(pool.commission, 1000);
    assert!(pool.is_active);
    assert_eq!(pool.delegator_count, 0);
    assert_eq!(p.next_pool_id(), 1);
    assert_eq!(p.total_staked(), 1000);
}

#[test]
fn create_pool_insufficient_stake_fails() {
    let mut p = new_test_ext();
    p.set_block_number(1);
    let before = p.clone();
    assert_eq!(p.create_pool(10, 100, 1000), Err(Error::InsufficientOperatorStake));
    assert_eq!(p, before);
}

#[test]
fn create_pool_excessive_commission_fails() {
    let mut p = new_test_ext();
    p.set_block_number(1);
    let before = p.clone();
    assert_eq!(p.create_pool(10, 1000, 6000), Err(Error::CommissionTooHigh));
    assert_eq!(p, before);
}

#[test]
fn delegate_works() {
    let mut p = new_test_ext();
    p.set_block_number(1);
    assert_eq!(p.create_pool(10, 1000, 1000), Ok(()));
    assert_eq!(p.delegate(20, 0, 500), Ok(()));
    let delegation = p.get_delegation(20).expect("Delegation should exist");
    assert_eq!(delegation.pool_id, 0);
    assert_eq!(delegation.amount, 500);
    let pool = p.get_pool(0).expect("Pool should exist");
    assert_eq!(pool.total_stake, 1500);
    assert_eq!(pool.delegator_count, 1);
    let delegators = p.get_pool_delegators(0);
    assert!(delegators.contains(&20));
}

#[test]
fn delegate_below_minimum_fails() {
    let mut p = new_test_ext();
    p.set_block_number(1);
    assert_eq!(p.create_pool(10, 1000, 1000), Ok(()));
    let before = p.clone();
    assert_eq!(p.delegate(20, 0, 50), Err(Error::DelegationBelowMinimum));
    assert_eq!(p, before);
}

#[test]
fn undelegate_works() {
    let mut p = new_test_ext();
    p.set_block_number(1);
    assert_eq!(p.create_pool(10, 1000, 1000), Ok(()));
    assert_eq!(p.delegate(20, 0, 500), Ok(()));
    assert_eq!(p.undelegate(20), Ok(()));
    assert!(p.get_delegation(20).is_none());
    let pool = p.get_pool(0).expect("Pool should exist");
    assert_eq!(pool.total_stake, 1000);
    assert_eq!(pool.delegator_count, 0);
}

#[test]
fn set_pool_commission_works() {
    let mut p = new_test_ext();
    p.set_block_number(1);
    assert_eq!(p.create_pool(10, 1000, 1000), Ok(()));
    assert_eq!(p.set_pool_commission(10, 0, 2000), Ok(()));
    let pool = p.get_pool(0).expect("Pool should exist");
    assert_eq!(pool.commission, 2000);
}

#[test]
fn set_pool_commission_not_operator_fails() {
    let mut p = new_test_ext();
    p.set_block_number(1);
    assert_eq!(p.create_pool(10, 1000, 1000), Ok(()));
    let before = p.clone();
    assert_eq!(p.set_pool_commission(20, 0, 2000), Err(Error::NotPoolOperator));
    assert_eq!(p, before);
}

#[test]
fn close_pool_works() {
    let mut p = new_test_ext();
    p.set_block_number(1);
    assert_eq!(p.create_pool(10, 1000, 1000), Ok(()));
    assert_eq!(p.close_pool(10, 0), Ok(()));
    assert!(p.get_pool(0).is_none());
    assert_eq!(p.total_staked(), 0);
}

#[test]
fn close_pool_with_delegators_fails() {
    let mut p = new_test_ext();
    p.set_block_number(1);
    assert_eq!(p.create_pool(10, 1000, 1000), Ok(()));
    assert_eq!(p.delegate(20, 0, 500), Ok(()));
    let before = p.clone();
    assert_eq!(p.close_pool(10, 0), Err(Error::PoolHasDelegators));
    assert_eq!(p, before);
}

#[test]
fn rotate_era_works() {
    let mut p = new_test_ext();
    p.set_block_number(1);
    assert_eq!(p.stake(10, 1000), Ok(()));
    assert_eq!(p.stake(20, 2000), Ok(()));
    assert_eq!(p.stake(30, 500), Ok(()));
    p.set_block_number(201);
    assert_eq!(p.rotate_era(99), Ok(()));
    assert_eq!(p.current_era(), 1);
    let verifiers = p.get_current_verifiers();
    assert!(!verifiers.is_empty());
    assert!(p.is_current_verifier(20));
}

#[test]
fn rotate_era_not_due_fails() {
    let mut p = new_test_ext();
    p.set_block_number(100);
    let before = p.clone();
    assert_eq!(p.rotate_era(99), Err(Error::EraRotationNotDue));
    assert_eq!(p, before);
}

#[test]
fn distribute_rewards_works() {
    let mut p = new_test_ext();
    p.set_block_number(1);
    assert_eq!(p.stake(10, 1000), Ok(()));
    assert_eq!(p.add_to_reward_pool(99, 10000), Ok(()));
    assert_eq!(p.award_points(2, 30, 1000, TravelType::Airline, None), Ok(()));
    assert_eq!(p.spend_points(30, 500, 2), Ok(()));
    let period = p.current_period();
    assert_eq!(p.distribute_rewards(1, period), Ok(()));
    assert_eq!(p.reward_pool(), 0);
    let staker_rewards = p.pending_staker_rewards(10);
    assert!(staker_rewards > 0);
}

#[test]
fn claim_rewards_works() {
    let mut p = new_test_ext();
    p.set_block_number(1);
    assert_eq!(p.stake(10, 1000), Ok(()));
    assert_eq!(p.add_to_reward_pool(99, 10000), Ok(()));
    assert_eq!(p.award_points(2, 30, 1000, TravelType::Airline, None), Ok(()));
    assert_eq!(p.spend_points(30, 500, 2), Ok(()));
    let period = p.current_period();
    assert_eq!(p.distribute_rewards(1, period), Ok(()));
    assert_eq!(p.claim_rewards(10), Ok(()));
    assert_eq!(p.pending_staker_rewards(10), 0);
}

#[test]
fn claim_rewards_none_pending_fails() {
    let mut p = new_test_ext();
    p.set_block_number(1);
    let before = p.clone();
    assert_eq!(p.claim_rewards(10), Err(Error::NoRewardsToClaim));
    assert_eq!(p, before);
}

#[test]
fn increase_stake_works() {
    let mut p = new_test_ext();
    p.set_block_number(1);
    assert_eq!(p.stake(10, 500), Ok(()));
    assert_eq!(p.total_staked(), 500);
    assert_eq!(p.increase_stake(10, 300), Ok(()));
    let stake_info = p.get_stake_info(10).expect("Stake should exist");
    assert_eq!(stake_info.amount, 800);
    assert_eq!(p.total_staked(), 800);
}

#[test]
fn increase_stake_not_staker_fails() {
    let mut p = new_test_ext();
    p.set_block_number(1);
    let before = p.clone();
    assert_eq!(p.increase_stake(10, 300), Err(Error::NotStaker));
    assert_eq!(p, before);
}
