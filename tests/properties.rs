use travel_points::eras::encoded_less;
use travel_points::ledger::{insert_batch, spend_batches, sweep_expired};
use travel_points::pallet::Pallet;
use travel_points::rewards::{apply_bps, current_period, mul_div_saturating, split_reward_pool};
use travel_points::staking::slash_amount;
use travel_points::types::{Config, Error, Event, GenesisConfig, Origin, PointBatch, SlashReason, TicketType, TravelType};

fn test_config() -> Config {
    Config {
        max_point_batches: 100,
        default_expiration_period: 1000,
        max_tickets_per_user: 50,
        max_stakers: 100,
        min_stake_amount: 100,
        staker_reward_percent: 3000,
        blocks_per_reward_period: 100,
        unbonding_period: 50,
        offline_slash_percent: 500,
        invalid_verification_slash_percent: 1000,
        malicious_slash_percent: 10000,
        max_pools: 50,
        max_delegators_per_pool: 20,
        min_pool_operator_stake: 500,
        max_pool_commission: 5000,
        verifiers_per_era: 5,
        blocks_per_era: 200,
        issuer_reward_percent: 2000,
        max_unbonding_requests: 10,
    }
}

fn with_config(config: Config) -> Pallet {
    Pallet::new(config, &GenesisConfig { admin: Some(1), authorized_issuers: vec![2] })
}

fn new_test_ext() -> Pallet {
    with_config(test_config())
}

fn batch(expires: u64, points: u128, kind: TravelType) -> PointBatch {
    PointBatch { earned_at_block: 1, expires_at_block: expires, remaining_points: points, travel_type: kind }
}

fn mint_free(p: &mut Pallet, owner: u64, expires_at: Option<u64>, name: Vec<u8>) -> Result<(), Error> {
    p.mint_ticket(
        2,
        owner,
        TicketType::Other,
        0,
        expires_at,
        name,
        b"".to_vec(),
        b"".to_vec(),
        b"".to_vec(),
        b"".to_vec(),
        b"".to_vec(),
        b"".to_vec(),
        b"".to_vec(),
    )
}

#[test]
fn scenario_award_spend_expire() {
    let mut p = new_test_ext();
    p.set_block_number(1);
    assert_eq!(p.award_points(2, 10, 500, TravelType::Airline, Some(100)), Ok(()));
    assert_eq!(p.user_points(10)[0].expires_at_block, 101);
    p.set_block_number(150);
    assert_eq!(p.get_available_points(10), 0);
    assert_eq!(p.cleanup_expired(99, 10), Ok(()));
    assert!(p.user_points(10).is_empty());
    assert_eq!(p.total_points(10), 0);
    assert_eq!(
        p.events.last(),
        Some(&Event::PointsExpired { user: 10, amount_expired: 500, batches_removed: 1 })
    );
}

#[test]
fn scenario_multi_batch_fifo() {
    let mut p = new_test_ext();
    p.set_block_number(1);
    assert_eq!(p.award_points(2, 10, 500, TravelType::Airline, None), Ok(()));
    p.set_block_number(2);
    assert_eq!(p.award_points(2, 10, 500, TravelType::Train, None), Ok(()));
    assert_eq!(p.spend_points(10, 600, 2), Ok(()));
    let batches = p.user_points(10);
    assert_eq!(batches.len(), 1);
    assert_eq!(batches[0].remaining_points, 400);
    assert_eq!(batches[0].travel_type, TravelType::Train);
    assert_eq!(batches[0].expires_at_block, 1002);
}

#[test]
fn scenario_unbonding_timing() {
    let mut p = new_test_ext();
    p.set_block_number(1);
    assert_eq!(p.stake(10, 1000), Ok(()));
    assert_eq!(p.request_unbond(10, 500), Ok(()));
    assert_eq!(p.get_unbonding_requests(10)[0].unlocks_at, 51);
    p.set_block_number(50);
    assert_eq!(p.withdraw_unbonded(10), Err(Error::UnbondingNotComplete));
    p.set_block_number(51);
    assert_eq!(p.withdraw_unbonded(10), Ok(()));
    assert!(p.get_unbonding_requests(10).is_empty());
    assert_eq!(p.events.last(), Some(&Event::UnbondingWithdrawn { staker: 10, amount: 500 }));
    assert_eq!(p.get_stake_info(10).expect("stake").amount, 500);
}

#[test]
fn scenario_era_selection_determinism() {
    let mut p = new_test_ext();
    p.set_block_number(1);
    assert_eq!(p.stake(10, 1000), Ok(()));
    assert_eq!(p.stake(20, 2000), Ok(()));
    assert_eq!(p.stake(30, 500), Ok(()));
    p.set_block_number(200);
    let mut q = p.clone();
    assert_eq!(p.rotate_era(99), Ok(()));
    assert_eq!(q.rotate_era(7), Ok(()));
    let first = p.get_current_verifiers();
    assert_eq!(first, vec![20, 10, 30]);
    assert_eq!(q.get_current_verifiers(), first);
    assert!(p.get_stake_info(20).expect("stake").is_verifier);
    assert_eq!(p.events.last(), Some(&Event::EraRotated { era: 1, verifier_count: 3 }));
}

#[test]
fn era_selection_takes_top_stakes_only() {
    let mut config = test_config();
    config.verifiers_per_era = 2;
    let mut p = with_config(config);
    p.set_block_number(1);
    assert_eq!(p.stake(10, 1000), Ok(()));
    assert_eq!(p.stake(20, 2000), Ok(()));
    assert_eq!(p.stake(30, 500), Ok(()));
    p.set_block_number(300);
    assert_eq!(p.rotate_era(1), Ok(()));
    assert_eq!(p.get_current_verifiers(), vec![20, 10]);
    assert!(!p.get_stake_info(30).expect("stake").is_verifier);
    assert!(!p.is_current_verifier(30));
    assert_eq!(p.last_era_block(), 300);
    // the next era is due 200 blocks later
    p.set_block_number(499);
    assert_eq!(p.rotate_era(1), Err(Error::EraRotationNotDue));
}

#[test]
fn era_tie_broken_by_encoding() {
    // 256 encodes as [0, 1, 0, ...] and 1 as [1, 0, 0, ...]: 256 comes first
    assert!(encoded_less(256, 1));
    assert!(!encoded_less(1, 256));
    assert!(encoded_less(1, 2));
    assert!(!encoded_less(7, 7));
    let mut p = new_test_ext();
    p.set_block_number(1);
    assert_eq!(p.stake(1, 1000), Ok(()));
    assert_eq!(p.stake(256, 1000), Ok(()));
    p.set_block_number(200);
    assert_eq!(p.rotate_era(1), Ok(()));
    assert_eq!(p.get_current_verifiers(), vec![256, 1]);
}

#[test]
fn fifo_consumes_prefix() {
    let s = vec![
        batch(10, 100, TravelType::Airline),
        batch(20, 200, TravelType::Train),
        batch(30, 300, TravelType::Bus),
    ];
    let r = spend_batches(&s, 250);
    assert_eq!(r, vec![batch(20, 50, TravelType::Train), batch(30, 300, TravelType::Bus)]);
    let r = spend_batches(&s, 300);
    assert_eq!(r, vec![batch(30, 300, TravelType::Bus)]);
    let r = spend_batches(&s, 0);
    assert_eq!(r, s);
}

#[test]
fn insert_keeps_expiry_order() {
    let s = vec![batch(10, 1, TravelType::Airline), batch(30, 3, TravelType::Bus)];
    let r = insert_batch(&s, batch(20, 2, TravelType::Train));
    assert_eq!(r.iter().map(|b| b.expires_at_block).collect::<Vec<_>>(), vec![10, 20, 30]);
    // equal expiry: the newer batch goes after the older one
    let r = insert_batch(&s, batch(10, 9, TravelType::Other));
    assert_eq!(r[0].remaining_points, 1);
    assert_eq!(r[1].remaining_points, 9);
}

#[test]
fn sweep_reports_expired() {
    let s = vec![batch(10, 100, TravelType::Airline), batch(20, 200, TravelType::Train), batch(30, 300, TravelType::Bus)];
    let (kept, expired, removed) = sweep_expired(&s, 20);
    assert_eq!(kept, vec![batch(30, 300, TravelType::Bus)]);
    assert_eq!(expired, 300);
    assert_eq!(removed, 2);
}

#[test]
fn cache_matches_available_after_each_call() {
    let mut p = new_test_ext();
    p.set_block_number(1);
    assert_eq!(p.award_points(2, 10, 300, TravelType::Airline, Some(50)), Ok(()));
    assert_eq!(p.award_points(2, 10, 200, TravelType::Train, Some(500)), Ok(()));
    assert_eq!(p.total_points(10), p.get_available_points(10));
    p.set_block_number(60);
    assert_eq!(p.spend_points(10, 50, 2), Ok(()));
    assert_eq!(p.total_points(10), 150);
    assert_eq!(p.total_points(10), p.get_available_points(10));
}

#[test]
fn overspend_leaves_state_unchanged() {
    let mut p = new_test_ext();
    p.set_block_number(1);
    assert_eq!(p.award_points(2, 10, 300, TravelType::Airline, Some(50)), Ok(()));
    assert_eq!(p.award_points(2, 10, 200, TravelType::Train, Some(500)), Ok(()));
    p.set_block_number(60);
    // 300 points have expired: 200 are left
    let before = p.clone();
    assert_eq!(p.spend_points(10, 201, 2), Err(Error::InsufficientPoints));
    assert_eq!(p, before);
}

#[test]
fn swept_batch_never_spendable_again() {
    let mut p = new_test_ext();
    p.set_block_number(1);
    assert_eq!(p.award_points(2, 10, 300, TravelType::Airline, Some(10)), Ok(()));
    p.set_block_number(11);
    assert_eq!(p.cleanup_expired(5, 10), Ok(()));
    p.set_block_number(12);
    assert_eq!(p.spend_points(10, 1, 2), Err(Error::InsufficientPoints));
    assert_eq!(p.get_available_points(10), 0);
}

#[test]
fn slash_amount_formula() {
    assert_eq!(slash_amount(1234, 500), 61);
    assert_eq!(slash_amount(1000, 10_000), 1000);
    assert_eq!(slash_amount(u128::MAX, 10_000), u128::MAX);
    assert_eq!(slash_amount(u128::MAX, 5_000), u128::MAX / 2);
    assert_eq!(apply_bps(19_999, 1), 1);
}

#[test]
fn slash_other_uses_offline_rate() {
    let mut p = new_test_ext();
    p.set_block_number(3);
    assert_eq!(p.stake(10, 1000), Ok(()));
    assert_eq!(p.slash_staker(1, 10, SlashReason::Other), Ok(()));
    assert_eq!(p.get_stake_info(10).expect("stake").amount, 950);
    let records = p.get_slash_records(10);
    assert_eq!(records[0].reason, SlashReason::Other);
    assert_eq!(records[0].slashed_at, 3);
    assert_eq!(p.total_staked(), 950);
}

#[test]
fn slash_after_full_slash_is_zero() {
    let mut p = new_test_ext();
    p.set_block_number(1);
    assert_eq!(p.stake(10, 1000), Ok(()));
    assert_eq!(p.slash_staker(1, 10, SlashReason::Malicious), Ok(()));
    assert_eq!(p.get_stake_info(10).expect("stake").amount, 0);
    let before = p.clone();
    assert_eq!(p.slash_staker(1, 10, SlashReason::Offline), Err(Error::SlashAmountZero));
    assert_eq!(p, before);
    assert_eq!(p.slash_staker(1, 77, SlashReason::Offline), Err(Error::NotStaker));
}

#[test]
fn pool_total_tracks_delegations() {
    let mut p = new_test_ext();
    p.set_block_number(1);
    assert_eq!(p.create_pool(10, 1000, 100), Ok(()));
    assert_eq!(p.delegate(20, 0, 500), Ok(()));
    assert_eq!(p.delegate(21, 0, 300), Ok(()));
    let pool = p.get_pool(0).expect("pool");
    assert_eq!(pool.total_stake, 1800);
    assert_eq!(pool.delegator_count, 2);
    assert_eq!(p.undelegate(20), Ok(()));
    let pool = p.get_pool(0).expect("pool");
    assert_eq!(pool.total_stake, 1300);
    assert_eq!(pool.operator_stake, 1000);
    assert_eq!(p.get_pool_delegators(0), vec![21]);
    assert_eq!(p.total_staked(), 1300);
    assert_eq!(p.events.last(), Some(&Event::Undelegated { delegator: 20, pool_id: 0, amount: 500 }));
}

#[test]
fn pool_errors() {
    let mut p = new_test_ext();
    p.set_block_number(1);
    assert_eq!(p.delegate(20, 0, 500), Err(Error::PoolNotFound));
    assert_eq!(p.undelegate(20), Err(Error::NotDelegating));
    assert_eq!(p.create_pool(10, 1000, 100), Ok(()));
    assert_eq!(p.delegate(20, 0, 0), Err(Error::ZeroAmount));
    assert_eq!(p.delegate(20, 0, 500), Ok(()));
    assert_eq!(p.delegate(20, 0, 500), Err(Error::AlreadyDelegating));
    assert_eq!(p.close_pool(11, 0), Err(Error::NotPoolOperator));
    assert_eq!(p.close_pool(10, 5), Err(Error::PoolNotFound));
    assert_eq!(p.set_pool_commission(10, 5, 10), Err(Error::PoolNotFound));
    assert_eq!(p.set_pool_commission(10, 0, 5001), Err(Error::CommissionTooHigh));
}

#[test]
fn pool_capacity_errors() {
    let mut config = test_config();
    config.max_pools = 1;
    config.max_delegators_per_pool = 1;
    let mut p = with_config(config);
    assert_eq!(p.create_pool(10, 1000, 100), Ok(()));
    assert_eq!(p.create_pool(11, 1000, 100), Err(Error::TooManyPools));
    assert_eq!(p.delegate(20, 0, 500), Ok(()));
    assert_eq!(p.delegate(21, 0, 500), Err(Error::TooManyDelegators));
}

#[test]
fn reward_split_conserves_pool() {
    assert_eq!(split_reward_pool(10_000, 2000), (2000, 8000));
    assert_eq!(split_reward_pool(9_999, 2000), (1999, 8000));
    assert_eq!(split_reward_pool(u128::MAX, 2000).0 + split_reward_pool(u128::MAX, 2000).1, u128::MAX);
    assert_eq!(mul_div_saturating(8000, 1000, 3000), 2666);
    assert_eq!(mul_div_saturating(u128::MAX, 2, 4), u128::MAX / 4);
}

#[test]
fn distribution_shares() {
    let mut p = new_test_ext();
    p.set_block_number(1);
    assert_eq!(p.stake(10, 1000), Ok(()));
    assert_eq!(p.stake(20, 3000), Ok(()));
    assert_eq!(p.add_to_reward_pool(99, 10_000), Ok(()));
    assert_eq!(p.award_points(2, 30, 1000, TravelType::Airline, None), Ok(()));
    assert_eq!(p.spend_points(30, 500, 2), Ok(()));
    let period = p.current_period();
    assert_eq!(p.distribute_rewards(1, period), Ok(()));
    assert_eq!(p.reward_pool(), 0);
    assert_eq!(p.pending_staker_rewards(10), 2000);
    assert_eq!(p.pending_staker_rewards(20), 6000);
    assert_eq!(p.pending_issuer_rewards(2), 2000);
    assert_eq!(p.get_pending_rewards(2), 2000);
    assert_eq!(
        p.events.last(),
        Some(&Event::RewardsDistributed { period: 0, staker_rewards: 8000, issuer_rewards: 2000 })
    );
    assert_eq!(p.claim_rewards(2), Ok(()));
    assert_eq!(p.events.last(), Some(&Event::RewardClaimed { account: 2, amount: 2000 }));
    assert_eq!(p.get_pending_rewards(2), 0);
}

#[test]
fn distribution_errors() {
    let mut p = new_test_ext();
    assert_eq!(p.distribute_rewards(1, 0), Err(Error::NoRewardsToClaim));
    assert_eq!(p.add_to_reward_pool(9, 0), Err(Error::ZeroAmount));
    assert_eq!(p.add_to_reward_pool(9, 5), Ok(()));
    assert_eq!(p.distribute_rewards(3, 0), Err(Error::NotAdmin));
}

#[test]
fn zero_period_length_uses_height() {
    assert_eq!(current_period(1234, 0), 1234);
    assert_eq!(current_period(1234, 100), 12);
    let mut config = test_config();
    config.blocks_per_reward_period = 0;
    let mut p = with_config(config);
    p.set_block_number(77);
    assert_eq!(p.current_period(), 77);
}

#[test]
fn batch_capacity_and_overflow() {
    let mut config = test_config();
    config.max_point_batches = 2;
    let mut p = with_config(config);
    p.set_block_number(1);
    assert_eq!(p.award_points(2, 10, 1, TravelType::Bus, None), Ok(()));
    assert_eq!(p.award_points(2, 10, 1, TravelType::Bus, None), Ok(()));
    let before = p.clone();
    assert_eq!(p.award_points(2, 10, 1, TravelType::Bus, None), Err(Error::TooManyBatches));
    assert_eq!(p, before);
    assert_eq!(p.award_points(2, 11, u128::MAX, TravelType::Bus, None), Ok(()));
    assert_eq!(p.award_points(2, 11, 1, TravelType::Bus, None), Err(Error::ArithmeticOverflow));
}

#[test]
fn issuer_management_errors() {
    let mut p = new_test_ext();
    assert_eq!(p.authorize_issuer(1, 2), Err(Error::AlreadyAuthorized));
    assert_eq!(p.revoke_issuer(1, 5), Err(Error::NotAuthorized));
    assert_eq!(p.revoke_issuer(4, 2), Err(Error::NotAdmin));
    assert_eq!(p.set_admin(Origin::Signed(4), 4), Err(Error::NotAdmin));
    assert_eq!(p.set_admin(Origin::Root, 4), Ok(()));
    assert!(p.is_admin(4));
    assert_eq!(p.events.last(), Some(&Event::AdminChanged { old_admin: Some(1), new_admin: 4 }));
}

#[test]
fn ticket_errors() {
    let mut p = new_test_ext();
    p.set_block_number(1);
    assert_eq!(mint_free(&mut p, 10, Some(5), vec![b'x'; 129]), Err(Error::StringTooLong));
    assert_eq!(mint_free(&mut p, 10, Some(5), vec![b'x'; 128]), Ok(()));
    assert_eq!(p.redeem_ticket(11, 0), Err(Error::NotTicketOwner));
    assert_eq!(p.redeem_ticket(10, 3), Err(Error::TicketNotFound));
    assert_eq!(p.transfer_ticket(11, 0, 12), Err(Error::NotTicketOwner));
    p.set_block_number(5);
    assert_eq!(p.redeem_ticket(10, 0), Err(Error::TicketExpired));
    assert_eq!(
        p.mint_ticket(
            2,
            10,
            TicketType::Other,
            10,
            None,
            b"".to_vec(),
            b"".to_vec(),
            b"".to_vec(),
            b"".to_vec(),
            b"".to_vec(),
            b"".to_vec(),
            b"".to_vec(),
            b"".to_vec(),
        ),
        Err(Error::InsufficientPoints)
    );
}

#[test]
fn redeemed_ticket_cannot_move() {
    let mut p = new_test_ext();
    p.set_block_number(1);
    assert_eq!(mint_free(&mut p, 10, None, b"a".to_vec()), Ok(()));
    assert_eq!(p.redeem_ticket(10, 0), Ok(()));
    assert_eq!(p.transfer_ticket(10, 0, 20), Err(Error::TicketAlreadyRedeemed));
    assert_eq!(p.unmint_ticket(10, 0), Ok(()));
}

#[test]
fn ticket_capacity() {
    let mut config = test_config();
    config.max_tickets_per_user = 1;
    let mut p = with_config(config);
    assert_eq!(mint_free(&mut p, 10, None, b"a".to_vec()), Ok(()));
    assert_eq!(mint_free(&mut p, 10, None, b"b".to_vec()), Err(Error::TooManyTickets));
    assert_eq!(mint_free(&mut p, 20, None, b"c".to_vec()), Ok(()));
    assert_eq!(p.transfer_ticket(10, 0, 20), Err(Error::TooManyTickets));
    assert_eq!(p.next_ticket_id(), 2);
}

#[test]
fn staking_errors() {
    let mut config = test_config();
    config.max_stakers = 1;
    config.max_unbonding_requests = 1;
    let mut p = with_config(config);
    assert_eq!(p.stake(10, 500), Ok(()));
    assert_eq!(p.stake(11, 500), Err(Error::TooManyStakers));
    assert_eq!(p.increase_stake(10, 0), Err(Error::ZeroAmount));
    assert_eq!(p.request_unbond(10, 0), Err(Error::ZeroAmount));
    assert_eq!(p.request_unbond(11, 5), Err(Error::NotStaker));
    assert_eq!(p.request_unbond(10, 501), Err(Error::InsufficientBalance));
    assert_eq!(p.withdraw_unbonded(10), Err(Error::NoUnbondingRequests));
    assert_eq!(p.cancel_unbonding(10), Err(Error::NoUnbondingRequests));
    assert_eq!(p.request_unbond(10, 100), Ok(()));
    assert_eq!(p.request_unbond(10, 100), Err(Error::TooManyUnbondingRequests));
}

#[test]
fn full_unbond_removes_staker() {
    let mut p = new_test_ext();
    p.set_block_number(1);
    assert_eq!(p.stake(10, 500), Ok(()));
    assert_eq!(p.request_unbond(10, 500), Ok(()));
    assert_eq!(p.total_staked(), 0);
    p.set_block_number(100);
    assert_eq!(p.withdraw_unbonded(10), Ok(()));
    assert!(p.get_stake_info(10).is_none());
    assert!(p.get_all_stakers().is_empty());
}

#[test]
fn defaults() {
    assert_eq!(TravelType::default(), TravelType::Other);
    assert_eq!(TicketType::default(), TicketType::Other);
    assert_eq!(SlashReason::default(), SlashReason::Other);
    let pool = travel_points::types::StakingPool::default();
    assert!(!pool.is_active);
    assert_eq!(pool.total_stake, 0);
    let record = travel_points::types::IssuerDailyRecord::default();
    assert_eq!(record.points_spent, 0);
}
