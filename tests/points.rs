use travel_points::pallet::Pallet;
use travel_points::types::{Config, Error, Event, GenesisConfig, Origin, TravelType};

fn test_config() -> Config {
    Config {
        max_point_batches: 100,
        default_expiration_period: 1000,
        max_tickets_per_user: 50,
        max_stakers: 100,
        min_stake_amount: 100,
        staker_reward_percent: 3000,
        blocks_per_reward_period: 100,
        unbonding_period: 50,
        offline_slash_percent: 500,
        invalid_verification_slash_percent: 1000,
        malicious_slash_percent: 10000,
        max_pools: 50,
        max_delegators_per_pool: 20,
        min_pool_operator_stake: 500,
        max_pool_commission: 5000,
        verifiers_per_era: 5,
        blocks_per_era: 200,
        issuer_reward_percent: 2000,
        max_unbonding_requests: 10,
    }
}

/// Account 1 is the admin; account 2 may issue points.
fn new_test_ext() -> Pallet {
    Pallet::new(test_config(), &GenesisConfig { admin: Some(1), authorized_issuers: vec![2] })
}

#[test]
fn award_points_works() {
    let mut p = new_test_ext();
    p.set_block_number(1);
    assert_eq!(p.award_points(2, 10, 1000, TravelType::Airline, None), Ok(()));
    assert_eq!(p.total_points(10), 1000);
    let batches = p.user_points(10);
    assert_eq!(batches.len(), 1);
    assert_eq!(batches[0].remaining_points, 1000);
    assert_eq!(batches[0].earned_at_block, 1);
    assert_eq!(batches[0].expires_at_block, 1001);
    assert_eq!(batches[0].travel_type, TravelType::Airline);
    assert_eq!(
        p.events.last(),
        Some(&Event::PointsEarned {
            recipient: 10,
            amount: 1000,
            expires_at_block: 1001,
            travel_type: TravelType::Airline,
        })
    );
}

#[test]
fn award_points_unauthorized_fails() {
    let mut p = new_test_ext();
    p.set_block_number(1);
    let before = p.clone();
    assert_eq!(p.award_points(5, 10, 1000, TravelType::Train, None), Err(Error::NotAuthorizedIssuer));
    assert_eq!(p, before);
}

#[test]
fn award_points_zero_amount_fails() {
    let mut p = new_test_ext();
    p.set_block_number(1);
    let before = p.clone();
    assert_eq!(p.award_points(2, 10, 0, TravelType::Bus, None), Err(Error::ZeroAmount));
    assert_eq!(p, before);
}

#[test]
fn award_points_custom_expiration_works() {
    let mut p = new_test_ext();
    p.set_block_number(10);
    assert_eq!(p.award_points(2, 10, 500, TravelType::Other, Some(500)), Ok(()));
    let batches = p.user_points(10);
    assert_eq!(batches[0].expires_at_block, 510);
}

#[test]
fn spend_points_works() {
    let mut p = new_test_ext();
    p.set_block_number(1);
    assert_eq!(p.award_points(2, 10, 1000, TravelType::Airline, None), Ok(()));
    assert_eq!(p.spend_points(10, 300, 2), Ok(()));
    assert_eq!(p.total_points(10), 700);
    let batches = p.user_points(10);
    assert_eq!(batches[0].remaining_points, 700);
    assert_eq!(
        p.events.last(),
        Some(&Event::PointsSpent { user: 10, amount_spent: 300, remaining_balance: 700, issuer: 2 })
    );
}

#[test]
fn spend_points_fifo_works() {
    let mut p = new_test_ext();
    p.set_block_number(1);
    assert_eq!(p.award_points(2, 10, 500, TravelType::Airline, None), Ok(()));
    p.set_block_number(2);
    assert_eq!(p.award_points(2, 10, 500, TravelType::Train, None), Ok(()));
    assert_eq!(p.total_points(10), 1000);
    assert_eq!(p.spend_points(10, 600, 2), Ok(()));
    let batches = p.user_points(10);
    assert_eq!(batches.len(), 1);
    assert_eq!(batches[0].remaining_points, 400);
    assert_eq!(batches[0].travel_type, TravelType::Train);
}

#[test]
fn spend_points_insufficient_fails() {
    let mut p = new_test_ext();
    p.set_block_number(1);
    assert_eq!(p.award_points(2, 10, 500, TravelType::Airline, None), Ok(()));
    let before = p.clone();
    assert_eq!(p.spend_points(10, 600, 2), Err(Error::InsufficientPoints));
    assert_eq!(p, before);
}

#[test]
fn spend_points_zero_fails() {
    let mut p = new_test_ext();
    p.set_block_number(1);
    assert_eq!(p.award_points(2, 10, 500, TravelType::Airline, None), Ok(()));
    let before = p.clone();
    assert_eq!(p.spend_points(10, 0, 2), Err(Error::ZeroAmount));
    assert_eq!(p, before);
}

#[test]
fn spend_points_unauthorized_issuer_fails() {
    let mut p = new_test_ext();
    p.set_block_number(1);
    assert_eq!(p.award_points(2, 10, 500, TravelType::Airline, None), Ok(()));
    let before = p.clone();
    assert_eq!(p.spend_points(10, 100, 5), Err(Error::NotAuthorizedIssuer));
    assert_eq!(p, before);
}

#[test]
fn expired_points_not_available() {
    let mut p = new_test_ext();
    p.set_block_number(1);
    assert_eq!(p.award_points(2, 10, 500, TravelType::Airline, Some(100)), Ok(()));
    p.set_block_number(200);
    assert_eq!(p.award_points(2, 10, 100, TravelType::Train, None), Ok(()));
    assert_eq!(p.get_available_points(10), 100);
}

#[test]
fn cleanup_expired_works() {
    let mut p = new_test_ext();
    p.set_block_number(1);
    assert_eq!(p.award_points(2, 10, 500, TravelType::Bus, Some(100)), Ok(()));
    p.set_block_number(150);
    assert_eq!(p.cleanup_expired(99, 10), Ok(()));
    let batches = p.user_points(10);
    assert_eq!(batches.len(), 0);
    assert_eq!(p.total_points(10), 0);
}

#[test]
fn authorize_issuer_works() {
    let mut p = new_test_ext();
    p.set_block_number(1);
    assert_eq!(p.authorize_issuer(1, 5), Ok(()));
    assert_eq!(p.award_points(5, 10, 100, TravelType::Other, None), Ok(()));
    assert!(p.events.contains(&Event::IssuerAuthorized { issuer: 5 }));
}

#[test]
fn authorize_issuer_not_admin_fails() {
    let mut p = new_test_ext();
    p.set_block_number(1);
    let before = p.clone();
    assert_eq!(p.authorize_issuer(5, 10), Err(Error::NotAdmin));
    assert_eq!(p, before);
}

#[test]
fn revoke_issuer_works() {
    let mut p = new_test_ext();
    p.set_block_number(1);
    assert_eq!(p.revoke_issuer(1, 2), Ok(()));
    let before = p.clone();
    assert_eq!(p.award_points(2, 10, 100, TravelType::Airline, None), Err(Error::NotAuthorizedIssuer));
    assert_eq!(p, before);
}

#[test]
fn set_admin_works() {
    let mut p = new_test_ext();
    p.set_block_number(1);
    assert_eq!(p.set_admin(Origin::Signed(1), 5), Ok(()));
    let before = p.clone();
    assert_eq!(p.authorize_issuer(1, 10), Err(Error::NotAdmin));
    assert_eq!(p, before);
    assert_eq!(p.authorize_issuer(5, 10), Ok(()));
}

#[test]
fn multiple_travel_types_work() {
    let mut p = new_test_ext();
    p.set_block_number(1);
    assert_eq!(p.award_points(2, 10, 100, TravelType::Airline, Some(500)), Ok(()));
    p.set_block_number(2);
    assert_eq!(p.award_points(2, 10, 200, TravelType::Train, Some(600)), Ok(()));
    p.set_block_number(3);
    assert_eq!(p.award_points(2, 10, 150, TravelType::Bus, Some(700)), Ok(()));
    assert_eq!(p.total_points(10), 450);
    let batches = p.user_points(10);
    assert_eq!(batches.len(), 3);
    assert_eq!(batches[0].travel_type, TravelType::Airline);
    assert_eq!(batches[1].travel_type, TravelType::Train);
    assert_eq!(batches[2].travel_type, TravelType::Bus);
}

#[test]
fn spend_across_batches_removes_empty() {
    let mut p = new_test_ext();
    p.set_block_number(1);
    for i in 0..3u64 {
        p.set_block_number(1 + i);
        assert_eq!(p.award_points(2, 10, 100, TravelType::Airline, None), Ok(()));
    }
    assert_eq!(p.total_points(10), 300);
    assert_eq!(p.user_points(10).len(), 3);
    assert_eq!(p.spend_points(10, 250, 2), Ok(()));
    let batches = p.user_points(10);
    assert_eq!(batches.len(), 1);
    assert_eq!(batches[0].remaining_points, 50);
    assert_eq!(p.total_points(10), 50);
}

#[test]
fn get_available_points_works() {
    let mut p = new_test_ext();
    p.set_block_number(1);
    assert_eq!(p.award_points(2, 10, 500, TravelType::Airline, Some(100)), Ok(()));
    assert_eq!(p.get_available_points(10), 500);
    p.set_block_number(150);
    assert_eq!(p.get_available_points(10), 0);
}

#[test]
fn get_point_details_works() {
    let mut p = new_test_ext();
    p.set_block_number(1);
    assert_eq!(p.award_points(2, 10, 500, TravelType::Airline, Some(100)), Ok(()));
    assert_eq!(p.award_points(2, 10, 300, TravelType::Train, Some(200)), Ok(()));
    let details = p.get_point_details(10);
    assert_eq!(details.len(), 2);
    assert_eq!(details[0], (500, 101, TravelType::Airline));
    assert_eq!(details[1], (300, 201, TravelType::Train));
}

#[test]
fn contract_award_points_works() {
    let mut p = new_test_ext();
    p.set_block_number(1);
    assert_eq!(p.contract_award_points(2, 10, 500, TravelType::Airline, None), Ok(()));
    assert_eq!(p.total_points(10), 500);
}

#[test]
fn contract_check_balance_works() {
    let mut p = new_test_ext();
    p.set_block_number(1);
    assert_eq!(p.award_points(2, 10, 1000, TravelType::Airline, None), Ok(()));
    assert_eq!(p.contract_check_balance(10), 1000);
}

#[test]
fn contract_is_authorized_issuer_works() {
    let p = new_test_ext();
    assert!(p.contract_is_authorized_issuer(2));
    assert!(!p.contract_is_authorized_issuer(5));
}

#[test]
fn issuer_spending_tracked() {
    let mut p = new_test_ext();
    p.set_block_number(1);
    assert_eq!(p.award_points(2, 10, 1000, TravelType::Airline, None), Ok(()));
    assert_eq!(p.spend_points(10, 300, 2), Ok(()));
    let period = p.current_period();
    let record = p.get_issuer_period_record(period, 2);
    assert_eq!(record.points_spent, 300);
    assert_eq!(record.transaction_count, 1);
    assert_eq!(p.get_period_total_spent(period), 300);
    assert_eq!(p.spend_points(10, 200, 2), Ok(()));
    let record = p.get_issuer_period_record(period, 2);
    assert_eq!(record.points_spent, 500);
    assert_eq!(record.transaction_count, 2);
}
