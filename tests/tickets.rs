use travel_points::pallet::Pallet;
use travel_points::types::{Config, Error, Event, GenesisConfig, TicketType, TravelType};

fn test_config() -> Config {
    Config {
        max_point_batches: 100,
        default_expiration_period: 1000,
        max_tickets_per_user: 50,
        max_stakers: 100,
        min_stake_amount: 100,
        staker_reward_percent: 3000,
        blocks_per_reward_period: 100,
        unbonding_period: 50,
        offline_slash_percent: 500,
        invalid_verification_slash_percent: 1000,
        malicious_slash_percent: 10000,
        max_pools: 50,
        max_delegators_per_pool: 20,
        min_pool_operator_stake: 500,
        max_pool_commission: 5000,
        verifiers_per_era: 5,
        blocks_per_era: 200,
        issuer_reward_percent: 2000,
        max_unbonding_requests: 10,
    }
}

/// Account 1 is the admin; account 2 may issue points.
fn new_test_ext() -> Pallet {
    Pallet::new(test_config(), &GenesisConfig { admin: Some(1), authorized_issuers: vec![2] })
}

#[test]
fn mint_ticket_works() {
    let mut p = new_test_ext();
    p.set_block_number(1);
    assert_eq!(p.award_points(2, 10, 1000, TravelType::Airline, None), Ok(()));
    assert_eq!(
        p.mint_ticket(
            2,
            10,
            TicketType::PlaneTicket,
            500,
            Some(2000),
            b"John Doe".to_vec(),
            b"AB123".to_vec(),
            b"A12".to_vec(),
            b"15A".to_vec(),
            b"New York".to_vec(),
            b"Los Angeles".to_vec(),
            b"2024-03-15 10:00".to_vec(),
            b"Business Class".to_vec(),
        ),
        Ok(())
    );
    assert_eq!(p.total_points(10), 500);
    let ticket = p.get_ticket(0).expect("Ticket should exist");
    assert_eq!(ticket.owner, 10);
    assert_eq!(ticket.issuer, 2);
    assert_eq!(ticket.ticket_type, TicketType::PlaneTicket);
    assert_eq!(ticket.points_cost, 500);
    assert!(!ticket.is_redeemed);
    let user_tickets = p.get_user_tickets(10);
    assert_eq!(user_tickets.len(), 1);
    assert_eq!(user_tickets[0], 0);
}

#[test]
fn mint_free_ticket_works() {
    let mut p = new_test_ext();
    p.set_block_number(1);
    assert_eq!(
        p.mint_ticket(
            2,
            10,
            TicketType::Bonus,
            0,
            None,
            b"Jane Doe".to_vec(),
            b"".to_vec(),
            b"".to_vec(),
            b"".to_vec(),
            b"".to_vec(),
            b"".to_vec(),
            b"".to_vec(),
            b"Lounge Access".to_vec(),
        ),
        Ok(())
    );
    let ticket = p.get_ticket(0).expect("Ticket should exist");
    assert_eq!(ticket.ticket_type, TicketType::Bonus);
    assert_eq!(ticket.points_cost, 0);
}

#[test]
fn redeem_ticket_works() {
    let mut p = new_test_ext();
    p.set_block_number(1);
    assert_eq!(
        p.mint_ticket(
            2,
            10,
            TicketType::TrainTicket,
            0,
            None,
            b"Test User".to_vec(),
            b"TR456".to_vec(),
            b"".to_vec(),
            b"22B".to_vec(),
            b"Chicago".to_vec(),
            b"Detroit".to_vec(),
            b"2024-04-01 14:00".to_vec(),
            b"".to_vec(),
        ),
        Ok(())
    );
    assert_eq!(p.redeem_ticket(10, 0), Ok(()));
    let ticket = p.get_ticket(0).expect("Ticket should exist");
    assert!(ticket.is_redeemed);
    let before = p.clone();
    assert_eq!(p.redeem_ticket(10, 0), Err(Error::TicketAlreadyRedeemed));
    assert_eq!(p, before);
}

#[test]
fn transfer_ticket_works() {
    let mut p = new_test_ext();
    p.set_block_number(1);
    assert_eq!(
        p.mint_ticket(
            2,
            10,
            TicketType::BusTicket,
            0,
            None,
            b"Original Owner".to_vec(),
            b"BUS001".to_vec(),
            b"".to_vec(),
            b"5".to_vec(),
            b"City A".to_vec(),
            b"City B".to_vec(),
            b"2024-05-01 09:00".to_vec(),
            b"".to_vec(),
        ),
        Ok(())
    );
    assert_eq!(p.transfer_ticket(10, 0, 20), Ok(()));
    let ticket = p.get_ticket(0).expect("Ticket should exist");
    assert_eq!(ticket.owner, 20);
    assert_eq!(p.get_user_tickets(10).len(), 0);
    assert_eq!(p.get_user_tickets(20).len(), 1);
}

#[test]
fn mint_ticket_unauthorized_fails() {
    let mut p = new_test_ext();
    p.set_block_number(1);
    let before = p.clone();
    assert_eq!(
        p.mint_ticket(
            5,
            10,
            TicketType::PlaneTicket,
            0,
            None,
            b"Test".to_vec(),
            b"".to_vec(),
            b"".to_vec(),
            b"".to_vec(),
            b"".to_vec(),
            b"".to_vec(),
            b"".to_vec(),
            b"".to_vec(),
        ),
        Err(Error::NotAuthorizedIssuer)
    );
    assert_eq!(p, before);
}

fn mint_plane_ticket(p: &mut Pallet, owner: u64, cost: u128, expires_at: Option<u64>, name: &[u8]) {
    assert_eq!(
        p.mint_ticket(
            2,
            owner,
            TicketType::PlaneTicket,
            cost,
            expires_at,
            name.to_vec(),
            b"AB123".to_vec(),
            b"A12".to_vec(),
            b"15A".to_vec(),
            b"New York".to_vec(),
            b"Los Angeles".to_vec(),
            b"2024-03-15 10:00".to_vec(),
            b"".to_vec(),
        ),
        Ok(())
    );
}

#[test]
fn unmint_ticket_works() {
    let mut p = new_test_ext();
    p.set_block_number(1);
    assert_eq!(
        p.mint_ticket(
            2,
            10,
            TicketType::PlaneTicket,
            0,
            None,
            b"Test User".to_vec(),
            b"AB123".to_vec(),
            b"A12".to_vec(),
            b"15A".to_vec(),
            b"New York".to_vec(),
            b"Los Angeles".to_vec(),
            b"2024-03-15 10:00".to_vec(),
            b"Business Class".to_vec(),
        ),
        Ok(())
    );
    assert!(p.get_ticket(0).is_some());
    assert_eq!(p.get_user_tickets(10).len(), 1);
    assert_eq!(p.unmint_ticket(10, 0), Ok(()));
    assert!(p.get_ticket(0).is_none());
    assert_eq!(p.get_user_tickets(10).len(), 0);
    assert_eq!(p.events.last(), Some(&Event::TicketUnminted { ticket_id: 0, owner: 10 }));
}

#[test]
fn unmint_redeemed_ticket_works() {
    let mut p = new_test_ext();
    p.set_block_number(1);
    assert_eq!(
        p.mint_ticket(
            2,
            10,
            TicketType::TrainTicket,
            0,
            None,
            b"Test User".to_vec(),
            b"TR456".to_vec(),
            b"".to_vec(),
            b"22B".to_vec(),
            b"Chicago".to_vec(),
            b"Detroit".to_vec(),
            b"2024-04-01 14:00".to_vec(),
            b"".to_vec(),
        ),
        Ok(())
    );
    assert_eq!(p.redeem_ticket(10, 0), Ok(()));
    assert_eq!(p.unmint_ticket(10, 0), Ok(()));
    assert!(p.get_ticket(0).is_none());
}

#[test]
fn unmint_ticket_not_found_fails() {
    let mut p = new_test_ext();
    p.set_block_number(1);
    let before = p.clone();
    assert_eq!(p.unmint_ticket(10, 999), Err(Error::TicketNotFound));
    assert_eq!(p, before);
}

#[test]
fn unmint_ticket_not_owner_fails() {
    let mut p = new_test_ext();
    p.set_block_number(1);
    assert_eq!(
        p.mint_ticket(
            2,
            10,
            TicketType::BusTicket,
            0,
            None,
            b"Test".to_vec(),
            b"BUS001".to_vec(),
            b"".to_vec(),
            b"5".to_vec(),
            b"City A".to_vec(),
            b"City B".to_vec(),
            b"2024-05-01 09:00".to_vec(),
            b"".to_vec(),
        ),
        Ok(())
    );
    let before = p.clone();
    assert_eq!(p.unmint_ticket(20, 0), Err(Error::NotTicketOwner));
    assert_eq!(p, before);
}

#[test]
fn unmint_ticket_double_unmint_fails() {
    let mut p = new_test_ext();
    p.set_block_number(1);
    assert_eq!(
        p.mint_ticket(
            2,
            10,
            TicketType::Bonus,
            0,
            None,
            b"Test".to_vec(),
            b"".to_vec(),
            b"".to_vec(),
            b"".to_vec(),
            b"".to_vec(),
            b"".to_vec(),
            b"".to_vec(),
            b"Lounge Access".to_vec(),
        ),
        Ok(())
    );
    assert_eq!(p.unmint_ticket(10, 0), Ok(()));
    let before = p.clone();
    assert_eq!(p.unmint_ticket(10, 0), Err(Error::TicketNotFound));
    assert_eq!(p, before);
}

#[test]
fn force_unmint_ticket_works() {
    let mut p = new_test_ext();
    p.set_block_number(1);
    mint_plane_ticket(&mut p, 10, 0, None, b"Test User");
    assert_eq!(p.force_unmint_ticket(1, 0), Ok(()));
    assert!(p.get_ticket(0).is_none());
    assert_eq!(p.get_user_tickets(10).len(), 0);
    assert_eq!(p.events.last(), Some(&Event::TicketForceUnminted { ticket_id: 0, owner: 10, admin: 1 }));
}

#[test]
fn force_unmint_ticket_not_admin_fails() {
    let mut p = new_test_ext();
    p.set_block_number(1);
    assert_eq!(
        p.mint_ticket(
            2,
            10,
            TicketType::TrainTicket,
            0,
            None,
            b"Test".to_vec(),
            b"TR456".to_vec(),
            b"".to_vec(),
            b"22B".to_vec(),
            b"Chicago".to_vec(),
            b"Detroit".to_vec(),
            b"2024-04-01 14:00".to_vec(),
            b"".to_vec(),
        ),
        Ok(())
    );
    let before = p.clone();
    assert_eq!(p.force_unmint_ticket(5, 0), Err(Error::NotAdmin));
    assert_eq!(p, before);
}

#[test]
fn force_unmint_ticket_not_found_fails() {
    let mut p = new_test_ext();
    p.set_block_number(1);
    let before = p.clone();
    assert_eq!(p.force_unmint_ticket(1, 999), Err(Error::TicketNotFound));
    assert_eq!(p, before);
}

#[test]
fn cleanup_expired_tickets_works() {
    let mut p = new_test_ext();
    p.set_block_number(1);
    mint_plane_ticket(&mut p, 10, 0, Some(100), b"Test User");
    assert!(p.get_ticket(0).is_some());
    assert_eq!(p.get_user_tickets(10).len(), 1);
    p.set_block_number(150);
    assert_eq!(p.cleanup_expired_tickets(99, 10), Ok(()));
    assert!(p.get_ticket(0).is_none());
    assert_eq!(p.get_user_tickets(10).len(), 0);
    assert_eq!(p.events.last(), Some(&Event::ExpiredTicketsCleaned { user: 10, tickets_removed: 1 }));
}

#[test]
fn cleanup_expired_tickets_no_expired() {
    let mut p = new_test_ext();
    p.set_block_number(1);
    assert_eq!(
        p.mint_ticket(
            2,
            10,
            TicketType::TrainTicket,
            0,
            Some(1000),
            b"Test".to_vec(),
            b"TR456".to_vec(),
            b"".to_vec(),
            b"22B".to_vec(),
            b"Chicago".to_vec(),
            b"Detroit".to_vec(),
            b"2024-04-01 14:00".to_vec(),
            b"".to_vec(),
        ),
        Ok(())
    );
    p.set_block_number(500);
    assert_eq!(p.cleanup_expired_tickets(99, 10), Ok(()));
    assert!(p.get_ticket(0).is_some());
    assert_eq!(p.get_user_tickets(10).len(), 1);
}

#[test]
fn cleanup_expired_tickets_no_expiration_date() {
    let mut p = new_test_ext();
    p.set_block_number(1);
    assert_eq!(
        p.mint_ticket(
            2,
            10,
            TicketType::Bonus,
            0,
            None,
            b"Test".to_vec(),
            b"".to_vec(),
            b"".to_vec(),
            b"".to_vec(),
            b"".to_vec(),
            b"".to_vec(),
            b"".to_vec(),
            b"Lounge Access".to_vec(),
        ),
        Ok(())
    );
    p.set_block_number(1000000);
    assert_eq!(p.cleanup_expired_tickets(99, 10), Ok(()));
    assert!(p.get_ticket(0).is_some());
    assert_eq!(p.get_user_tickets(10).len(), 1);
}

fn mint_simple(p: &mut Pallet, kind: TicketType, expires_at: Option<u64>, name: &[u8], number: &[u8]) {
    assert_eq!(
        p.mint_ticket(
            2,
            10,
            kind,
            0,
            expires_at,
            name.to_vec(),
            number.to_vec(),
            b"".to_vec(),
            b"".to_vec(),
            b"".to_vec(),
            b"".to_vec(),
            b"".to_vec(),
            b"".to_vec(),
        ),
        Ok(())
    );
}

#[test]
fn cleanup_expired_tickets_partial() {
    let mut p = new_test_ext();
    p.set_block_number(1);
    mint_simple(&mut p, TicketType::PlaneTicket, Some(50), b"Early Ticket", b"AB123");
    mint_simple(&mut p, TicketType::TrainTicket, Some(200), b"Late Ticket", b"TR456");
    mint_simple(&mut p, TicketType::Bonus, None, b"Bonus", b"");
    assert_eq!(p.get_user_tickets(10).len(), 3);
    p.set_block_number(100);
    assert_eq!(p.cleanup_expired_tickets(99, 10), Ok(()));
    assert_eq!(p.get_user_tickets(10).len(), 2);
    assert!(p.get_ticket(0).is_none());
    assert!(p.get_ticket(1).is_some());
    assert!(p.get_ticket(2).is_some());
}

#[test]
fn cleanup_expired_tickets_no_tickets() {
    let mut p = new_test_ext();
    p.set_block_number(1);
    assert_eq!(p.cleanup_expired_tickets(99, 10), Ok(()));
    assert_eq!(p.get_user_tickets(10).len(), 0);
}

#[test]
fn ticket_lifecycle_mint_transfer_unmint() {
    let mut p = new_test_ext();
    p.set_block_number(1);
    mint_plane_ticket(&mut p, 10, 0, None, b"Original Owner");
    assert_eq!(p.transfer_ticket(10, 0, 20), Ok(()));
    let before = p.clone();
    assert_eq!(p.unmint_ticket(10, 0), Err(Error::NotTicketOwner));
    assert_eq!(p, before);
    assert_eq!(p.unmint_ticket(20, 0), Ok(()));
    assert!(p.get_ticket(0).is_none());
    assert_eq!(p.get_user_tickets(10).len(), 0);
    assert_eq!(p.get_user_tickets(20).len(), 0);
}

#[test]
fn ticket_lifecycle_mint_with_points_unmint() {
    let mut p = new_test_ext();
    p.set_block_number(1);
    assert_eq!(p.award_points(2, 10, 1000, TravelType::Airline, None), Ok(()));
    mint_plane_ticket(&mut p, 10, 500, None, b"Test User");
    assert_eq!(p.total_points(10), 500);
    assert_eq!(p.unmint_ticket(10, 0), Ok(()));
    assert_eq!(p.total_points(10), 500);
    assert!(p.get_ticket(0).is_none());
}
