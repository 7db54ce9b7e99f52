//! Records held by the ledger, the ticket registry and the staking engine.
use vstd::prelude::*;

verus! {

/// Account identifiers.
pub type AccountId = u64;

/// Block heights.
pub type BlockNumber = u64;

/// Basis points in a whole (100%).
pub const BPS_DENOMINATOR: u128 = 10_000;

/// Largest length of each byte-string field of a ticket.
pub const MAX_STRING_LEN: usize = 128;

/// Largest number of slash records kept per staker.
pub const MAX_SLASH_RECORDS: usize = 100;

/// The kind of travel for which points were earned.
#[derive(Clone, Copy, PartialEq, Eq, Structural, Debug)]
pub enum TravelType {
    Airline,
    Train,
    Bus,
    /// General/other travel types.
    Other,
}

impl Default for TravelType {
    fn default() -> (r: Self)
        ensures
            r == TravelType::Other,
    {
        TravelType::Other
    }
}

/// The kind of a ticket or bonus.
#[derive(Clone, Copy, PartialEq, Eq, Structural, Debug)]
pub enum TicketType {
    PlaneTicket,
    TrainTicket,
    BusTicket,
    /// Bonus or reward (lounge access, upgrades).
    Bonus,
    Other,
}

impl Default for TicketType {
    fn default() -> (r: Self)
        ensures
            r == TicketType::Other,
    {
        TicketType::Other
    }
}

/// One award of points: when it was earned, when it expires, and what is left of it.
#[derive(Clone, Copy, PartialEq, Eq, Structural, Debug)]
pub struct PointBatch {
    pub earned_at_block: BlockNumber,
    pub expires_at_block: BlockNumber,
    pub remaining_points: u128,
    pub travel_type: TravelType,
}

/// A ticket or bonus, owned by one account.
#[derive(Clone, PartialEq, Eq, Debug)]
pub struct Ticket {
    pub id: u128,
    pub owner: AccountId,
    pub issuer: AccountId,
    pub ticket_type: TicketType,
    pub created_at: BlockNumber,
    pub expires_at: Option<BlockNumber>,
    pub points_cost: u128,
    pub is_redeemed: bool,
    pub passenger_name: Vec<u8>,
    pub travel_number: Vec<u8>,
    pub gate: Vec<u8>,
    pub seat: Vec<u8>,
    pub departure: Vec<u8>,
    pub arrival: Vec<u8>,
    pub departure_time: Vec<u8>,
    pub metadata: Vec<u8>,
}

/// Stake of one staker.
#[derive(Clone, Copy, PartialEq, Eq, Structural, Debug)]
pub struct StakeInfo {
    pub amount: u128,
    pub staked_at: BlockNumber,
    /// Whether the staker is a verifier of the current era.
    pub is_verifier: bool,
}

/// Points spent through one issuer in one reward period.
#[derive(Clone, Copy, PartialEq, Eq, Structural, Debug)]
pub struct IssuerDailyRecord {
    pub points_spent: u128,
    pub transaction_count: u32,
}

impl Default for IssuerDailyRecord {
    fn default() -> (r: Self)
        ensures
            r.points_spent == 0,
            r.transaction_count == 0,
    {
        IssuerDailyRecord { points_spent: 0, transaction_count: 0 }
    }
}

/// Why a staker is slashed.
#[derive(Clone, Copy, PartialEq, Eq, Structural, Debug)]
pub enum SlashReason {
    Offline,
    InvalidVerification,
    Malicious,
    /// Any other reason: slashed at the `Offline` rate.
    Other,
}

impl Default for SlashReason {
    fn default() -> (r: Self)
        ensures
            r == SlashReason::Other,
    {
        SlashReason::Other
    }
}

/// One slash in a staker's history.
#[derive(Clone, Copy, PartialEq, Eq, Structural, Debug)]
pub struct SlashRecord {
    pub amount: u128,
    pub slashed_at: BlockNumber,
    pub reason: SlashReason,
}

/// A pending withdrawal of stake.
#[derive(Clone, Copy, PartialEq, Eq, Structural, Debug)]
pub struct UnbondingInfo {
    pub amount: u128,
    pub requested_at: BlockNumber,
    pub unlocks_at: BlockNumber,
}

/// A staking pool: the operator's stake plus what delegators put in.
#[derive(Clone, Copy, PartialEq, Eq, Structural, Debug)]
pub struct StakingPool {
    pub operator: AccountId,
    pub total_stake: u128,
    pub operator_stake: u128,
    /// Commission in basis points.
    pub commission: u32,
    pub created_at: BlockNumber,
    pub is_active: bool,
    pub delegator_count: u32,
}

impl Default for StakingPool {
    fn default() -> (r: Self)
        ensures
            r.operator == 0,
            r.total_stake == 0,
            r.operator_stake == 0,
            r.commission == 0,
            r.created_at == 0,
            !r.is_active,
            r.delegator_count == 0,
    {
        StakingPool {
            operator: 0,
            total_stake: 0,
            operator_stake: 0,
            commission: 0,
            created_at: 0,
            is_active: false,
            delegator_count: 0,
        }
    }
}

/// A delegator's stake in a pool.
#[derive(Clone, Copy, PartialEq, Eq, Structural, Debug)]
pub struct DelegationInfo {
    pub pool_id: u32,
    pub amount: u128,
    pub delegated_at: BlockNumber,
}

/// Stake of one staker with its slashing history summed.
#[derive(Clone, Copy, PartialEq, Eq, Structural, Debug)]
pub struct EnhancedStakeInfo {
    pub active: u128,
    pub staked_at: BlockNumber,
    pub is_verifier: bool,
    pub total_slashed: u128,
}

/// Who makes a call: a signed account, or the root authority.
#[derive(Clone, Copy, PartialEq, Eq, Structural, Debug)]
pub enum Origin {
    Signed(AccountId),
    Root,
}

/// The tunable limits, periods and rates of the ledger.
#[derive(Clone, Copy, PartialEq, Eq, Structural, Debug)]
pub struct Config {
    pub max_point_batches: u32,
    pub default_expiration_period: BlockNumber,
    pub max_tickets_per_user: u32,
    pub max_stakers: u32,
    pub min_stake_amount: u128,
    pub staker_reward_percent: u32,
    pub blocks_per_reward_period: BlockNumber,
    pub unbonding_period: BlockNumber,
    pub offline_slash_percent: u32,
    pub invalid_verification_slash_percent: u32,
    pub malicious_slash_percent: u32,
    pub max_pools: u32,
    pub max_delegators_per_pool: u32,
    pub min_pool_operator_stake: u128,
    pub max_pool_commission: u32,
    pub verifiers_per_era: u32,
    pub blocks_per_era: BlockNumber,
    pub issuer_reward_percent: u32,
    pub max_unbonding_requests: u32,
}

/// The state a ledger starts from.
#[derive(Clone, PartialEq, Eq, Debug)]
pub struct GenesisConfig {
    pub admin: Option<AccountId>,
    pub authorized_issuers: Vec<AccountId>,
}

/// What went wrong in a call. A failed call changes nothing.
#[derive(Clone, Copy, PartialEq, Eq, Structural, Debug)]
pub enum Error {
    NotAuthorizedIssuer,
    NotAdmin,
    InsufficientPoints,
    TooManyBatches,
    ArithmeticOverflow,
    ArithmeticUnderflow,
    ZeroAmount,
    NoAdmin,
    AlreadyAuthorized,
    NotAuthorized,
    TicketNotFound,
    NotTicketOwner,
    TicketAlreadyRedeemed,
    TicketExpired,
    TooManyTickets,
    StakeBelowMinimum,
    AlreadyStaking,
    NotStaker,
    CannotUnstakeYet,
    TooManyStakers,
    NoRewardsToClaim,
    StringTooLong,
    UnbondingNotComplete,
    NoUnbondingRequests,
    TooManyUnbondingRequests,
    PoolNotFound,
    NotPoolOperator,
    PoolNotActive,
    AlreadyDelegating,
    NotDelegating,
    DelegationBelowMinimum,
    TooManyPools,
    TooManyDelegators,
    CommissionTooHigh,
    InsufficientOperatorStake,
    SlashAmountZero,
    PoolHasDelegators,
    EraRotationNotDue,
    NotVerifier,
    InsufficientBalance,
}

/// What a successful call reports to outside observers.
#[derive(Clone, Copy, PartialEq, Eq, Structural, Debug)]
pub enum Event {
    PointsEarned {
        recipient: AccountId,
        amount: u128,
        expires_at_block: BlockNumber,
        travel_type: TravelType,
    },
    PointsSpent {
        user: AccountId,
        amount_spent: u128,
        remaining_balance: u128,
        issuer: AccountId,
    },
    PointsExpired { user: AccountId, amount_expired: u128, batches_removed: u32 },
    IssuerAuthorized { issuer: AccountId },
    IssuerRevoked { issuer: AccountId },
    AdminChanged { old_admin: Option<AccountId>, new_admin: AccountId },
    TicketMinted {
        ticket_id: u128,
        owner: AccountId,
        issuer: AccountId,
        ticket_type: TicketType,
        points_cost: u128,
    },
    TicketRedeemed { ticket_id: u128, owner: AccountId },
    TicketTransferred { ticket_id: u128, from: AccountId, to: AccountId },
    TicketUnminted { ticket_id: u128, owner: AccountId },
    TicketForceUnminted { ticket_id: u128, owner: AccountId, admin: AccountId },
    ExpiredTicketsCleaned { user: AccountId, tickets_removed: u32 },
    Staked { staker: AccountId, amount: u128 },
    Unstaked { staker: AccountId, amount: u128 },
    RewardsDistributed { period: BlockNumber, staker_rewards: u128, issuer_rewards: u128 },
    RewardClaimed { account: AccountId, amount: u128 },
    Slashed { staker: AccountId, amount: u128, reason: SlashReason },
    UnbondingInitiated { staker: AccountId, amount: u128, unlocks_at: BlockNumber },
    UnbondingWithdrawn { staker: AccountId, amount: u128 },
    UnbondingCancelled { staker: AccountId, amount: u128 },
    PoolCreated { pool_id: u32, operator: AccountId, initial_stake: u128, commission: u32 },
    Delegated { delegator: AccountId, pool_id: u32, amount: u128 },
    Undelegated { delegator: AccountId, pool_id: u32, amount: u128 },
    PoolCommissionUpdated { pool_id: u32, new_commission: u32 },
    PoolClosed { pool_id: u32, operator: AccountId },
    EraRotated { era: u32, verifier_count: u32 },
    VerifierSelected { era: u32, verifier: AccountId },
    StakeIncreased { staker: AccountId, amount: u128, new_total: u128 },
}

} // verus!
