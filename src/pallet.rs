//! The ledger's whole state and the calls that change it. Each call either
//! succeeds, or fails with an `Error` and leaves the state as it was.
use std::collections::HashMap;
use vstd::prelude::*;
use crate::ledger::{
    available, available_points, batches_wf, expired_sum, insert_batch, insert_position_ok,
    is_live, lemma_live_batches_of_live, lemma_live_plus_expired, lemma_spend_fifo, live_batches, live_point_details,
    spend_batches, spend_fifo, sum_remaining, sweep_expired,
};
use crate::lists::{contains_account, remove_account, without};
use crate::rewards::{current_period, period_of};
use crate::types::{
    AccountId, BlockNumber, Config, DelegationInfo, Error, Event, GenesisConfig,
    IssuerDailyRecord, Origin, PointBatch, SlashRecord, StakeInfo, StakingPool, Ticket,
    TravelType, UnbondingInfo, BPS_DENOMINATOR,
};

verus! {

broadcast use vstd::std_specs::hash::group_hash_axioms;

/// Point batches and cached balances of every account.
#[derive(Clone, PartialEq, Debug)]
pub struct PointsLedger {
    pub user_points: HashMap<AccountId, Vec<PointBatch>>,
    pub total_points: HashMap<AccountId, u128>,
}

/// The admin and the accounts allowed to issue points.
#[derive(Clone, PartialEq, Debug)]
pub struct AccessControl {
    pub admin: Option<AccountId>,
    pub authorized_issuers: Vec<AccountId>,
}

/// Spending per issuer and period, the reward pool, and rewards not yet claimed.
#[derive(Clone, PartialEq, Debug)]
pub struct RewardLedger {
    pub issuer_daily_records: HashMap<BlockNumber, HashMap<AccountId, IssuerDailyRecord>>,
    pub period_total_spent: HashMap<BlockNumber, u128>,
    pub reward_pool: u128,
    pub pending_staker_rewards: HashMap<AccountId, u128>,
    pub pending_issuer_rewards: HashMap<AccountId, u128>,
}

/// Tickets by id and the ids each account owns.
#[derive(Clone, PartialEq, Debug)]
pub struct TicketRegistry {
    pub next_ticket_id: u128,
    pub tickets: HashMap<u128, Ticket>,
    pub user_tickets: HashMap<AccountId, Vec<u128>>,
}

/// Stakers, their pending withdrawals and slashes, and the verifiers of each era.
#[derive(Clone, PartialEq, Debug)]
pub struct StakingLedger {
    pub stakes: HashMap<AccountId, StakeInfo>,
    pub total_staked: u128,
    pub staker_list: Vec<AccountId>,
    pub unbonding_requests: HashMap<AccountId, Vec<UnbondingInfo>>,
    pub slash_records: HashMap<AccountId, Vec<SlashRecord>>,
    pub total_slashed: u128,
    pub current_era: u32,
    pub last_era_block: BlockNumber,
    pub era_verifiers: HashMap<u32, Vec<AccountId>>,
}

/// Staking pools and the delegations into them.
#[derive(Clone, PartialEq, Debug)]
pub struct PoolRegistry {
    pub pools: HashMap<u32, StakingPool>,
    pub next_pool_id: u32,
    pub delegations: HashMap<AccountId, DelegationInfo>,
    pub pool_delegators: HashMap<u32, Vec<AccountId>>,
}

/// The whole state of the ledger.
#[derive(Clone, PartialEq, Debug)]
pub struct Pallet {
    pub config: Config,
    pub block_number: BlockNumber,
    pub events: Vec<Event>,
    pub points: PointsLedger,
    pub access: AccessControl,
    pub rewards: RewardLedger,
    pub tickets: TicketRegistry,
    pub staking: StakingLedger,
    pub pools: PoolRegistry,
}

/// Limits that keep the configured rates meaningful.
pub open spec fn config_wf(c: Config) -> bool {
    &&& c.offline_slash_percent <= BPS_DENOMINATOR
    &&& c.invalid_verification_slash_percent <= BPS_DENOMINATOR
    &&& c.malicious_slash_percent <= BPS_DENOMINATOR
    &&& c.issuer_reward_percent <= BPS_DENOMINATOR
}

/// The event that sweeping `s` at `now` reports, if any points expired.
pub open spec fn sweep_events(user: AccountId, s: Seq<PointBatch>, now: BlockNumber) -> Seq<Event> {
    if expired_sum(s, now) > 0 {
        seq![
            Event::PointsExpired {
                user,
                amount_expired: expired_sum(s, now) as u128,
                batches_removed: (s.len() - live_batches(s, now).len()) as u32,
            },
        ]
    } else {
        Seq::empty()
    }
}

/// The height at which points awarded at `now` expire.
pub open spec fn expiry_of(now: BlockNumber, custom: Option<BlockNumber>, default_period: BlockNumber) -> BlockNumber {
    let period = match custom {
        Some(p) => p,
        None => default_period,
    };
    if now + period > u64::MAX {
        u64::MAX
    } else {
        (now + period) as BlockNumber
    }
}

impl PointsLedger {
    /// The batches of `a`, oldest expiry first.
    pub open spec fn batches_of(&self, a: AccountId) -> Seq<PointBatch> {
        if self.user_points@.contains_key(a) {
            self.user_points@[a]@
        } else {
            Seq::empty()
        }
    }

    /// The cached balance of `a`.
    pub open spec fn total_of(&self, a: AccountId) -> u128 {
        if self.total_points@.contains_key(a) {
            self.total_points@[a]
        } else {
            0
        }
    }

    /// Every account's batches are ordered and within capacity, and its cached
    /// balance is the sum of what its stored batches hold.
    pub open spec fn wf(&self, max_batches: u32) -> bool {
        forall|a: AccountId| {
            &&& batches_wf(#[trigger] self.batches_of(a))
            &&& self.batches_of(a).len() <= max_batches
            &&& self.total_of(a) == sum_remaining(self.batches_of(a))
        }
    }

    /// `self` and `other` agree on every account but `a`.
    pub open spec fn same_except(&self, other: &Self, a: AccountId) -> bool {
        &&& self.user_points@.remove(a) == other.user_points@.remove(a)
        &&& self.total_points@.remove(a) == other.total_points@.remove(a)
    }
}

impl RewardLedger {
    /// Points spent through `issuer` in `period`.
    pub open spec fn record_of(&self, period: BlockNumber, issuer: AccountId) -> IssuerDailyRecord {
        if self.issuer_daily_records@.contains_key(period) && self.issuer_daily_records@[period]@.contains_key(issuer) {
            self.issuer_daily_records@[period]@[issuer]
        } else {
            IssuerDailyRecord { points_spent: 0, transaction_count: 0 }
        }
    }

    /// Points spent in `period`, through all issuers.
    pub open spec fn period_total_of(&self, period: BlockNumber) -> u128 {
        if self.period_total_spent@.contains_key(period) {
            self.period_total_spent@[period]
        } else {
            0
        }
    }

    pub open spec fn pending_staker_of(&self, a: AccountId) -> u128 {
        if self.pending_staker_rewards@.contains_key(a) {
            self.pending_staker_rewards@[a]
        } else {
            0
        }
    }

    pub open spec fn pending_issuer_of(&self, a: AccountId) -> u128 {
        if self.pending_issuer_rewards@.contains_key(a) {
            self.pending_issuer_rewards@[a]
        } else {
            0
        }
    }

    /// `self` is `old` with a spend of `amount` through `issuer` counted in `period`.
    pub open spec fn spend_recorded(&self, old: &Self, period: BlockNumber, issuer: AccountId, amount: u128) -> bool {
        let rec = old.record_of(period, issuer);
        &&& self.record_of(period, issuer) == IssuerDailyRecord {
            points_spent: if rec.points_spent + amount > u128::MAX { u128::MAX } else { (rec.points_spent + amount) as u128 },
            transaction_count: if rec.transaction_count == u32::MAX { u32::MAX } else { (rec.transaction_count + 1) as u32 },
        }
        &&& forall|p: BlockNumber, i: AccountId| (p, i) != (period, issuer) ==> #[trigger] self.record_of(p, i) == old.record_of(p, i)
        &&& self.period_total_of(period) == if old.period_total_of(period) + amount > u128::MAX { u128::MAX } else { (old.period_total_of(period) + amount) as u128 }
        &&& forall|p: BlockNumber| p != period ==> #[trigger] self.period_total_of(p) == old.period_total_of(p)
        &&& self.reward_pool == old.reward_pool
        &&& self.pending_staker_rewards == old.pending_staker_rewards
        &&& self.pending_issuer_rewards == old.pending_issuer_rewards
    }
}

impl AccessControl {
    pub open spec fn is_issuer(&self, a: AccountId) -> bool {
        self.authorized_issuers@.contains(a)
    }

    pub open spec fn is_admin(&self, a: AccountId) -> bool {
        self.admin == Some(a)
    }

    pub open spec fn wf(&self) -> bool {
        self.authorized_issuers@.no_duplicates()
    }
}

impl Pallet {
    /// The invariant that every call keeps.
    pub open spec fn wf(&self) -> bool {
        &&& config_wf(self.config)
        &&& self.points.wf(self.config.max_point_batches)
        &&& self.access.wf()
        &&& self.tickets.wf()
        &&& self.pools.wf()
        &&& self.staking.wf()
    }

    /// Tickets, stakes and pools are as in `old`.
    pub open spec fn same_registries(&self, old: &Self) -> bool {
        &&& self.tickets == old.tickets
        &&& self.staking == old.staking
        &&& self.pools == old.pools
    }

    /// The points and spend records of `self` are those of `old` after the
    /// points of `user` were swept at the current height and `amount` was spent
    /// from them through `issuer`.
    pub open spec fn spend_effects(&self, old: &Self, user: AccountId, amount: u128, issuer: AccountId) -> bool {
        let now = old.block_number;
        let live = live_batches(old.points.batches_of(user), now);
        &&& self.points.batches_of(user) == spend_fifo(live, amount as int)
        &&& self.points.total_of(user) == sum_remaining(live) - amount
        &&& self.points.total_of(user) == available(self.points.batches_of(user), now)
        &&& self.points.same_except(&old.points, user)
        &&& self.rewards.spend_recorded(&old.rewards, period_of(now, old.config.blocks_per_reward_period), issuer, amount)
    }

    /// What a spend reports: the sweep, then the spend itself.
    pub open spec fn spend_events(&self, user: AccountId, amount: u128, issuer: AccountId) -> Seq<Event> {
        let live = live_batches(self.points.batches_of(user), self.block_number);
        sweep_events(user, self.points.batches_of(user), self.block_number) + seq![
            Event::PointsSpent {
                user,
                amount_spent: amount,
                remaining_balance: (sum_remaining(live) - amount) as u128,
                issuer,
            },
        ]
    }

    /// `self` is `old` after `amount` points of `user` were spent through `issuer`.
    pub open spec fn spent_from(&self, old: &Self, user: AccountId, amount: u128, issuer: AccountId) -> bool {
        &&& self.spend_effects(old, user, amount, issuer)
        &&& self.events@ == old.events@ + old.spend_events(user, amount, issuer)
        &&& self.config == old.config
        &&& self.block_number == old.block_number
        &&& self.access == old.access
        &&& self.same_registries(old)
    }

    /// A ledger built from `genesis`: its admin, and its issuers in the order
    /// given (repeats counted once).
    pub fn new(config: Config, genesis: &GenesisConfig) -> (r: Pallet)
        requires
            config_wf(config),
        ensures
            r.wf(),
            r.config == config,
            r.block_number == 0,
            r.events@.len() == 0,
            r.access.admin == genesis.admin,
            forall|a: AccountId| r.access.is_issuer(a) <==> exists|k: int| 0 <= k < genesis.authorized_issuers@.len() && #[trigger] genesis.authorized_issuers@[k] == a,
            forall|a: AccountId| r.points.batches_of(a).len() == 0 && r.points.total_of(a) == 0,
            r.rewards.reward_pool == 0,
            forall|p: BlockNumber, i: AccountId| #[trigger] r.rewards.record_of(p, i) == (IssuerDailyRecord { points_spent: 0, transaction_count: 0 }),
            forall|p: BlockNumber| #[trigger] r.rewards.period_total_of(p) == 0,
            forall|a: AccountId| #[trigger] r.rewards.pending_staker_of(a) == 0 && r.rewards.pending_issuer_of(a) == 0,
    {
        let mut issuers: Vec<AccountId> = Vec::new();
        let ghost g = genesis.authorized_issuers@;
        let mut i: usize = 0;
        while i < genesis.authorized_issuers.len()
            invariant
                g == genesis.authorized_issuers@,
                0 <= i <= g.len(),
                issuers@.no_duplicates(),
                forall|x: AccountId| issuers@.contains(x) <==> exists|k: int| 0 <= k < i && #[trigger] g[k] == x,
            decreases g.len() - i,
        {
            let a = genesis.authorized_issuers[i];
            let ghost before = issuers@;
            let present = contains_account(&issuers, a);
            if !present {
                issuers.push(a);
            }
            proof {
                assert forall|x: AccountId| issuers@.contains(x) <==> exists|k: int| 0 <= k < i + 1 && #[trigger] g[k] == x by {
                    if issuers@.contains(x) {
                        let j = choose|j: int| 0 <= j < issuers@.len() && issuers@[j] == x;
                        if j < before.len() {
                            assert(before[j] == x);
                            assert(before.contains(x));
                            let k = choose|k: int| 0 <= k < i && #[trigger] g[k] == x;
                            assert(0 <= k < i + 1 && g[k] == x);
                        } else {
                            assert(g[i as int] == x);
                        }
                    }
                    if exists|k: int| 0 <= k < i + 1 && #[trigger] g[k] == x {
                        let k = choose|k: int| 0 <= k < i + 1 && #[trigger] g[k] == x;
                        if k < i {
                            assert(before.contains(x));
                            let j = choose|j: int| 0 <= j < before.len() && before[j] == x;
                            assert(issuers@[j] == x);
                        } else if !present {
                            assert(issuers@[before.len() as int] == x);
                        }
                    }
                }
            }
            i = i + 1;
        }
        Pallet {
            config,
            block_number: 0,
            events: Vec::new(),
            points: PointsLedger { user_points: HashMap::new(), total_points: HashMap::new() },
            access: AccessControl { admin: genesis.admin, authorized_issuers: issuers },
            tickets: TicketRegistry { next_ticket_id: 0, tickets: HashMap::new(), user_tickets: HashMap::new() },
            staking: StakingLedger {
                stakes: HashMap::new(),
                total_staked: 0,
                staker_list: Vec::new(),
                unbonding_requests: HashMap::new(),
                slash_records: HashMap::new(),
                total_slashed: 0,
                current_era: 0,
                last_era_block: 0,
                era_verifiers: HashMap::new(),
            },
            pools: PoolRegistry {
                pools: HashMap::new(),
                next_pool_id: 0,
                delegations: HashMap::new(),
                pool_delegators: HashMap::new(),
            },
            rewards: RewardLedger {
                issuer_daily_records: HashMap::new(),
                period_total_spent: HashMap::new(),
                reward_pool: 0,
                pending_staker_rewards: HashMap::new(),
                pending_issuer_rewards: HashMap::new(),
            },
        }
    }

    /// Moves the clock to height `n`.
    pub fn set_block_number(&mut self, n: BlockNumber)
        ensures
            final(self).block_number == n,
            final(self).config == old(self).config,
            final(self).events == old(self).events,
            final(self).points == old(self).points,
            final(self).access == old(self).access,
            final(self).same_registries(old(self)),
            final(self).rewards == old(self).rewards,
    {
        self.block_number = n;
    }

    /// The current height.
    pub fn block_number(&self) -> (r: BlockNumber)
        ensures
            r == self.block_number,
    {
        self.block_number
    }

    /// Whether `a` is the admin.
    pub fn is_admin(&self, a: AccountId) -> (r: bool)
        ensures
            r == self.access.is_admin(a),
    {
        match self.access.admin {
            Some(x) => x == a,
            None => false,
        }
    }

    fn ensure_admin(&self, a: AccountId) -> (r: Result<(), Error>)
        ensures
            r == if self.access.is_admin(a) { Ok(()) } else { Err(Error::NotAdmin) },
    {
        if self.is_admin(a) {
            Ok(())
        } else {
            Err(Error::NotAdmin)
        }
    }

    /// Whether `a` may issue points.
    pub fn contract_is_authorized_issuer(&self, a: AccountId) -> (r: bool)
        ensures
            r == self.access.is_issuer(a),
    {
        contains_account(&self.access.authorized_issuers, a)
    }

    fn stored_batches(&self, a: AccountId) -> (r: Vec<PointBatch>)
        ensures
            r@ == self.points.batches_of(a),
    {
        match self.points.user_points.get(&a) {
            Some(v) => {
                let mut out: Vec<PointBatch> = Vec::new();
                let mut i: usize = 0;
                while i < v.len()
                    invariant
                        0 <= i <= v@.len(),
                        out@ == v@.take(i as int),
                    decreases v@.len() - i,
                {
                    out.push(v[i]);
                    proof {
                        assert(v@.take(i + 1) =~= v@.take(i as int).push(v@[i as int]));
                    }
                    i = i + 1;
                }
                proof {
                    assert(v@.take(v@.len() as int) =~= v@);
                }
                out
            },
            None => Vec::new(),
        }
    }

    /// The batches of `a`, oldest expiry first, including any that have expired
    /// but were not swept yet.
    pub fn user_points(&self, a: AccountId) -> (r: Vec<PointBatch>)
        ensures
            r@ == self.points.batches_of(a),
    {
        self.stored_batches(a)
    }

    /// The cached balance of `a`.
    pub fn total_points(&self, a: AccountId) -> (r: u128)
        ensures
            r == self.points.total_of(a),
    {
        match self.points.total_points.get(&a) {
            Some(t) => *t,
            None => 0,
        }
    }

    /// Points of `user` that can be spent at the current height, counted from
    /// the batches.
    pub fn get_available_points(&self, user: AccountId) -> (r: u128)
        requires
            self.wf(),
        ensures
            r == available(self.points.batches_of(user), self.block_number),
    {
        let v = self.stored_batches(user);
        available_points(&v, self.block_number)
    }

    /// Same as `get_available_points`.
    pub fn contract_check_balance(&self, user: AccountId) -> (r: u128)
        requires
            self.wf(),
        ensures
            r == available(self.points.batches_of(user), self.block_number),
    {
        self.get_available_points(user)
    }

    /// The batches of `user` that can be spent at the current height, as
    /// (points left, expiry, travel type).
    pub fn get_point_details(&self, user: AccountId) -> (r: Vec<(u128, BlockNumber, TravelType)>)
        ensures
            r@.len() == live_batches(self.points.batches_of(user), self.block_number).len(),
            forall|i: int| 0 <= i < r@.len() ==> {
                let b = #[trigger] live_batches(self.points.batches_of(user), self.block_number)[i];
                r@[i] == (b.remaining_points, b.expires_at_block, b.travel_type)
            },
    {
        let v = self.stored_batches(user);
        live_point_details(&v, self.block_number)
    }

    /// The reward period of the current height.
    pub fn current_period(&self) -> (r: BlockNumber)
        ensures
            r == period_of(self.block_number, self.config.blocks_per_reward_period),
    {
        current_period(self.block_number, self.config.blocks_per_reward_period)
    }

    /// The batches of `user` left after sweeping at the current height, the
    /// points that expired, and how many batches were removed.
    fn swept(&self, user: AccountId) -> (r: (Vec<PointBatch>, u128, u32))
        requires
            self.wf(),
        ensures
            r.0@ == live_batches(self.points.batches_of(user), self.block_number),
            r.1 == expired_sum(self.points.batches_of(user), self.block_number),
            r.2 == self.points.batches_of(user).len() - r.0@.len(),
            r.1 <= self.points.total_of(user),
            self.points.total_of(user) - r.1 == sum_remaining(r.0@),
            batches_wf(r.0@),
            r.0@.len() <= self.config.max_point_batches,
            forall|i: int| 0 <= i < r.0@.len() ==> is_live(#[trigger] r.0@[i], self.block_number),
    {
        let now = self.block_number;
        let ghost s = self.points.batches_of(user);
        proof {
            assert(batches_wf(self.points.batches_of(user)));
            lemma_live_plus_expired(s, now);
            crate::ledger::lemma_live_batches_props(s, now);
        }
        match self.points.user_points.get(&user) {
            Some(v) => sweep_expired(v, now),
            None => {
                let kept: Vec<PointBatch> = Vec::new();
                proof {
                    assert(kept@ =~= live_batches(s, now));
                }
                (kept, 0u128, 0u32)
            },
        }
    }

    /// Stores `batches` and `total` as the points of `user`.
    fn store_points(&mut self, user: AccountId, batches: Vec<PointBatch>, total: u128)
        requires
            old(self).wf(),
            batches_wf(batches@),
            batches@.len() <= old(self).config.max_point_batches,
            total == sum_remaining(batches@),
        ensures
            final(self).wf(),
            final(self).points.batches_of(user) == batches@,
            final(self).points.total_of(user) == total,
            final(self).points.same_except(&old(self).points, user),
            final(self).events == old(self).events,
            final(self).config == old(self).config,
            final(self).block_number == old(self).block_number,
            final(self).access == old(self).access,
            final(self).same_registries(old(self)),
            final(self).rewards == old(self).rewards,
    {
        self.points.user_points.insert(user, batches);
        self.points.total_points.insert(user, total);
        proof {
            assert(self.points.user_points@.remove(user) =~= old(self).points.user_points@.remove(user));
            assert(self.points.total_points@.remove(user) =~= old(self).points.total_points@.remove(user));
            assert forall|a: AccountId| {
                &&& batches_wf(#[trigger] self.points.batches_of(a))
                &&& self.points.batches_of(a).len() <= self.config.max_point_batches
                &&& self.points.total_of(a) == sum_remaining(self.points.batches_of(a))
            } by {
                if a != user {
                    assert(self.points.batches_of(a) == old(self).points.batches_of(a));
                    assert(self.points.total_of(a) == old(self).points.total_of(a));
                }
            }
        }
    }

    /// Reports a sweep of `user` that removed `removed` batches holding `expired` points.
    fn report_sweep(&mut self, user: AccountId, expired: u128, removed: u32)
        ensures
            final(self).events@ == old(self).events@ + (if expired > 0 {
                seq![Event::PointsExpired { user, amount_expired: expired, batches_removed: removed }]
            } else {
                Seq::<Event>::empty()
            }),
            final(self).config == old(self).config,
            final(self).block_number == old(self).block_number,
            final(self).points == old(self).points,
            final(self).access == old(self).access,
            final(self).same_registries(old(self)),
            final(self).rewards == old(self).rewards,
    {
        if expired > 0 {
            self.events.push(Event::PointsExpired { user, amount_expired: expired, batches_removed: removed });
        }
        proof {
            assert(self.events@ =~= old(self).events@ + (if expired > 0 {
                seq![Event::PointsExpired { user, amount_expired: expired, batches_removed: removed }]
            } else {
                Seq::<Event>::empty()
            }));
        }
    }

    /// Sweeps the expired batches of `user` and reports them.
    fn sweep_account(&mut self, user: AccountId)
        requires
            old(self).wf(),
        ensures
            final(self).wf(),
            final(self).points.batches_of(user) == live_batches(old(self).points.batches_of(user), old(self).block_number),
            final(self).points.total_of(user) == available(old(self).points.batches_of(user), old(self).block_number),
            final(self).points.same_except(&old(self).points, user),
            final(self).events@ == old(self).events@ + sweep_events(user, old(self).points.batches_of(user), old(self).block_number),
            final(self).config == old(self).config,
            final(self).block_number == old(self).block_number,
            final(self).access == old(self).access,
            final(self).same_registries(old(self)),
            final(self).rewards == old(self).rewards,
    {
        let (kept, expired, removed) = self.swept(user);
        let total = self.total_points(user) - expired;
        self.store_points(user, kept, total);
        self.report_sweep(user, expired, removed);
    }

    /// Counts a spend of `amount` through `issuer` in `period`.
    fn record_spend(&mut self, period: BlockNumber, issuer: AccountId, amount: u128)
        ensures
            final(self).rewards.spend_recorded(&old(self).rewards, period, issuer, amount),
            final(self).events == old(self).events,
            final(self).config == old(self).config,
            final(self).block_number == old(self).block_number,
            final(self).points == old(self).points,
            final(self).access == old(self).access,
            final(self).same_registries(old(self)),
    {
        let ghost old_records = self.rewards.issuer_daily_records@;
        let mut inner = match self.rewards.issuer_daily_records.remove(&period) {
            Some(m) => m,
            None => HashMap::new(),
        };
        let rec = match inner.get(&issuer) {
            Some(x) => *x,
            None => IssuerDailyRecord { points_spent: 0, transaction_count: 0 },
        };
        let ghost old_inner = inner@;
        let new_rec = IssuerDailyRecord {
            points_spent: rec.points_spent.saturating_add(amount),
            transaction_count: rec.transaction_count.saturating_add(1),
        };
        inner.insert(issuer, new_rec);
        self.rewards.issuer_daily_records.insert(period, inner);
        let pt = match self.rewards.period_total_spent.get(&period) {
            Some(t) => *t,
            None => 0,
        };
        self.rewards.period_total_spent.insert(period, pt.saturating_add(amount));
        proof {
            assert forall|p: BlockNumber, i: AccountId| (p, i) != (period, issuer) implies #[trigger] self.rewards.record_of(p, i) == old(self).rewards.record_of(p, i) by {
                if p == period {
                    assert(i != issuer);
                    assert(self.rewards.issuer_daily_records@[p]@ == old_inner.insert(issuer, new_rec));
                    if !old_records.contains_key(period) {
                        assert(!old_inner.contains_key(i));
                    }
                }
            }
        }
    }

    /// The result `award_points` gives on the current state.
    pub open spec fn award_result(&self, issuer: AccountId, recipient: AccountId, amount: u128) -> Result<(), Error> {
        let live = live_batches(self.points.batches_of(recipient), self.block_number);
        if !self.access.is_issuer(issuer) {
            Err(Error::NotAuthorizedIssuer)
        } else if amount == 0 {
            Err(Error::ZeroAmount)
        } else if live.len() >= self.config.max_point_batches {
            Err(Error::TooManyBatches)
        } else if sum_remaining(live) + amount > u128::MAX {
            Err(Error::ArithmeticOverflow)
        } else {
            Ok(())
        }
    }

    /// `self` is `old` after a batch of `amount` points was awarded to `recipient`.
    pub open spec fn awarded(&self, old: &Self, recipient: AccountId, amount: u128, travel_type: TravelType, custom_expiration: Option<BlockNumber>) -> bool {
        let now = old.block_number;
        let live = live_batches(old.points.batches_of(recipient), now);
        let expires_at_block = expiry_of(now, custom_expiration, old.config.default_expiration_period);
        let b = PointBatch { earned_at_block: now, expires_at_block, remaining_points: amount, travel_type };
        &&& exists|p: int| insert_position_ok(live, p, b) && self.points.batches_of(recipient) == live.insert(p, b)
        &&& self.points.total_of(recipient) == sum_remaining(live) + amount
        &&& expires_at_block > now ==> self.points.total_of(recipient) == available(self.points.batches_of(recipient), now)
        &&& self.points.same_except(&old.points, recipient)
        &&& self.events@ == old.events@ + sweep_events(recipient, old.points.batches_of(recipient), now) + seq![
            Event::PointsEarned { recipient, amount, expires_at_block, travel_type },
        ]
        &&& self.config == old.config
        &&& self.block_number == old.block_number
        &&& self.access == old.access
        &&& self.same_registries(old)
        &&& self.rewards == old.rewards
    }

    /// Awards `amount` points to `recipient`, expiring `custom_expiration` (or the
    /// default period) blocks from now. The recipient's expired batches are swept
    /// first. Only an authorized issuer may award.
    pub fn award_points(
        &mut self,
        issuer: AccountId,
        recipient: AccountId,
        amount: u128,
        travel_type: TravelType,
        custom_expiration: Option<BlockNumber>,
    ) -> (r: Result<(), Error>)
        requires
            old(self).wf(),
        ensures
            final(self).wf(),
            r == old(self).award_result(issuer, recipient, amount),
            (r is Err) ==> *final(self) == *old(self),
            (r is Ok) ==> final(self).awarded(old(self), recipient, amount, travel_type, custom_expiration),
    {
        if !self.contract_is_authorized_issuer(issuer) {
            return Err(Error::NotAuthorizedIssuer);
        }
        self.award_unchecked(recipient, amount, travel_type, custom_expiration)
    }

    /// Same as `award_points`, for callers that hold the issuer's account.
    pub fn contract_award_points(
        &mut self,
        issuer: AccountId,
        recipient: AccountId,
        amount: u128,
        travel_type: TravelType,
        custom_expiration: Option<BlockNumber>,
    ) -> (r: Result<(), Error>)
        requires
            old(self).wf(),
        ensures
            final(self).wf(),
            r == old(self).award_result(issuer, recipient, amount),
            (r is Err) ==> *final(self) == *old(self),
            (r is Ok) ==> final(self).awarded(old(self), recipient, amount, travel_type, custom_expiration),
    {
        self.award_points(issuer, recipient, amount, travel_type, custom_expiration)
    }

    fn award_unchecked(
        &mut self,
        recipient: AccountId,
        amount: u128,
        travel_type: TravelType,
        custom_expiration: Option<BlockNumber>,
    ) -> (r: Result<(), Error>)
        requires
            old(self).wf(),
        ensures
            final(self).wf(),
            r == (if amount == 0 {
                Err(Error::ZeroAmount)
            } else if live_batches(old(self).points.batches_of(recipient), old(self).block_number).len() >= old(self).config.max_point_batches {
                Err(Error::TooManyBatches)
            } else if sum_remaining(live_batches(old(self).points.batches_of(recipient), old(self).block_number)) + amount > u128::MAX {
                Err(Error::ArithmeticOverflow)
            } else {
                Ok(())
            }),
            (r is Err) ==> *final(self) == *old(self),
            (r is Ok) ==> final(self).awarded(old(self), recipient, amount, travel_type, custom_expiration),
    {
        if amount == 0 {
            return Err(Error::ZeroAmount);
        }
        let now = self.block_number;
        let period = match custom_expiration {
            Some(p) => p,
            None => self.config.default_expiration_period,
        };
        let expires_at_block = now.saturating_add(period);
        let (kept, expired, removed) = self.swept(recipient);
        if kept.len() >= self.config.max_point_batches as usize {
            return Err(Error::TooManyBatches);
        }
        let swept_total = self.total_points(recipient) - expired;
        let new_total = match swept_total.checked_add(amount) {
            Some(t) => t,
            None => {
                return Err(Error::ArithmeticOverflow);
            },
        };
        let b = PointBatch { earned_at_block: now, expires_at_block, remaining_points: amount, travel_type };
        let batches = insert_batch(&kept, b);
        proof {
            if expires_at_block > now {
                let p = choose|p: int| 0 <= p <= kept@.len() && batches@ == kept@.insert(p, b);
                assert forall|i: int| 0 <= i < batches@.len() implies is_live(#[trigger] batches@[i], now) by {
                    if i < p {
                        assert(batches@[i] == kept@[i]);
                    } else if i > p {
                        assert(batches@[i] == kept@[i - 1]);
                    }
                }
                lemma_live_batches_of_live(batches@, now);
            }
        }
        self.store_points(recipient, batches, new_total);
        self.report_sweep(recipient, expired, removed);
        self.events.push(Event::PointsEarned { recipient, amount, expires_at_block, travel_type });
        proof {
            let s = old(self).points.batches_of(recipient);
            assert(self.events@ =~= old(self).events@ + sweep_events(recipient, s, now) + seq![
                Event::PointsEarned { recipient, amount, expires_at_block, travel_type },
            ]);
        }
        Ok(())
    }

    /// The result of spending `amount` points of `user`: refused where fewer
    /// points are live at the current height.
    pub open spec fn spend_result(&self, user: AccountId, amount: u128) -> Result<(), Error> {
        if sum_remaining(live_batches(self.points.batches_of(user), self.block_number)) < amount {
            Err(Error::InsufficientPoints)
        } else {
            Ok(())
        }
    }

    /// Spends `amount` points of `user`, oldest expiry first, and counts the
    /// spend for `issuer` in the current reward period.
    pub(crate) fn spend_points_internal(&mut self, user: AccountId, amount: u128, issuer: AccountId) -> (r: Result<(), Error>)
        requires
            old(self).wf(),
        ensures
            final(self).wf(),
            r == old(self).spend_result(user, amount),
            (r is Err) ==> *final(self) == *old(self),
            (r is Ok) ==> final(self).spent_from(old(self), user, amount, issuer),
    {
        let ghost s = self.points.batches_of(user);
        let now = self.block_number;
        let (kept, expired, removed) = self.swept(user);
        let available = self.total_points(user) - expired;
        if available < amount {
            return Err(Error::InsufficientPoints);
        }
        let batches = spend_batches(&kept, amount);
        let new_total = available - amount;
        proof {
            lemma_spend_fifo(kept@, amount as int);
            let r = spend_fifo(kept@, amount as int);
            assert forall|i: int| 0 <= i < r.len() implies is_live(#[trigger] r[i], now) by {
                assert(kept@.len() > 0);
                assert(is_live(kept@[0], now));
            }
            lemma_live_batches_of_live(r, now);
        }
        self.store_points(user, batches, new_total);
        self.report_sweep(user, expired, removed);
        let period = self.current_period();
        self.record_spend(period, issuer, amount);
        self.events.push(Event::PointsSpent { user, amount_spent: amount, remaining_balance: new_total, issuer });
        proof {
            assert(self.events@ =~= old(self).events@ + old(self).spend_events(user, amount, issuer));
        }
        Ok(())
    }

    /// Points of `user` that are live at the current height, from the cache.
    pub(crate) fn live_total(&self, user: AccountId) -> (r: u128)
        requires
            self.wf(),
        ensures
            r == sum_remaining(live_batches(self.points.batches_of(user), self.block_number)),
    {
        let (_kept, expired, _removed) = self.swept(user);
        self.total_points(user) - expired
    }

    /// The result `spend_points` gives on the current state.
    pub open spec fn spend_points_result(&self, user: AccountId, amount: u128, issuer: AccountId) -> Result<(), Error> {
        if amount == 0 {
            Err(Error::ZeroAmount)
        } else if !self.access.is_issuer(issuer) {
            Err(Error::NotAuthorizedIssuer)
        } else {
            self.spend_result(user, amount)
        }
    }

    /// `user` spends `amount` points with `issuer`, oldest expiry first. The
    /// user's expired batches are swept first.
    pub fn spend_points(&mut self, user: AccountId, amount: u128, issuer: AccountId) -> (r: Result<(), Error>)
        requires
            old(self).wf(),
        ensures
            final(self).wf(),
            r == old(self).spend_points_result(user, amount, issuer),
            (r is Err) ==> *final(self) == *old(self),
            (r is Ok) ==> final(self).spent_from(old(self), user, amount, issuer),
    {
        if amount == 0 {
            return Err(Error::ZeroAmount);
        }
        if !self.contract_is_authorized_issuer(issuer) {
            return Err(Error::NotAuthorizedIssuer);
        }
        self.spend_points_internal(user, amount, issuer)
    }

    /// Removes the expired batches of `user`. Anyone may call it.
    pub fn cleanup_expired(&mut self, caller: AccountId, user: AccountId) -> (r: Result<(), Error>)
        requires
            old(self).wf(),
        ensures
            final(self).wf(),
            r == Ok::<(), Error>(()),
            final(self).points.total_of(user) == available(final(self).points.batches_of(user), final(self).block_number),
            final(self).points.batches_of(user) == live_batches(old(self).points.batches_of(user), old(self).block_number),
            final(self).points.total_of(user) == available(old(self).points.batches_of(user), old(self).block_number),
            final(self).points.same_except(&old(self).points, user),
            final(self).events@ == old(self).events@ + sweep_events(user, old(self).points.batches_of(user), old(self).block_number),
            final(self).config == old(self).config,
            final(self).block_number == old(self).block_number,
            final(self).access == old(self).access,
            final(self).same_registries(old(self)),
            final(self).rewards == old(self).rewards,
    {
        self.sweep_account(user);
        proof {
            let s = old(self).points.batches_of(user);
            crate::ledger::lemma_live_batches_props(s, self.block_number);
            lemma_live_batches_of_live(live_batches(s, self.block_number), self.block_number);
        }
        Ok(())
    }

    /// Allows `issuer` to award points. Admin only.
    pub fn authorize_issuer(&mut self, caller: AccountId, issuer: AccountId) -> (r: Result<(), Error>)
        requires
            old(self).wf(),
        ensures
            final(self).wf(),
            r == (if !old(self).access.is_admin(caller) {
                Err(Error::NotAdmin)
            } else if old(self).access.is_issuer(issuer) {
                Err(Error::AlreadyAuthorized)
            } else {
                Ok(())
            }),
            (r is Err) ==> *final(self) == *old(self),
            (r is Ok) ==> {
                &&& final(self).access.authorized_issuers@ == old(self).access.authorized_issuers@.push(issuer)
                &&& final(self).access.admin == old(self).access.admin
                &&& final(self).events@ == old(self).events@.push(Event::IssuerAuthorized { issuer })
                &&& final(self).config == old(self).config
                &&& final(self).block_number == old(self).block_number
                &&& final(self).points == old(self).points
                &&& final(self).rewards == old(self).rewards
                &&& final(self).same_registries(old(self))
            },
    {
        self.ensure_admin(caller)?;
        if self.contract_is_authorized_issuer(issuer) {
            return Err(Error::AlreadyAuthorized);
        }
        self.access.authorized_issuers.push(issuer);
        self.events.push(Event::IssuerAuthorized { issuer });
        proof {
            let s = self.access.authorized_issuers@;
            assert forall|i: int, j: int| 0 <= i < s.len() && 0 <= j < s.len() && i != j implies s[i] != s[j] by {
                if j == s.len() - 1 {
                    assert(old(self).access.authorized_issuers@[i] == s[i]);
                } else if i == s.len() - 1 {
                    assert(old(self).access.authorized_issuers@[j] == s[j]);
                }
            }
        }
        Ok(())
    }

    /// Withdraws the right of `issuer` to award points. Admin only.
    pub fn revoke_issuer(&mut self, caller: AccountId, issuer: AccountId) -> (r: Result<(), Error>)
        requires
            old(self).wf(),
        ensures
            final(self).wf(),
            r == (if !old(self).access.is_admin(caller) {
                Err(Error::NotAdmin)
            } else if !old(self).access.is_issuer(issuer) {
                Err(Error::NotAuthorized)
            } else {
                Ok(())
            }),
            (r is Err) ==> *final(self) == *old(self),
            (r is Ok) ==> {
                &&& final(self).access.authorized_issuers@ == without(old(self).access.authorized_issuers@, issuer)
                &&& !final(self).access.is_issuer(issuer)
                &&& forall|a: AccountId| a != issuer ==> (final(self).access.is_issuer(a) <==> old(self).access.is_issuer(a))
                &&& final(self).access.admin == old(self).access.admin
                &&& final(self).events@ == old(self).events@.push(Event::IssuerRevoked { issuer })
                &&& final(self).config == old(self).config
                &&& final(self).block_number == old(self).block_number
                &&& final(self).points == old(self).points
                &&& final(self).rewards == old(self).rewards
                &&& final(self).same_registries(old(self))
            },
    {
        self.ensure_admin(caller)?;
        if !self.contract_is_authorized_issuer(issuer) {
            return Err(Error::NotAuthorized);
        }
        let kept = remove_account(&self.access.authorized_issuers, issuer);
        proof {
            crate::lists::lemma_without_props(self.access.authorized_issuers@, issuer);
            crate::lists::lemma_without_no_duplicates(self.access.authorized_issuers@, issuer);
        }
        self.access.authorized_issuers = kept;
        self.events.push(Event::IssuerRevoked { issuer });
        Ok(())
    }

    /// Makes `new_admin` the admin. Root or the current admin only.
    pub fn set_admin(&mut self, origin: Origin, new_admin: AccountId) -> (r: Result<(), Error>)
        requires
            old(self).wf(),
        ensures
            final(self).wf(),
            r == (match origin {
                Origin::Root => Ok(()),
                Origin::Signed(c) => if old(self).access.is_admin(c) { Ok(()) } else { Err(Error::NotAdmin) },
            }),
            (r is Err) ==> *final(self) == *old(self),
            (r is Ok) ==> {
                &&& final(self).access.admin == Some(new_admin)
                &&& final(self).access.authorized_issuers == old(self).access.authorized_issuers
                &&& final(self).events@ == old(self).events@.push(Event::AdminChanged { old_admin: old(self).access.admin, new_admin })
                &&& final(self).config == old(self).config
                &&& final(self).block_number == old(self).block_number
                &&& final(self).points == old(self).points
                &&& final(self).rewards == old(self).rewards
                &&& final(self).same_registries(old(self))
            },
    {
        match origin {
            Origin::Root => {},
            Origin::Signed(c) => {
                self.ensure_admin(c)?;
            },
        }
        let old_admin = self.access.admin;
        self.access.admin = Some(new_admin);
        self.events.push(Event::AdminChanged { old_admin, new_admin });
        Ok(())
    }
}

/// The cached balance of an account is what its batches hold at any height:
/// the live points plus the points that expired but were not swept yet. Every
/// call that touches the account sweeps it first, so right after such a call
/// nothing has expired and the cache equals the live points.
pub proof fn lemma_cache_consistent(p: &Pallet, a: AccountId, now: BlockNumber)
    requires
        p.wf(),
    ensures
        p.points.total_of(a) == available(p.points.batches_of(a), now) + expired_sum(p.points.batches_of(a), now),
        (forall|i: int| 0 <= i < p.points.batches_of(a).len() ==> is_live(#[trigger] p.points.batches_of(a)[i], now))
            ==> p.points.total_of(a) == available(p.points.batches_of(a), now),
{
    assert(p.points.total_of(a) == sum_remaining(p.points.batches_of(a)));
    lemma_live_plus_expired(p.points.batches_of(a), now);
    if forall|i: int| 0 <= i < p.points.batches_of(a).len() ==> is_live(#[trigger] p.points.batches_of(a)[i], now) {
        lemma_live_batches_of_live(p.points.batches_of(a), now);
    }
}

} // verus!
