//! Staking: stakes, unbonding with a delay, slashing, the reward pool and
//! claiming rewards.
use vstd::prelude::*;
use crate::lists::{lemma_without_no_duplicates, lemma_without_props, remove_account, without};
use crate::pallet::{Pallet, StakingLedger};
use crate::rewards::{apply_bps, bps_of};
use crate::types::{
    AccountId, BlockNumber, Config, Error, Event, IssuerDailyRecord, SlashReason, SlashRecord,
    StakeInfo, UnbondingInfo, MAX_SLASH_RECORDS,
};

verus! {

broadcast use vstd::std_specs::hash::group_hash_axioms;

/// `a + b`, held at `u128::MAX`.
pub open spec fn sat_add(a: u128, b: u128) -> u128 {
    if a + b > u128::MAX {
        u128::MAX
    } else {
        (a + b) as u128
    }
}

/// `a - b`, held at zero.
pub open spec fn sat_sub(a: u128, b: u128) -> u128 {
    if a < b {
        0
    } else {
        (a - b) as u128
    }
}

/// The slash rate of `reason` in basis points; `Other` takes the `Offline` rate.
pub open spec fn slash_bps(c: Config, reason: SlashReason) -> u32 {
    match reason {
        SlashReason::Offline => c.offline_slash_percent,
        SlashReason::InvalidVerification => c.invalid_verification_slash_percent,
        SlashReason::Malicious => c.malicious_slash_percent,
        SlashReason::Other => c.offline_slash_percent,
    }
}

/// The requests of `q` that have not unlocked at `now`, in order.
pub open spec fn pending_requests(q: Seq<UnbondingInfo>, now: BlockNumber) -> Seq<UnbondingInfo>
    decreases q.len(),
{
    if q.len() == 0 {
        q
    } else if q.last().unlocks_at <= now {
        pending_requests(q.drop_last(), now)
    } else {
        pending_requests(q.drop_last(), now).push(q.last())
    }
}

/// What the requests of `q` that have unlocked at `now` hold, summed (held at `u128::MAX`).
pub open spec fn matured_total(q: Seq<UnbondingInfo>, now: BlockNumber) -> u128
    decreases q.len(),
{
    if q.len() == 0 {
        0
    } else if q.last().unlocks_at <= now {
        sat_add(matured_total(q.drop_last(), now), q.last().amount)
    } else {
        matured_total(q.drop_last(), now)
    }
}

/// What all the requests of `q` hold, summed (held at `u128::MAX`).
pub open spec fn queued_total(q: Seq<UnbondingInfo>) -> u128
    decreases q.len(),
{
    if q.len() == 0 {
        0
    } else {
        sat_add(queued_total(q.drop_last()), q.last().amount)
    }
}

/// The slash rate of `reason` under `config`.
pub fn slash_percent(config: &Config, reason: SlashReason) -> (r: u32)
    ensures
        r == slash_bps(*config, reason),
{
    match reason {
        SlashReason::Offline => config.offline_slash_percent,
        SlashReason::InvalidVerification => config.invalid_verification_slash_percent,
        SlashReason::Malicious => config.malicious_slash_percent,
        SlashReason::Other => config.offline_slash_percent,
    }
}

/// How much a slash at rate `bps` takes from `active`: `floor(active * bps / 10000)`.
pub fn slash_amount(active: u128, bps: u32) -> (r: u128)
    requires
        bps <= 10_000,
    ensures
        r == bps_of(active, bps),
        r <= active,
{
    apply_bps(active, bps)
}

/// A slash takes `floor(active * bps / 10000)`, never more than the stake, so
/// the stake left is never negative; at the full rate it takes the whole stake.
pub proof fn lemma_slash_bounds(active: u128, bps: u32)
    requires
        bps <= 10_000,
    ensures
        0 <= bps_of(active, bps) <= active,
        bps == 10_000 ==> bps_of(active, bps) == active,
{
    let a = active as int;
    let b = bps as int;
    assert(0 <= (a * b) / 10000 <= a) by (nonlinear_arith)
        requires 0 <= b <= 10000, a >= 0;
    if bps == 10_000 {
        assert((a * 10000) / 10000 == a) by (nonlinear_arith);
    }
}

/// The requests of `q` that have not unlocked at `now`, and what the others hold.
pub fn split_matured(q: &Vec<UnbondingInfo>, now: BlockNumber) -> (r: (Vec<UnbondingInfo>, u128))
    ensures
        r.0@ == pending_requests(q@, now),
        r.1 == matured_total(q@, now),
{
    let mut pending: Vec<UnbondingInfo> = Vec::new();
    let mut total: u128 = 0;
    let mut i: usize = 0;
    while i < q.len()
        invariant
            0 <= i <= q@.len(),
            pending@ == pending_requests(q@.take(i as int), now),
            total == matured_total(q@.take(i as int), now),
        decreases q@.len() - i,
    {
        let x = q[i];
        proof {
            assert(q@.take(i + 1).drop_last() =~= q@.take(i as int));
        }
        if x.unlocks_at <= now {
            total = total.saturating_add(x.amount);
        } else {
            pending.push(x);
        }
        i = i + 1;
    }
    proof {
        assert(q@.take(q@.len() as int) =~= q@);
    }
    (pending, total)
}

/// What all the requests of `q` hold.
pub fn sum_requests(q: &Vec<UnbondingInfo>) -> (r: u128)
    ensures
        r == queued_total(q@),
{
    let mut total: u128 = 0;
    let mut i: usize = 0;
    while i < q.len()
        invariant
            0 <= i <= q@.len(),
            total == queued_total(q@.take(i as int)),
        decreases q@.len() - i,
    {
        proof {
            assert(q@.take(i + 1).drop_last() =~= q@.take(i as int));
        }
        total = total.saturating_add(q[i].amount);
        i = i + 1;
    }
    proof {
        assert(q@.take(q@.len() as int) =~= q@);
    }
    total
}

/// A copy of `v`.
pub fn copy_vec<T: Copy>(v: &Vec<T>) -> (r: Vec<T>)
    ensures
        r@ == v@,
{
    let mut out: Vec<T> = Vec::new();
    let mut i: usize = 0;
    while i < v.len()
        invariant
            0 <= i <= v@.len(),
            out@ == v@.take(i as int),
        decreases v@.len() - i,
    {
        out.push(v[i]);
        proof {
            assert(v@.take(i + 1) =~= v@.take(i as int).push(v@[i as int]));
        }
        i = i + 1;
    }
    proof {
        assert(v@.take(v@.len() as int) =~= v@);
    }
    out
}

impl StakingLedger {
    /// The staker list holds each staker once, and exactly the accounts that stake.
    pub open spec fn wf(&self) -> bool {
        &&& self.staker_list@.no_duplicates()
        &&& forall|a: AccountId| #[trigger] self.staker_list@.contains(a) <==> self.stakes@.contains_key(a)
    }

    pub open spec fn stake_of(&self, a: AccountId) -> Option<StakeInfo> {
        if self.stakes@.contains_key(a) {
            Some(self.stakes@[a])
        } else {
            None
        }
    }

    pub open spec fn unbonding_of(&self, a: AccountId) -> Seq<UnbondingInfo> {
        if self.unbonding_requests@.contains_key(a) {
            self.unbonding_requests@[a]@
        } else {
            Seq::empty()
        }
    }

    pub open spec fn slashes_of(&self, a: AccountId) -> Seq<SlashRecord> {
        if self.slash_records@.contains_key(a) {
            self.slash_records@[a]@
        } else {
            Seq::empty()
        }
    }

    /// The staking records of every account but `a` are as in `old`, and so
    /// are the era records.
    pub open spec fn same_except(&self, old: &Self, a: AccountId) -> bool {
        &&& self.stakes@.remove(a) == old.stakes@.remove(a)
        &&& self.unbonding_requests@.remove(a) == old.unbonding_requests@.remove(a)
        &&& self.slash_records@.remove(a) == old.slash_records@.remove(a)
        &&& self.current_era == old.current_era
        &&& self.last_era_block == old.last_era_block
        &&& self.era_verifiers == old.era_verifiers
    }
}

impl Pallet {
    /// Everything but the staking ledger and the events is as in `old`.
    pub open spec fn unchanged_but_staking(&self, old: &Self) -> bool {
        &&& self.config == old.config
        &&& self.block_number == old.block_number
        &&& self.points == old.points
        &&& self.access == old.access
        &&& self.rewards == old.rewards
        &&& self.tickets == old.tickets
        &&& self.pools == old.pools
    }

    /// Everything but the reward ledger and the events is as in `old`.
    pub open spec fn unchanged_but_rewards(&self, old: &Self) -> bool {
        &&& self.config == old.config
        &&& self.block_number == old.block_number
        &&& self.points == old.points
        &&& self.access == old.access
        &&& self.tickets == old.tickets
        &&& self.staking == old.staking
        &&& self.pools == old.pools
    }

    fn stake_entry(&self, a: AccountId) -> (r: Option<StakeInfo>)
        ensures
            r == self.staking.stake_of(a),
    {
        match self.staking.stakes.get(&a) {
            Some(x) => Some(*x),
            None => None,
        }
    }

    fn unbonding_entries(&self, a: AccountId) -> (r: Vec<UnbondingInfo>)
        ensures
            r@ == self.staking.unbonding_of(a),
    {
        match self.staking.unbonding_requests.get(&a) {
            Some(v) => copy_vec(v),
            None => Vec::new(),
        }
    }

    /// The stake of `a`, if `a` stakes.
    pub fn get_stake_info(&self, a: AccountId) -> (r: Option<StakeInfo>)
        ensures
            r == self.staking.stake_of(a),
    {
        self.stake_entry(a)
    }

    /// Every staker, in the order they started staking.
    pub fn get_all_stakers(&self) -> (r: Vec<AccountId>)
        ensures
            r@ == self.staking.staker_list@,
    {
        copy_vec(&self.staking.staker_list)
    }

    /// The pending withdrawals of `a`.
    pub fn get_unbonding_requests(&self, a: AccountId) -> (r: Vec<UnbondingInfo>)
        ensures
            r@ == self.staking.unbonding_of(a),
    {
        self.unbonding_entries(a)
    }

    /// The slash history of `a`, oldest first.
    pub fn get_slash_records(&self, a: AccountId) -> (r: Vec<SlashRecord>)
        ensures
            r@ == self.staking.slashes_of(a),
    {
        match self.staking.slash_records.get(&a) {
            Some(v) => copy_vec(v),
            None => Vec::new(),
        }
    }

    /// All stake counted as staked.
    pub fn total_staked(&self) -> (r: u128)
        ensures
            r == self.staking.total_staked,
    {
        self.staking.total_staked
    }

    /// All stake ever slashed.
    pub fn total_slashed(&self) -> (r: u128)
        ensures
            r == self.staking.total_slashed,
    {
        self.staking.total_slashed
    }

    /// The result `stake` gives on the current state.
    pub open spec fn stake_result(&self, staker: AccountId, amount: u128) -> Result<(), Error> {
        if amount < self.config.min_stake_amount {
            Err(Error::StakeBelowMinimum)
        } else if self.staking.stake_of(staker) is Some {
            Err(Error::AlreadyStaking)
        } else if self.staking.staker_list@.len() >= self.config.max_stakers {
            Err(Error::TooManyStakers)
        } else {
            Ok(())
        }
    }

    /// `staker` starts staking `amount`.
    pub fn stake(&mut self, staker: AccountId, amount: u128) -> (r: Result<(), Error>)
        requires
            old(self).wf(),
        ensures
            final(self).wf(),
            r == old(self).stake_result(staker, amount),
            (r is Err) ==> *final(self) == *old(self),
            (r is Ok) ==> {
                &&& final(self).staking.stake_of(staker) == Some(
                    StakeInfo { amount, staked_at: old(self).block_number, is_verifier: false },
                )
                &&& final(self).staking.staker_list@ == old(self).staking.staker_list@.push(staker)
                &&& final(self).staking.total_staked == sat_add(old(self).staking.total_staked, amount)
                &&& final(self).staking.total_slashed == old(self).staking.total_slashed
                &&& final(self).staking.same_except(&old(self).staking, staker)
                &&& final(self).staking.unbonding_of(staker) == old(self).staking.unbonding_of(staker)
                &&& final(self).events@ == old(self).events@.push(Event::Staked { staker, amount })
                &&& final(self).unchanged_but_staking(old(self))
            },
    {
        if amount < self.config.min_stake_amount {
            return Err(Error::StakeBelowMinimum);
        }
        if self.stake_entry(staker).is_some() {
            return Err(Error::AlreadyStaking);
        }
        if self.staking.staker_list.len() >= self.config.max_stakers as usize {
            return Err(Error::TooManyStakers);
        }
        let ghost old_list = self.staking.staker_list@;
        self.staking.stakes.insert(staker, StakeInfo { amount, staked_at: self.block_number, is_verifier: false });
        self.staking.staker_list.push(staker);
        proof {
            assert(!old_list.contains(staker));
            let l = self.staking.staker_list@;
            assert forall|i: int, j: int| 0 <= i < l.len() && 0 <= j < l.len() && i != j implies l[i] != l[j] by {
                if i == l.len() - 1 {
                    assert(l[j] == old_list[j]);
                    if l[i] == l[j] {
                        assert(old_list.contains(staker));
                    }
                } else if j == l.len() - 1 {
                    assert(l[i] == old_list[i]);
                    if l[i] == l[j] {
                        assert(old_list.contains(staker));
                    }
                } else {
                    assert(l[i] == old_list[i] && l[j] == old_list[j]);
                }
            }
            assert forall|a: AccountId| #[trigger] l.contains(a) <==> self.staking.stakes@.contains_key(a) by {
                if l.contains(a) && a != staker {
                    let k = choose|k: int| 0 <= k < l.len() && l[k] == a;
                    assert(old_list[k] == a);
                }
                if old_list.contains(a) {
                    let k = choose|k: int| 0 <= k < old_list.len() && old_list[k] == a;
                    assert(l[k] == a);
                }
                if a == staker {
                    assert(l[l.len() - 1] == a);
                }
            }
        }
        self.staking.total_staked = self.staking.total_staked.saturating_add(amount);
        self.events.push(Event::Staked { staker, amount });
        proof {
            assert(self.staking.stakes@.remove(staker) =~= old(self).staking.stakes@.remove(staker));
        }
        Ok(())
    }

    /// `staker` stops staking at once; the whole stake leaves the total.
    pub fn unstake(&mut self, staker: AccountId) -> (r: Result<(), Error>)
        requires
            old(self).wf(),
        ensures
            final(self).wf(),
            r == (if old(self).staking.stake_of(staker) is None { Err(Error::NotStaker) } else { Ok(()) }),
            (r is Err) ==> *final(self) == *old(self),
            (r is Ok) ==> {
                let amount = old(self).staking.stake_of(staker).unwrap().amount;
                &&& final(self).staking.stake_of(staker) is None
                &&& final(self).staking.staker_list@ == without(old(self).staking.staker_list@, staker)
                &&& final(self).staking.total_staked == sat_sub(old(self).staking.total_staked, amount)
                &&& final(self).staking.total_slashed == old(self).staking.total_slashed
                &&& final(self).staking.same_except(&old(self).staking, staker)
                &&& final(self).staking.unbonding_of(staker) == old(self).staking.unbonding_of(staker)
                &&& final(self).staking.slashes_of(staker) == old(self).staking.slashes_of(staker)
                &&& final(self).events@ == old(self).events@.push(Event::Unstaked { staker, amount })
                &&& final(self).unchanged_but_staking(old(self))
            },
    {
        let info = match self.stake_entry(staker) {
            Some(x) => x,
            None => {
                return Err(Error::NotStaker);
            },
        };
        let amount = info.amount;
        proof {
            lemma_without_props(self.staking.staker_list@, staker);
            lemma_without_no_duplicates(self.staking.staker_list@, staker);
        }
        self.staking.stakes.remove(&staker);
        self.staking.staker_list = remove_account(&self.staking.staker_list, staker);
        self.staking.total_staked = self.staking.total_staked.saturating_sub(amount);
        self.events.push(Event::Unstaked { staker, amount });
        proof {
            assert forall|a: AccountId| #[trigger] self.staking.staker_list@.contains(a) <==> self.staking.stakes@.contains_key(a) by {
                assert(old(self).staking.staker_list@.contains(a) <==> old(self).staking.stakes@.contains_key(a));
            }
            assert(self.staking.stakes@.remove(staker) =~= old(self).staking.stakes@.remove(staker));
        }
        Ok(())
    }

    /// The result `increase_stake` gives on the current state.
    pub open spec fn increase_stake_result(&self, staker: AccountId, amount: u128) -> Result<(), Error> {
        if amount == 0 {
            Err(Error::ZeroAmount)
        } else if self.staking.stake_of(staker) is None {
            Err(Error::NotStaker)
        } else {
            Ok(())
        }
    }

    /// `staker` adds `amount` to an existing stake.
    pub fn increase_stake(&mut self, staker: AccountId, amount: u128) -> (r: Result<(), Error>)
        requires
            old(self).wf(),
        ensures
            final(self).wf(),
            r == old(self).increase_stake_result(staker, amount),
            (r is Err) ==> *final(self) == *old(self),
            (r is Ok) ==> {
                let info = old(self).staking.stake_of(staker).unwrap();
                let new_total = sat_add(info.amount, amount);
                &&& final(self).staking.stake_of(staker) == Some(StakeInfo { amount: new_total, ..info })
                &&& final(self).staking.staker_list == old(self).staking.staker_list
                &&& final(self).staking.total_staked == sat_add(old(self).staking.total_staked, amount)
                &&& final(self).staking.total_slashed == old(self).staking.total_slashed
                &&& final(self).staking.same_except(&old(self).staking, staker)
                &&& final(self).staking.unbonding_of(staker) == old(self).staking.unbonding_of(staker)
                &&& final(self).staking.slashes_of(staker) == old(self).staking.slashes_of(staker)
                &&& final(self).events@ == old(self).events@.push(Event::StakeIncreased { staker, amount, new_total })
                &&& final(self).unchanged_but_staking(old(self))
            },
    {
        if amount == 0 {
            return Err(Error::ZeroAmount);
        }
        let info = match self.stake_entry(staker) {
            Some(x) => x,
            None => {
                return Err(Error::NotStaker);
            },
        };
        let new_total = info.amount.saturating_add(amount);
        self.staking.stakes.insert(staker, StakeInfo { amount: new_total, ..info });
        self.staking.total_staked = self.staking.total_staked.saturating_add(amount);
        self.events.push(Event::StakeIncreased { staker, amount, new_total });
        proof {
            assert(self.staking.stakes@.dom() =~= old(self).staking.stakes@.dom());
            assert forall|a: AccountId| #[trigger] self.staking.staker_list@.contains(a) <==> self.staking.stakes@.contains_key(a) by {
                assert(old(self).staking.staker_list@.contains(a) <==> old(self).staking.stakes@.contains_key(a));
            }
            assert(self.staking.stakes@.remove(staker) =~= old(self).staking.stakes@.remove(staker));
        }
        Ok(())
    }

    /// The result `request_unbond` gives on the current state.
    pub open spec fn request_unbond_result(&self, staker: AccountId, amount: u128) -> Result<(), Error> {
        if amount == 0 {
            Err(Error::ZeroAmount)
        } else if self.staking.stake_of(staker) is None {
            Err(Error::NotStaker)
        } else if self.staking.stake_of(staker).unwrap().amount < amount {
            Err(Error::InsufficientBalance)
        } else if self.staking.unbonding_of(staker).len() >= self.config.max_unbonding_requests {
            Err(Error::TooManyUnbondingRequests)
        } else {
            Ok(())
        }
    }

    /// `staker` moves `amount` out of the active stake into a withdrawal that
    /// unlocks one unbonding period from now.
    pub fn request_unbond(&mut self, staker: AccountId, amount: u128) -> (r: Result<(), Error>)
        requires
            old(self).wf(),
        ensures
            final(self).wf(),
            r == old(self).request_unbond_result(staker, amount),
            (r is Err) ==> *final(self) == *old(self),
            (r is Ok) ==> {
                let info = old(self).staking.stake_of(staker).unwrap();
                let now = old(self).block_number;
                let unlocks_at = if now + old(self).config.unbonding_period > u64::MAX {
                    u64::MAX
                } else {
                    (now + old(self).config.unbonding_period) as u64
                };
                &&& final(self).staking.stake_of(staker) == Some(StakeInfo { amount: (info.amount - amount) as u128, ..info })
                &&& final(self).staking.unbonding_of(staker) == old(self).staking.unbonding_of(staker).push(
                    UnbondingInfo { amount, requested_at: now, unlocks_at },
                )
                &&& final(self).staking.staker_list == old(self).staking.staker_list
                &&& final(self).staking.total_staked == sat_sub(old(self).staking.total_staked, amount)
                &&& final(self).staking.total_slashed == old(self).staking.total_slashed
                &&& final(self).staking.same_except(&old(self).staking, staker)
                &&& final(self).staking.slashes_of(staker) == old(self).staking.slashes_of(staker)
                &&& final(self).events@ == old(self).events@.push(Event::UnbondingInitiated { staker, amount, unlocks_at })
                &&& final(self).unchanged_but_staking(old(self))
            },
    {
        if amount == 0 {
            return Err(Error::ZeroAmount);
        }
        let info = match self.stake_entry(staker) {
            Some(x) => x,
            None => {
                return Err(Error::NotStaker);
            },
        };
        if info.amount < amount {
            return Err(Error::InsufficientBalance);
        }
        let mut queue = self.unbonding_entries(staker);
        if queue.len() >= self.config.max_unbonding_requests as usize {
            return Err(Error::TooManyUnbondingRequests);
        }
        let now = self.block_number;
        let unlocks_at = now.saturating_add(self.config.unbonding_period);
        queue.push(UnbondingInfo { amount, requested_at: now, unlocks_at });
        self.staking.unbonding_requests.insert(staker, queue);
        self.staking.stakes.insert(staker, StakeInfo { amount: info.amount - amount, ..info });
        self.staking.total_staked = self.staking.total_staked.saturating_sub(amount);
        self.events.push(Event::UnbondingInitiated { staker, amount, unlocks_at });
        proof {
            assert(self.staking.stakes@.dom() =~= old(self).staking.stakes@.dom());
            assert forall|a: AccountId| #[trigger] self.staking.staker_list@.contains(a) <==> self.staking.stakes@.contains_key(a) by {
                assert(old(self).staking.staker_list@.contains(a) <==> old(self).staking.stakes@.contains_key(a));
            }
            assert(self.staking.stakes@.remove(staker) =~= old(self).staking.stakes@.remove(staker));
            assert(self.staking.unbonding_requests@.remove(staker) =~= old(self).staking.unbonding_requests@.remove(staker));
        }
        Ok(())
    }

    /// The result `withdraw_unbonded` gives on the current state.
    pub open spec fn withdraw_result(&self, staker: AccountId) -> Result<(), Error> {
        let q = self.staking.unbonding_of(staker);
        if q.len() == 0 {
            Err(Error::NoUnbondingRequests)
        } else if matured_total(q, self.block_number) == 0 {
            Err(Error::UnbondingNotComplete)
        } else {
            Ok(())
        }
    }

    /// `staker` takes out every withdrawal that has unlocked. A staker with no
    /// active stake and no withdrawal left is removed.
    pub fn withdraw_unbonded(&mut self, staker: AccountId) -> (r: Result<(), Error>)
        requires
            old(self).wf(),
        ensures
            final(self).wf(),
            r == old(self).withdraw_result(staker),
            (r is Err) ==> *final(self) == *old(self),
            (r is Ok) ==> {
                let q = old(self).staking.unbonding_of(staker);
                let now = old(self).block_number;
                let left = pending_requests(q, now);
                let info = old(self).staking.stake_of(staker);
                let gone = info is Some && info.unwrap().amount == 0 && left.len() == 0;
                &&& final(self).staking.unbonding_of(staker) == left
                &&& gone ==> final(self).staking.stake_of(staker) is None
                &&& gone ==> final(self).staking.staker_list@ == without(old(self).staking.staker_list@, staker)
                &&& !gone ==> final(self).staking.stake_of(staker) == info
                &&& !gone ==> final(self).staking.staker_list == old(self).staking.staker_list
                &&& final(self).staking.total_staked == old(self).staking.total_staked
                &&& final(self).staking.total_slashed == old(self).staking.total_slashed
                &&& final(self).staking.same_except(&old(self).staking, staker)
                &&& final(self).staking.slashes_of(staker) == old(self).staking.slashes_of(staker)
                &&& final(self).events@ == old(self).events@.push(
                    Event::UnbondingWithdrawn { staker, amount: matured_total(q, now) },
                )
                &&& final(self).unchanged_but_staking(old(self))
            },
    {
        let queue = self.unbonding_entries(staker);
        if queue.len() == 0 {
            return Err(Error::NoUnbondingRequests);
        }
        let (left, withdrawn) = split_matured(&queue, self.block_number);
        if withdrawn == 0 {
            return Err(Error::UnbondingNotComplete);
        }
        let left_len = left.len();
        self.staking.unbonding_requests.insert(staker, left);
        proof {
            assert(self.staking.unbonding_requests@.remove(staker) =~= old(self).staking.unbonding_requests@.remove(staker));
        }
        match self.stake_entry(staker) {
            Some(info) => {
                if info.amount == 0 && left_len == 0 {
                    proof {
                        lemma_without_props(self.staking.staker_list@, staker);
                        lemma_without_no_duplicates(self.staking.staker_list@, staker);
                    }
                    self.staking.stakes.remove(&staker);
                    self.staking.staker_list = remove_account(&self.staking.staker_list, staker);
                    proof {
                        assert forall|a: AccountId| #[trigger] self.staking.staker_list@.contains(a) <==> self.staking.stakes@.contains_key(a) by {
                            assert(old(self).staking.staker_list@.contains(a) <==> old(self).staking.stakes@.contains_key(a));
                        }
                        assert(self.staking.stakes@.remove(staker) =~= old(self).staking.stakes@.remove(staker));
                    }
                }
            },
            None => {},
        }
        self.events.push(Event::UnbondingWithdrawn { staker, amount: withdrawn });
        Ok(())
    }

    /// The result `cancel_unbonding` gives on the current state.
    pub open spec fn cancel_unbonding_result(&self, staker: AccountId) -> Result<(), Error> {
        if self.staking.unbonding_of(staker).len() == 0 {
            Err(Error::NoUnbondingRequests)
        } else if self.staking.stake_of(staker) is None {
            Err(Error::NotStaker)
        } else {
            Ok(())
        }
    }

    /// `staker` calls back every pending withdrawal into the active stake.
    pub fn cancel_unbonding(&mut self, staker: AccountId) -> (r: Result<(), Error>)
        requires
            old(self).wf(),
        ensures
            final(self).wf(),
            r == old(self).cancel_unbonding_result(staker),
            (r is Err) ==> *final(self) == *old(self),
            (r is Ok) ==> {
                let info = old(self).staking.stake_of(staker).unwrap();
                let back = queued_total(old(self).staking.unbonding_of(staker));
                &&& final(self).staking.unbonding_of(staker).len() == 0
                &&& final(self).staking.stake_of(staker) == Some(StakeInfo { amount: sat_add(info.amount, back), ..info })
                &&& final(self).staking.staker_list == old(self).staking.staker_list
                &&& final(self).staking.total_staked == sat_add(old(self).staking.total_staked, back)
                &&& final(self).staking.total_slashed == old(self).staking.total_slashed
                &&& final(self).staking.same_except(&old(self).staking, staker)
                &&& final(self).staking.slashes_of(staker) == old(self).staking.slashes_of(staker)
                &&& final(self).events@ == old(self).events@.push(Event::UnbondingCancelled { staker, amount: back })
                &&& final(self).unchanged_but_staking(old(self))
            },
    {
        let queue = self.unbonding_entries(staker);
        if queue.len() == 0 {
            return Err(Error::NoUnbondingRequests);
        }
        let info = match self.stake_entry(staker) {
            Some(x) => x,
            None => {
                return Err(Error::NotStaker);
            },
        };
        let back = sum_requests(&queue);
        self.staking.unbonding_requests.insert(staker, Vec::new());
        self.staking.stakes.insert(staker, StakeInfo { amount: info.amount.saturating_add(back), ..info });
        self.staking.total_staked = self.staking.total_staked.saturating_add(back);
        self.events.push(Event::UnbondingCancelled { staker, amount: back });
        proof {
            assert(self.staking.stakes@.dom() =~= old(self).staking.stakes@.dom());
            assert forall|a: AccountId| #[trigger] self.staking.staker_list@.contains(a) <==> self.staking.stakes@.contains_key(a) by {
                assert(old(self).staking.staker_list@.contains(a) <==> old(self).staking.stakes@.contains_key(a));
            }
            assert(self.staking.stakes@.remove(staker) =~= old(self).staking.stakes@.remove(staker));
            assert(self.staking.unbonding_requests@.remove(staker) =~= old(self).staking.unbonding_requests@.remove(staker));
        }
        Ok(())
    }

    /// The result `slash_staker` gives on the current state.
    pub open spec fn slash_result(&self, caller: AccountId, staker: AccountId, reason: SlashReason) -> Result<(), Error> {
        if !self.access.is_admin(caller) {
            Err(Error::NotAdmin)
        } else if self.staking.stake_of(staker) is None {
            Err(Error::NotStaker)
        } else if bps_of(self.staking.stake_of(staker).unwrap().amount, slash_bps(self.config, reason)) == 0 {
            Err(Error::SlashAmountZero)
        } else {
            Ok(())
        }
    }

    /// The admin slashes `staker`: the rate of `reason` is taken from the
    /// active stake. The slash is recorded while the history has room.
    pub fn slash_staker(&mut self, caller: AccountId, staker: AccountId, reason: SlashReason) -> (r: Result<(), Error>)
        requires
            old(self).wf(),
        ensures
            final(self).wf(),
            r == old(self).slash_result(caller, staker, reason),
            (r is Err) ==> *final(self) == *old(self),
            (r is Ok) ==> {
                let info = old(self).staking.stake_of(staker).unwrap();
                let amount = bps_of(info.amount, slash_bps(old(self).config, reason)) as u128;
                let rec = SlashRecord { amount, slashed_at: old(self).block_number, reason };
                let history = old(self).staking.slashes_of(staker);
                &&& final(self).staking.stake_of(staker) == Some(StakeInfo { amount: (info.amount - amount) as u128, ..info })
                &&& history.len() < MAX_SLASH_RECORDS ==> final(self).staking.slashes_of(staker) == history.push(rec)
                &&& history.len() >= MAX_SLASH_RECORDS ==> final(self).staking.slashes_of(staker) == history
                &&& final(self).staking.staker_list == old(self).staking.staker_list
                &&& final(self).staking.total_staked == sat_sub(old(self).staking.total_staked, amount)
                &&& final(self).staking.total_slashed == sat_add(old(self).staking.total_slashed, amount)
                &&& final(self).staking.same_except(&old(self).staking, staker)
                &&& final(self).staking.unbonding_of(staker) == old(self).staking.unbonding_of(staker)
                &&& final(self).events@ == old(self).events@.push(Event::Slashed { staker, amount, reason })
                &&& final(self).unchanged_but_staking(old(self))
            },
    {
        if !self.is_admin(caller) {
            return Err(Error::NotAdmin);
        }
        let bps = slash_percent(&self.config, reason);
        let info = match self.stake_entry(staker) {
            Some(x) => x,
            None => {
                return Err(Error::NotStaker);
            },
        };
        let amount = slash_amount(info.amount, bps);
        if amount == 0 {
            return Err(Error::SlashAmountZero);
        }
        let mut history = match self.staking.slash_records.get(&staker) {
            Some(v) => copy_vec(v),
            None => Vec::new(),
        };
        if history.len() < MAX_SLASH_RECORDS {
            history.push(SlashRecord { amount, slashed_at: self.block_number, reason });
        }
        self.staking.slash_records.insert(staker, history);
        self.staking.stakes.insert(staker, StakeInfo { amount: info.amount - amount, ..info });
        self.staking.total_staked = self.staking.total_staked.saturating_sub(amount);
        self.staking.total_slashed = self.staking.total_slashed.saturating_add(amount);
        self.events.push(Event::Slashed { staker, amount, reason });
        proof {
            assert(self.staking.stakes@.dom() =~= old(self).staking.stakes@.dom());
            assert forall|a: AccountId| #[trigger] self.staking.staker_list@.contains(a) <==> self.staking.stakes@.contains_key(a) by {
                assert(old(self).staking.staker_list@.contains(a) <==> old(self).staking.stakes@.contains_key(a));
            }
            assert(self.staking.stakes@.remove(staker) =~= old(self).staking.stakes@.remove(staker));
            assert(self.staking.slash_records@.remove(staker) =~= old(self).staking.slash_records@.remove(staker));
        }
        Ok(())
    }

    /// The reward pool.
    pub fn reward_pool(&self) -> (r: u128)
        ensures
            r == self.rewards.reward_pool,
    {
        self.rewards.reward_pool
    }

    /// Anyone adds `amount` to the reward pool.
    pub fn add_to_reward_pool(&mut self, caller: AccountId, amount: u128) -> (r: Result<(), Error>)
        requires
            old(self).wf(),
        ensures
            final(self).wf(),
            r == (if amount == 0 { Err(Error::ZeroAmount) } else { Ok(()) }),
            (r is Err) ==> *final(self) == *old(self),
            (r is Ok) ==> {
                &&& final(self).rewards.reward_pool == sat_add(old(self).rewards.reward_pool, amount)
                &&& final(self).rewards.issuer_daily_records == old(self).rewards.issuer_daily_records
                &&& final(self).rewards.period_total_spent == old(self).rewards.period_total_spent
                &&& final(self).rewards.pending_staker_rewards == old(self).rewards.pending_staker_rewards
                &&& final(self).rewards.pending_issuer_rewards == old(self).rewards.pending_issuer_rewards
                &&& final(self).events == old(self).events
                &&& final(self).unchanged_but_rewards(old(self))
            },
    {
        if amount == 0 {
            return Err(Error::ZeroAmount);
        }
        self.rewards.reward_pool = self.rewards.reward_pool.saturating_add(amount);
        Ok(())
    }

    /// Rewards of `a` not yet claimed, as staker and as issuer together.
    pub fn get_pending_rewards(&self, a: AccountId) -> (r: u128)
        ensures
            r == sat_add(self.rewards.pending_staker_of(a), self.rewards.pending_issuer_of(a)),
    {
        self.pending_staker_rewards(a).saturating_add(self.pending_issuer_rewards(a))
    }

    /// Staking rewards of `a` not yet claimed.
    pub fn pending_staker_rewards(&self, a: AccountId) -> (r: u128)
        ensures
            r == self.rewards.pending_staker_of(a),
    {
        match self.rewards.pending_staker_rewards.get(&a) {
            Some(x) => *x,
            None => 0,
        }
    }

    /// Issuer rewards of `a` not yet claimed.
    pub fn pending_issuer_rewards(&self, a: AccountId) -> (r: u128)
        ensures
            r == self.rewards.pending_issuer_of(a),
    {
        match self.rewards.pending_issuer_rewards.get(&a) {
            Some(x) => *x,
            None => 0,
        }
    }

    /// Points spent through `issuer` in `period`.
    pub fn get_issuer_period_record(&self, period: BlockNumber, issuer: AccountId) -> (r: IssuerDailyRecord)
        ensures
            r == self.rewards.record_of(period, issuer),
    {
        match self.rewards.issuer_daily_records.get(&period) {
            Some(m) => match m.get(&issuer) {
                Some(x) => *x,
                None => IssuerDailyRecord { points_spent: 0, transaction_count: 0 },
            },
            None => IssuerDailyRecord { points_spent: 0, transaction_count: 0 },
        }
    }

    /// Points spent in `period`.
    pub fn get_period_total_spent(&self, period: BlockNumber) -> (r: u128)
        ensures
            r == self.rewards.period_total_of(period),
    {
        match self.rewards.period_total_spent.get(&period) {
            Some(x) => *x,
            None => 0,
        }
    }

    /// `caller` claims every pending reward; both ledgers of `caller` are cleared together.
    pub fn claim_rewards(&mut self, caller: AccountId) -> (r: Result<(), Error>)
        requires
            old(self).wf(),
        ensures
            final(self).wf(),
            r == (if sat_add(old(self).rewards.pending_staker_of(caller), old(self).rewards.pending_issuer_of(caller)) == 0 {
                Err(Error::NoRewardsToClaim)
            } else {
                Ok(())
            }),
            (r is Err) ==> *final(self) == *old(self),
            (r is Ok) ==> {
                &&& final(self).rewards.pending_staker_rewards@ == old(self).rewards.pending_staker_rewards@.remove(caller)
                &&& final(self).rewards.pending_issuer_rewards@ == old(self).rewards.pending_issuer_rewards@.remove(caller)
                &&& final(self).rewards.reward_pool == old(self).rewards.reward_pool
                &&& final(self).rewards.issuer_daily_records == old(self).rewards.issuer_daily_records
                &&& final(self).rewards.period_total_spent == old(self).rewards.period_total_spent
                &&& final(self).events@ == old(self).events@.push(Event::RewardClaimed {
                    account: caller,
                    amount: sat_add(old(self).rewards.pending_staker_of(caller), old(self).rewards.pending_issuer_of(caller)),
                })
                &&& final(self).unchanged_but_rewards(old(self))
            },
    {
        let total = self.get_pending_rewards(caller);
        if total == 0 {
            return Err(Error::NoRewardsToClaim);
        }
        self.rewards.pending_staker_rewards.remove(&caller);
        self.rewards.pending_issuer_rewards.remove(&caller);
        self.events.push(Event::RewardClaimed { account: caller, amount: total });
        Ok(())
    }
}

} // verus!
