//! Paying out the reward pool: issuers by their share of a period's spending,
//! stakers by their share of the stake.
use vstd::prelude::*;
use crate::lists::lemma_take_one_more;
use crate::pallet::Pallet;
use crate::rewards::{bps_of, lemma_split_conserves, mul_div_saturating, share_of, split_reward_pool};
use crate::staking::sat_add;
use crate::types::{AccountId, BlockNumber, Error, Event};

verus! {

broadcast use vstd::std_specs::hash::group_hash_axioms;

impl Pallet {
    /// What issuer `a` is credited when `issuer_share` is paid out for `period`.
    pub open spec fn issuer_credit(&self, a: AccountId, period: BlockNumber, issuer_share: u128) -> Option<u128> {
        let total = self.rewards.period_total_of(period);
        let spent = self.rewards.record_of(period, a).points_spent;
        if total > 0 && issuer_share > 0 && self.access.is_issuer(a) && spent > 0 {
            Some(share_of(issuer_share, spent, total) as u128)
        } else {
            None
        }
    }

    /// What staker `a` is credited when `staker_share` is paid out.
    pub open spec fn staker_credit(&self, a: AccountId, staker_share: u128) -> Option<u128> {
        let total = self.staking.total_staked;
        if total > 0 && staker_share > 0 && self.staking.stakes@.contains_key(a) && self.staking.stakes@[a].amount > 0 {
            Some(share_of(staker_share, self.staking.stakes@[a].amount, total) as u128)
        } else {
            None
        }
    }

    /// The result `distribute_rewards` gives on the current state.
    pub open spec fn distribute_result(&self, caller: AccountId) -> Result<(), Error> {
        if !self.access.is_admin(caller) {
            Err(Error::NotAdmin)
        } else if self.rewards.reward_pool == 0 {
            Err(Error::NoRewardsToClaim)
        } else {
            Ok(())
        }
    }

    /// The admin pays out the whole reward pool for `period`. Issuers get
    /// `issuer_reward_percent` of it, each in proportion to the points spent
    /// through it in `period`; stakers get the rest, each in proportion to its
    /// stake. Shares are rounded down, and the pool is emptied.
    pub fn distribute_rewards(&mut self, caller: AccountId, period: BlockNumber) -> (r: Result<(), Error>)
        requires
            old(self).wf(),
        ensures
            final(self).wf(),
            r == old(self).distribute_result(caller),
            (r is Err) ==> *final(self) == *old(self),
            (r is Ok) ==> {
                let pool = old(self).rewards.reward_pool;
                let issuer_share = bps_of(pool, old(self).config.issuer_reward_percent) as u128;
                let staker_share = (pool - issuer_share) as u128;
                &&& issuer_share + staker_share == pool
                &&& final(self).rewards.reward_pool == 0
                &&& forall|a: AccountId| #[trigger] final(self).rewards.pending_issuer_of(a) == match old(self).issuer_credit(a, period, issuer_share) {
                    Some(c) => sat_add(old(self).rewards.pending_issuer_of(a), c),
                    None => old(self).rewards.pending_issuer_of(a),
                }
                &&& forall|a: AccountId| #[trigger] final(self).rewards.pending_staker_of(a) == match old(self).staker_credit(a, staker_share) {
                    Some(c) => sat_add(old(self).rewards.pending_staker_of(a), c),
                    None => old(self).rewards.pending_staker_of(a),
                }
                &&& final(self).rewards.issuer_daily_records == old(self).rewards.issuer_daily_records
                &&& final(self).rewards.period_total_spent == old(self).rewards.period_total_spent
                &&& final(self).events@ == old(self).events@.push(
                    Event::RewardsDistributed { period, staker_rewards: staker_share, issuer_rewards: issuer_share },
                )
                &&& final(self).unchanged_but_rewards(old(self))
            },
    {
        if !self.is_admin(caller) {
            return Err(Error::NotAdmin);
        }
        let pool = self.rewards.reward_pool;
        if pool == 0 {
            return Err(Error::NoRewardsToClaim);
        }
        proof {
            lemma_split_conserves(pool, self.config.issuer_reward_percent);
        }
        let (issuer_share, staker_share) = split_reward_pool(pool, self.config.issuer_reward_percent);
        let period_total = self.get_period_total_spent(period);
        let ghost snapshot = *self;
        if period_total > 0 && issuer_share > 0 {
            let n = self.access.authorized_issuers.len();
            let mut i: usize = 0;
            while i < n
                invariant
                    0 <= i <= n,
                    n == self.access.authorized_issuers@.len(),
                    self.wf(),
                    snapshot.wf(),
                    period_total == snapshot.rewards.period_total_of(period),
                    period_total > 0 && issuer_share > 0,
                    forall|a: AccountId| #[trigger] self.rewards.pending_issuer_of(a) == (
                        if self.access.authorized_issuers@.take(i as int).contains(a) {
                            match snapshot.issuer_credit(a, period, issuer_share) {
                                Some(c) => sat_add(snapshot.rewards.pending_issuer_of(a), c),
                                None => snapshot.rewards.pending_issuer_of(a),
                            }
                        } else {
                            snapshot.rewards.pending_issuer_of(a)
                        }),
                    self.rewards.pending_staker_rewards == snapshot.rewards.pending_staker_rewards,
                    self.rewards.issuer_daily_records == snapshot.rewards.issuer_daily_records,
                    self.rewards.period_total_spent == snapshot.rewards.period_total_spent,
                    self.rewards.reward_pool == snapshot.rewards.reward_pool,
                    self.events == snapshot.events,
                    self.unchanged_but_rewards(&snapshot),
                decreases n - i,
            {
                let issuer = self.access.authorized_issuers[i];
                proof {
                    lemma_take_one_more(self.access.authorized_issuers@, i as int);
                    assert(self.access.is_issuer(issuer));
                }
                let record = self.get_issuer_period_record(period, issuer);
                let ghost before = *self;
                proof {
                    assert(!self.access.authorized_issuers@.take(i as int).contains(issuer));
                    assert(before.rewards.pending_issuer_of(issuer) == snapshot.rewards.pending_issuer_of(issuer));
                    assert(record == snapshot.rewards.record_of(period, issuer));
                    assert(snapshot.access.is_issuer(issuer));
                }
                if record.points_spent > 0 {
                    let reward = mul_div_saturating(issuer_share, record.points_spent, period_total);
                    let current = self.pending_issuer_rewards(issuer);
                    self.rewards.pending_issuer_rewards.insert(issuer, current.saturating_add(reward));
                }
                proof {
                    let t1 = self.access.authorized_issuers@.take(i + 1);
                    assert forall|a: AccountId| #[trigger] self.rewards.pending_issuer_of(a) == (
                        if t1.contains(a) {
                            match snapshot.issuer_credit(a, period, issuer_share) {
                                Some(c) => sat_add(snapshot.rewards.pending_issuer_of(a), c),
                                None => snapshot.rewards.pending_issuer_of(a),
                            }
                        } else {
                            snapshot.rewards.pending_issuer_of(a)
                        }) by {
                        assert(before.rewards.pending_issuer_of(a) == (
                            if self.access.authorized_issuers@.take(i as int).contains(a) {
                                match snapshot.issuer_credit(a, period, issuer_share) {
                                    Some(c) => sat_add(snapshot.rewards.pending_issuer_of(a), c),
                                    None => snapshot.rewards.pending_issuer_of(a),
                                }
                            } else {
                                snapshot.rewards.pending_issuer_of(a)
                            }));
                        if a != issuer {
                            assert(self.rewards.pending_issuer_of(a) == before.rewards.pending_issuer_of(a));
                        }
                    }
                }
                i = i + 1;
            }
            proof {
                assert(self.access.authorized_issuers@.take(n as int) =~= self.access.authorized_issuers@);
            }
        }
        let ghost mid = *self;
        let total_staked = self.staking.total_staked;
        if total_staked > 0 && staker_share > 0 {
            let n = self.staking.staker_list.len();
            let mut i: usize = 0;
            while i < n
                invariant
                    0 <= i <= n,
                    n == self.staking.staker_list@.len(),
                    self.wf(),
                    snapshot.wf(),
                    total_staked == snapshot.staking.total_staked,
                    total_staked > 0 && staker_share > 0,
                    forall|a: AccountId| #[trigger] self.rewards.pending_staker_of(a) == (
                        if self.staking.staker_list@.take(i as int).contains(a) {
                            match snapshot.staker_credit(a, staker_share) {
                                Some(c) => sat_add(snapshot.rewards.pending_staker_of(a), c),
                                None => snapshot.rewards.pending_staker_of(a),
                            }
                        } else {
                            snapshot.rewards.pending_staker_of(a)
                        }),
                    self.rewards.pending_issuer_rewards == mid.rewards.pending_issuer_rewards,
                    self.rewards.issuer_daily_records == snapshot.rewards.issuer_daily_records,
                    self.rewards.period_total_spent == snapshot.rewards.period_total_spent,
                    self.rewards.reward_pool == snapshot.rewards.reward_pool,
                    self.events == snapshot.events,
                    self.unchanged_but_rewards(&snapshot),
                decreases n - i,
            {
                let staker = self.staking.staker_list[i];
                proof {
                    lemma_take_one_more(self.staking.staker_list@, i as int);
                    assert(self.staking.staker_list@.contains(staker)) by {
                        assert(self.staking.staker_list@[i as int] == staker);
                    }
                }
                let amount = match self.staking.stakes.get(&staker) {
                    Some(info) => info.amount,
                    None => 0,
                };
                let ghost before = *self;
                proof {
                    assert(!self.staking.staker_list@.take(i as int).contains(staker));
                    assert(before.rewards.pending_staker_of(staker) == snapshot.rewards.pending_staker_of(staker));
                }
                if amount > 0 {
                    let reward = mul_div_saturating(staker_share, amount, total_staked);
                    let current = self.pending_staker_rewards(staker);
                    self.rewards.pending_staker_rewards.insert(staker, current.saturating_add(reward));
                }
                proof {
                    let t1 = self.staking.staker_list@.take(i + 1);
                    assert forall|a: AccountId| #[trigger] self.rewards.pending_staker_of(a) == (
                        if t1.contains(a) {
                            match snapshot.staker_credit(a, staker_share) {
                                Some(c) => sat_add(snapshot.rewards.pending_staker_of(a), c),
                                None => snapshot.rewards.pending_staker_of(a),
                            }
                        } else {
                            snapshot.rewards.pending_staker_of(a)
                        }) by {
                        assert(before.rewards.pending_staker_of(a) == (
                            if self.staking.staker_list@.take(i as int).contains(a) {
                                match snapshot.staker_credit(a, staker_share) {
                                    Some(c) => sat_add(snapshot.rewards.pending_staker_of(a), c),
                                    None => snapshot.rewards.pending_staker_of(a),
                                }
                            } else {
                                snapshot.rewards.pending_staker_of(a)
                            }));
                        if a != staker {
                            assert(self.rewards.pending_staker_of(a) == before.rewards.pending_staker_of(a));
                        }
                    }
                }
                i = i + 1;
            }
            proof {
                assert(self.staking.staker_list@.take(n as int) =~= self.staking.staker_list@);
                assert forall|a: AccountId| #[trigger] self.rewards.pending_staker_of(a) == match snapshot.staker_credit(a, staker_share) {
                    Some(c) => sat_add(snapshot.rewards.pending_staker_of(a), c),
                    None => snapshot.rewards.pending_staker_of(a),
                } by {
                    if !self.staking.staker_list@.contains(a) {
                        assert(!snapshot.staking.stakes@.contains_key(a));
                    }
                }
            }
        }
        let ghost after_stakers = *self;
        proof {
            if !(total_staked > 0 && staker_share > 0) {
                assert forall|a: AccountId| #[trigger] self.rewards.pending_staker_of(a) == match snapshot.staker_credit(a, staker_share) {
                    Some(c) => sat_add(snapshot.rewards.pending_staker_of(a), c),
                    None => snapshot.rewards.pending_staker_of(a),
                } by {
                    assert(self.rewards.pending_staker_rewards == snapshot.rewards.pending_staker_rewards);
                }
            }
        }
        self.rewards.reward_pool = 0;
        self.events.push(Event::RewardsDistributed {
            period,
            staker_rewards: staker_share,
            issuer_rewards: issuer_share,
        });
        proof {
            assert forall|a: AccountId| #[trigger] self.rewards.pending_issuer_of(a) == match snapshot.issuer_credit(a, period, issuer_share) {
                Some(c) => sat_add(snapshot.rewards.pending_issuer_of(a), c),
                None => snapshot.rewards.pending_issuer_of(a),
            } by {
                assert(mid.rewards.pending_issuer_of(a) == self.rewards.pending_issuer_of(a));
            }
            assert forall|a: AccountId| #[trigger] self.rewards.pending_staker_of(a) == match snapshot.staker_credit(a, staker_share) {
                Some(c) => sat_add(snapshot.rewards.pending_staker_of(a), c),
                None => snapshot.rewards.pending_staker_of(a),
            } by {
                assert(after_stakers.rewards.pending_staker_of(a) == self.rewards.pending_staker_of(a));
            }
        }
        Ok(())
    }
}

} // verus!
