//! Staking pools: an operator's stake plus the stake delegated into the pool.
use vstd::prelude::*;
use crate::lists::{lemma_without_no_duplicates, lemma_without_props, remove_account, without};
use crate::pallet::{Pallet, PoolRegistry};
use crate::staking::{copy_vec, sat_add, sat_sub};
use crate::types::{AccountId, DelegationInfo, Error, Event, StakingPool};

verus! {

broadcast use vstd::std_specs::hash::group_hash_axioms;

/// What the delegators in `list` have delegated, summed.
pub open spec fn delegated_sum(list: Seq<AccountId>, d: Map<AccountId, DelegationInfo>) -> int
    decreases list.len(),
{
    if list.len() == 0 {
        0
    } else {
        delegated_sum(list.drop_last(), d) + d[list.last()].amount
    }
}

/// Changing the delegation of an account outside `list` changes nothing of its sum.
pub proof fn lemma_delegated_sum_frame(list: Seq<AccountId>, d1: Map<AccountId, DelegationInfo>, d2: Map<AccountId, DelegationInfo>)
    requires
        forall|k: int| 0 <= k < list.len() ==> d1[#[trigger] list[k]] == d2[list[k]],
    ensures
        delegated_sum(list, d1) == delegated_sum(list, d2),
    decreases list.len(),
{
    if list.len() > 0 {
        lemma_delegated_sum_frame(list.drop_last(), d1, d2);
        assert(list.last() == list[list.len() - 1]);
    }
}

/// Taking a delegator out of a list without repeats takes its delegation out of the sum.
pub proof fn lemma_delegated_sum_without(list: Seq<AccountId>, d: Map<AccountId, DelegationInfo>, x: AccountId)
    requires
        list.no_duplicates(),
        list.contains(x),
    ensures
        delegated_sum(without(list, x), d) == delegated_sum(list, d) - d[x].amount,
    decreases list.len(),
{
    let init = list.drop_last();
    assert(init.no_duplicates()) by {
        assert forall|i: int, j: int| 0 <= i < init.len() && 0 <= j < init.len() && i != j implies init[i] != init[j] by {
            assert(init[i] == list[i] && init[j] == list[j]);
        }
    }
    if list.last() == x {
        lemma_without_props(init, x);
        assert(!init.contains(x)) by {
            if init.contains(x) {
                let k = choose|k: int| 0 <= k < init.len() && init[k] == x;
                assert(list[k] == list[list.len() - 1]);
            }
        }
    } else {
        let k = choose|k: int| 0 <= k < list.len() && list[k] == x;
        assert(k < list.len() - 1);
        assert(init[k] == x);
        lemma_delegated_sum_without(init, d, x);
        assert(without(list, x).drop_last() =~= without(init, x));
    }
}

impl PoolRegistry {
    pub open spec fn pool_of(&self, id: u32) -> Option<StakingPool> {
        if self.pools@.contains_key(id) {
            Some(self.pools@[id])
        } else {
            None
        }
    }

    pub open spec fn delegation_of(&self, a: AccountId) -> Option<DelegationInfo> {
        if self.delegations@.contains_key(a) {
            Some(self.delegations@[a])
        } else {
            None
        }
    }

    /// The delegators of pool `id`, in the order they joined.
    pub open spec fn delegators_of(&self, id: u32) -> Seq<AccountId> {
        if self.pool_delegators@.contains_key(id) {
            self.pool_delegators@[id]@
        } else {
            Seq::empty()
        }
    }

    /// A pool's total stake is its operator's stake plus every delegation into it.
    pub open spec fn pool_balanced(&self, id: u32) -> bool {
        self.pools@.contains_key(id) ==> self.pools@[id].total_stake == self.pools@[id].operator_stake
            + delegated_sum(self.delegators_of(id), self.delegations@)
    }

    /// Pools are balanced and count their delegators; each delegator list is
    /// without repeats and holds exactly the accounts that delegate to that pool.
    pub open spec fn wf(&self) -> bool {
        &&& forall|id: u32| #[trigger] self.pools@.contains_key(id) ==> id < self.next_pool_id
        &&& forall|id: u32| #[trigger] self.pool_balanced(id)
        &&& forall|id: u32| #[trigger] self.pools@.contains_key(id) ==> self.pools@[id].delegator_count == self.delegators_of(id).len()
        &&& forall|id: u32| !self.pools@.contains_key(id) ==> #[trigger] self.delegators_of(id).len() == 0
        &&& forall|id: u32| #[trigger] self.delegators_of(id).no_duplicates()
        &&& forall|id: u32, k: int| 0 <= k < self.delegators_of(id).len() ==> {
            &&& self.delegations@.contains_key(#[trigger] self.delegators_of(id)[k])
            &&& self.delegations@[self.delegators_of(id)[k]].pool_id == id
        }
        &&& forall|a: AccountId| #[trigger] self.delegations@.contains_key(a) ==> {
            &&& self.pools@.contains_key(self.delegations@[a].pool_id)
            &&& self.delegators_of(self.delegations@[a].pool_id).contains(a)
        }
    }
}

impl Pallet {
    /// Everything but the pool registry, the total stake and the events is as in `old`.
    pub open spec fn unchanged_but_pools(&self, old: &Self) -> bool {
        &&& self.config == old.config
        &&& self.block_number == old.block_number
        &&& self.points == old.points
        &&& self.access == old.access
        &&& self.rewards == old.rewards
        &&& self.tickets == old.tickets
        &&& self.staking.stakes == old.staking.stakes
        &&& self.staking.staker_list == old.staking.staker_list
        &&& self.staking.unbonding_requests == old.staking.unbonding_requests
        &&& self.staking.slash_records == old.staking.slash_records
        &&& self.staking.total_slashed == old.staking.total_slashed
        &&& self.staking.current_era == old.staking.current_era
        &&& self.staking.last_era_block == old.staking.last_era_block
        &&& self.staking.era_verifiers == old.staking.era_verifiers
    }

    /// Pool `id`, if it exists.
    pub fn get_pool(&self, id: u32) -> (r: Option<StakingPool>)
        ensures
            r == self.pools.pool_of(id),
    {
        match self.pools.pools.get(&id) {
            Some(p) => Some(*p),
            None => None,
        }
    }

    /// The delegation of `a`, if `a` delegates.
    pub fn get_delegation(&self, a: AccountId) -> (r: Option<DelegationInfo>)
        ensures
            r == self.pools.delegation_of(a),
    {
        match self.pools.delegations.get(&a) {
            Some(d) => Some(*d),
            None => None,
        }
    }

    /// The delegators of pool `id`, in the order they joined.
    pub fn get_pool_delegators(&self, id: u32) -> (r: Vec<AccountId>)
        ensures
            r@ == self.pools.delegators_of(id),
    {
        match self.pools.pool_delegators.get(&id) {
            Some(v) => copy_vec(v),
            None => Vec::new(),
        }
    }

    /// The id the next pool gets.
    pub fn next_pool_id(&self) -> (r: u32)
        ensures
            r == self.pools.next_pool_id,
    {
        self.pools.next_pool_id
    }

    /// The result `create_pool` gives on the current state.
    pub open spec fn create_pool_result(&self, initial_stake: u128, commission: u32) -> Result<(), Error> {
        if initial_stake < self.config.min_pool_operator_stake {
            Err(Error::InsufficientOperatorStake)
        } else if commission > self.config.max_pool_commission {
            Err(Error::CommissionTooHigh)
        } else if self.pools.next_pool_id >= self.config.max_pools {
            Err(Error::TooManyPools)
        } else {
            Ok(())
        }
    }

    /// `operator` opens a pool with its own `initial_stake` and a commission
    /// in basis points.
    pub fn create_pool(&mut self, operator: AccountId, initial_stake: u128, commission: u32) -> (r: Result<(), Error>)
        requires
            old(self).wf(),
        ensures
            final(self).wf(),
            r == old(self).create_pool_result(initial_stake, commission),
            (r is Err) ==> *final(self) == *old(self),
            (r is Ok) ==> {
                let id = old(self).pools.next_pool_id;
                &&& final(self).pools.pools@ == old(self).pools.pools@.insert(id, StakingPool {
                    operator,
                    total_stake: initial_stake,
                    operator_stake: initial_stake,
                    commission,
                    created_at: old(self).block_number,
                    is_active: true,
                    delegator_count: 0,
                })
                &&& final(self).pools.next_pool_id == id + 1
                &&& final(self).pools.delegations == old(self).pools.delegations
                &&& final(self).pools.pool_delegators == old(self).pools.pool_delegators
                &&& final(self).staking.total_staked == sat_add(old(self).staking.total_staked, initial_stake)
                &&& final(self).events@ == old(self).events@.push(
                    Event::PoolCreated { pool_id: id, operator, initial_stake, commission },
                )
                &&& final(self).unchanged_but_pools(old(self))
            },
    {
        if initial_stake < self.config.min_pool_operator_stake {
            return Err(Error::InsufficientOperatorStake);
        }
        if commission > self.config.max_pool_commission {
            return Err(Error::CommissionTooHigh);
        }
        let pool_id = self.pools.next_pool_id;
        if pool_id >= self.config.max_pools {
            return Err(Error::TooManyPools);
        }
        let pool = StakingPool {
            operator,
            total_stake: initial_stake,
            operator_stake: initial_stake,
            commission,
            created_at: self.block_number,
            is_active: true,
            delegator_count: 0,
        };
        let ghost old_pools = self.pools;
        proof {
            assert(!self.pools.pools@.contains_key(pool_id));
            assert(self.pools.delegators_of(pool_id).len() == 0);
        }
        self.pools.pools.insert(pool_id, pool);
        self.pools.next_pool_id = pool_id + 1;
        self.staking.total_staked = self.staking.total_staked.saturating_add(initial_stake);
        self.events.push(Event::PoolCreated { pool_id, operator, initial_stake, commission });
        proof {
            assert(self.pools.delegators_of(pool_id) =~= Seq::<AccountId>::empty());
            assert forall|id: u32| #[trigger] self.pools.pool_balanced(id) by {
                if id != pool_id {
                    assert(old_pools.pool_balanced(id));
                }
            }
            assert forall|id: u32| !self.pools.pools@.contains_key(id) implies #[trigger] self.pools.delegators_of(id).len() == 0 by {
                assert(!old_pools.pools@.contains_key(id));
                assert(old_pools.delegators_of(id).len() == 0);
                assert(self.pools.delegators_of(id) == old_pools.delegators_of(id));
            }
        }
        Ok(())
    }

    /// The result `delegate` gives on the current state.
    pub open spec fn delegate_result(&self, delegator: AccountId, pool_id: u32, amount: u128) -> Result<(), Error> {
        let pool = self.pools.pools@[pool_id];
        if amount == 0 {
            Err(Error::ZeroAmount)
        } else if amount < self.config.min_stake_amount {
            Err(Error::DelegationBelowMinimum)
        } else if self.pools.delegations@.contains_key(delegator) {
            Err(Error::AlreadyDelegating)
        } else if !self.pools.pools@.contains_key(pool_id) {
            Err(Error::PoolNotFound)
        } else if !pool.is_active {
            Err(Error::PoolNotActive)
        } else if self.pools.delegators_of(pool_id).len() >= self.config.max_delegators_per_pool {
            Err(Error::TooManyDelegators)
        } else if pool.total_stake + amount > u128::MAX {
            Err(Error::ArithmeticOverflow)
        } else {
            Ok(())
        }
    }

    /// `delegator` puts `amount` into pool `pool_id`. An account delegates to
    /// one pool at a time.
    pub fn delegate(&mut self, delegator: AccountId, pool_id: u32, amount: u128) -> (r: Result<(), Error>)
        requires
            old(self).wf(),
        ensures
            final(self).wf(),
            r == old(self).delegate_result(delegator, pool_id, amount),
            (r is Err) ==> *final(self) == *old(self),
            (r is Ok) ==> {
                let pool = old(self).pools.pools@[pool_id];
                &&& final(self).pools.pools@ == old(self).pools.pools@.insert(pool_id, StakingPool {
                    total_stake: (pool.total_stake + amount) as u128,
                    delegator_count: (pool.delegator_count + 1) as u32,
                    ..pool
                })
                &&& final(self).pools.delegations@ == old(self).pools.delegations@.insert(
                    delegator,
                    DelegationInfo { pool_id, amount, delegated_at: old(self).block_number },
                )
                &&& final(self).pools.delegators_of(pool_id) == old(self).pools.delegators_of(pool_id).push(delegator)
                &&& final(self).pools.pool_delegators@.remove(pool_id) == old(self).pools.pool_delegators@.remove(pool_id)
                &&& final(self).pools.next_pool_id == old(self).pools.next_pool_id
                &&& final(self).pools.pool_balanced(pool_id)
                &&& final(self).staking.total_staked == sat_add(old(self).staking.total_staked, amount)
                &&& final(self).events@ == old(self).events@.push(Event::Delegated { delegator, pool_id, amount })
                &&& final(self).unchanged_but_pools(old(self))
            },
    {
        if amount == 0 {
            return Err(Error::ZeroAmount);
        }
        if amount < self.config.min_stake_amount {
            return Err(Error::DelegationBelowMinimum);
        }
        if self.pools.delegations.contains_key(&delegator) {
            return Err(Error::AlreadyDelegating);
        }
        let pool = match self.pools.pools.get(&pool_id) {
            Some(p) => *p,
            None => {
                return Err(Error::PoolNotFound);
            },
        };
        if !pool.is_active {
            return Err(Error::PoolNotActive);
        }
        let mut list = self.get_pool_delegators(pool_id);
        if list.len() >= self.config.max_delegators_per_pool as usize {
            return Err(Error::TooManyDelegators);
        }
        let total_stake = match pool.total_stake.checked_add(amount) {
            Some(t) => t,
            None => {
                return Err(Error::ArithmeticOverflow);
            },
        };
        let ghost old_pools = self.pools;
        let ghost old_list = list@;
        proof {
            assert(!old_list.contains(delegator)) by {
                if old_list.contains(delegator) {
                    let k = choose|k: int| 0 <= k < old_list.len() && old_list[k] == delegator;
                    assert(old_pools.delegations@.contains_key(old_pools.delegators_of(pool_id)[k]));
                }
            }
        }
        let info = DelegationInfo { pool_id, amount, delegated_at: self.block_number };
        list.push(delegator);
        self.pools.pools.insert(pool_id, StakingPool { total_stake, delegator_count: pool.delegator_count + 1, ..pool });
        self.pools.pool_delegators.insert(pool_id, list);
        self.pools.delegations.insert(delegator, info);
        self.staking.total_staked = self.staking.total_staked.saturating_add(amount);
        self.events.push(Event::Delegated { delegator, pool_id, amount });
        proof {
            let np = self.pools;
            assert(np.pool_delegators@.remove(pool_id) =~= old_pools.pool_delegators@.remove(pool_id));
            assert forall|id: u32| #[trigger] np.pool_balanced(id) by {
                assert(old_pools.pool_balanced(id));
                let l = old_pools.delegators_of(id);
                assert forall|k: int| 0 <= k < l.len() implies old_pools.delegations@[#[trigger] l[k]] == np.delegations@[l[k]] by {
                    assert(old_pools.delegations@.contains_key(l[k]));
                }
                lemma_delegated_sum_frame(l, old_pools.delegations@, np.delegations@);
                if id == pool_id {
                    assert(np.delegators_of(id).drop_last() =~= l);
                }
            }
            assert(np.delegators_of(pool_id) == old_list.push(delegator));
            assert(old_list.no_duplicates()) by {
                assert(old_pools.delegators_of(pool_id).no_duplicates());
            }
            assert forall|id: u32| #[trigger] np.delegators_of(id).no_duplicates() by {
                assert(old_pools.delegators_of(id).no_duplicates());
                if id == pool_id {
                    let l = np.delegators_of(id);
                    assert forall|i: int, j: int| 0 <= i < l.len() && 0 <= j < l.len() && i != j implies l[i] != l[j] by {
                        if i == l.len() - 1 {
                            assert(l[j] == old_list[j]);
                            if l[i] == l[j] {
                                assert(old_list.contains(delegator));
                            }
                        } else if j == l.len() - 1 {
                            assert(l[i] == old_list[i]);
                            if l[i] == l[j] {
                                assert(old_list.contains(delegator));
                            }
                        } else {
                            assert(l[i] == old_list[i] && l[j] == old_list[j]);
                        }
                    }
                }
            }
            assert forall|id: u32| !np.pools@.contains_key(id) implies #[trigger] np.delegators_of(id).len() == 0 by {
                assert(!old_pools.pools@.contains_key(id));
                assert(old_pools.delegators_of(id).len() == 0);
                assert(np.delegators_of(id) == old_pools.delegators_of(id));
            }
            assert forall|id: u32| #[trigger] np.pools@.contains_key(id) implies np.pools@[id].delegator_count == np.delegators_of(id).len() by {
                assert(old_pools.pools@.contains_key(id));
            }
            assert forall|id: u32, k: int| 0 <= k < np.delegators_of(id).len() implies {
                &&& np.delegations@.contains_key(#[trigger] np.delegators_of(id)[k])
                &&& np.delegations@[np.delegators_of(id)[k]].pool_id == id
            } by {
                if id == pool_id && k < old_list.len() {
                    assert(np.delegators_of(id)[k] == old_list[k]);
                    assert(old_pools.delegations@.contains_key(old_pools.delegators_of(id)[k]));
                }
            }
            assert forall|a: AccountId| #[trigger] np.delegations@.contains_key(a) implies {
                &&& np.pools@.contains_key(np.delegations@[a].pool_id)
                &&& np.delegators_of(np.delegations@[a].pool_id).contains(a)
            } by {
                if a == delegator {
                    assert(np.delegators_of(pool_id)[old_list.len() as int] == a);
                } else {
                    assert(old_pools.delegations@.contains_key(a));
                    let pid = old_pools.delegations@[a].pool_id;
                    assert(old_pools.delegators_of(pid).contains(a));
                    if pid == pool_id {
                        let k = choose|k: int| 0 <= k < old_list.len() && old_list[k] == a;
                        assert(np.delegators_of(pid)[k] == a);
                    }
                }
            }
        }
        Ok(())
    }

    /// `delegator` takes its delegation back out of its pool.
    pub fn undelegate(&mut self, delegator: AccountId) -> (r: Result<(), Error>)
        requires
            old(self).wf(),
        ensures
            final(self).wf(),
            r == (if !old(self).pools.delegations@.contains_key(delegator) { Err(Error::NotDelegating) } else { Ok(()) }),
            (r is Err) ==> *final(self) == *old(self),
            (r is Ok) ==> {
                let d = old(self).pools.delegations@[delegator];
                let pool = old(self).pools.pools@[d.pool_id];
                &&& final(self).pools.pools@ == old(self).pools.pools@.insert(d.pool_id, StakingPool {
                    total_stake: (pool.total_stake - d.amount) as u128,
                    delegator_count: (pool.delegator_count - 1) as u32,
                    ..pool
                })
                &&& final(self).pools.delegations@ == old(self).pools.delegations@.remove(delegator)
                &&& final(self).pools.delegators_of(d.pool_id) == without(old(self).pools.delegators_of(d.pool_id), delegator)
                &&& final(self).pools.pool_delegators@.remove(d.pool_id) == old(self).pools.pool_delegators@.remove(d.pool_id)
                &&& final(self).pools.next_pool_id == old(self).pools.next_pool_id
                &&& final(self).pools.pool_balanced(d.pool_id)
                &&& final(self).staking.total_staked == sat_sub(old(self).staking.total_staked, d.amount)
                &&& final(self).events@ == old(self).events@.push(
                    Event::Undelegated { delegator, pool_id: d.pool_id, amount: d.amount },
                )
                &&& final(self).unchanged_but_pools(old(self))
            },
    {
        let d = match self.pools.delegations.get(&delegator) {
            Some(x) => *x,
            None => {
                return Err(Error::NotDelegating);
            },
        };
        let pool_id = d.pool_id;
        let amount = d.amount;
        let ghost old_pools = self.pools;
        let ghost old_list = old_pools.delegators_of(pool_id);
        proof {
            assert(old_pools.pool_balanced(pool_id));
            lemma_delegated_sum_without(old_list, old_pools.delegations@, delegator);
            lemma_without_props(old_list, delegator);
            lemma_without_no_duplicates(old_list, delegator);
            assert(old_list.len() > 0);
            crate::pools::lemma_delegated_sum_nonneg(without(old_list, delegator), old_pools.delegations@);
            lemma_without_len(old_list, delegator);
        }
        let pool = match self.pools.pools.get(&pool_id) {
            Some(p) => *p,
            None => {
                return Err(Error::PoolNotFound);
            },
        };
        let list = remove_account(&self.get_pool_delegators(pool_id), delegator);
        self.pools.pools.insert(pool_id, StakingPool {
            total_stake: pool.total_stake - amount,
            delegator_count: pool.delegator_count - 1,
            ..pool
        });
        self.pools.pool_delegators.insert(pool_id, list);
        self.pools.delegations.remove(&delegator);
        self.staking.total_staked = self.staking.total_staked.saturating_sub(amount);
        self.events.push(Event::Undelegated { delegator, pool_id, amount });
        proof {
            let np = self.pools;
            assert(np.pool_delegators@.remove(pool_id) =~= old_pools.pool_delegators@.remove(pool_id));
            assert forall|id: u32| #[trigger] np.pool_balanced(id) by {
                assert(old_pools.pool_balanced(id));
                let l = np.delegators_of(id);
                assert forall|k: int| 0 <= k < l.len() implies np.delegations@[#[trigger] l[k]] == old_pools.delegations@[l[k]] by {
                    if id == pool_id {
                        assert(l.contains(l[k]));
                        assert(l[k] != delegator);
                        assert(old_list.contains(l[k]));
                        let j = choose|j: int| 0 <= j < old_list.len() && old_list[j] == l[k];
                        assert(old_pools.delegations@.contains_key(old_pools.delegators_of(id)[j]));
                    } else {
                        assert(l == old_pools.delegators_of(id));
                        assert(old_pools.delegations@.contains_key(old_pools.delegators_of(id)[k]));
                        assert(old_pools.delegations@[old_pools.delegators_of(id)[k]].pool_id == id);
                    }
                }
                lemma_delegated_sum_frame(l, np.delegations@, old_pools.delegations@);
            }
            assert forall|id: u32, k: int| 0 <= k < np.delegators_of(id).len() implies {
                &&& np.delegations@.contains_key(#[trigger] np.delegators_of(id)[k])
                &&& np.delegations@[np.delegators_of(id)[k]].pool_id == id
            } by {
                let x = np.delegators_of(id)[k];
                if id == pool_id {
                    assert(np.delegators_of(id).contains(x));
                    assert(old_list.contains(x));
                    let j = choose|j: int| 0 <= j < old_list.len() && old_list[j] == x;
                    assert(old_pools.delegations@.contains_key(old_pools.delegators_of(id)[j]));
                } else {
                    assert(old_pools.delegations@[old_pools.delegators_of(id)[k]].pool_id == id);
                }
            }
            assert forall|a: AccountId| #[trigger] np.delegations@.contains_key(a) implies {
                &&& np.pools@.contains_key(np.delegations@[a].pool_id)
                &&& np.delegators_of(np.delegations@[a].pool_id).contains(a)
            } by {
                assert(old_pools.delegations@.contains_key(a));
            }
            assert forall|id: u32| !np.pools@.contains_key(id) implies #[trigger] np.delegators_of(id).len() == 0 by {
                assert(!old_pools.pools@.contains_key(id));
                assert(old_pools.delegators_of(id).len() == 0);
                assert(np.delegators_of(id) == old_pools.delegators_of(id));
            }
            assert forall|id: u32| #[trigger] np.pools@.contains_key(id) implies np.pools@[id].delegator_count == np.delegators_of(id).len() by {
                assert(old_pools.pools@.contains_key(id));
                assert(old_pools.pools@[id].delegator_count == old_pools.delegators_of(id).len());
            }
            assert forall|id: u32| #[trigger] np.delegators_of(id).no_duplicates() by {
                assert(old_pools.delegators_of(id).no_duplicates());
            }
        }
        Ok(())
    }

    /// The result `set_pool_commission` gives on the current state.
    pub open spec fn set_commission_result(&self, caller: AccountId, pool_id: u32, new_commission: u32) -> Result<(), Error> {
        if new_commission > self.config.max_pool_commission {
            Err(Error::CommissionTooHigh)
        } else if !self.pools.pools@.contains_key(pool_id) {
            Err(Error::PoolNotFound)
        } else if self.pools.pools@[pool_id].operator != caller {
            Err(Error::NotPoolOperator)
        } else {
            Ok(())
        }
    }

    /// The operator of pool `pool_id` changes its commission.
    pub fn set_pool_commission(&mut self, caller: AccountId, pool_id: u32, new_commission: u32) -> (r: Result<(), Error>)
        requires
            old(self).wf(),
        ensures
            final(self).wf(),
            r == old(self).set_commission_result(caller, pool_id, new_commission),
            (r is Err) ==> *final(self) == *old(self),
            (r is Ok) ==> {
                &&& final(self).pools.pools@ == old(self).pools.pools@.insert(
                    pool_id,
                    StakingPool { commission: new_commission, ..old(self).pools.pools@[pool_id] },
                )
                &&& final(self).pools.delegations == old(self).pools.delegations
                &&& final(self).pools.pool_delegators == old(self).pools.pool_delegators
                &&& final(self).pools.next_pool_id == old(self).pools.next_pool_id
                &&& final(self).staking.total_staked == old(self).staking.total_staked
                &&& final(self).events@ == old(self).events@.push(Event::PoolCommissionUpdated { pool_id, new_commission })
                &&& final(self).unchanged_but_pools(old(self))
            },
    {
        if new_commission > self.config.max_pool_commission {
            return Err(Error::CommissionTooHigh);
        }
        let pool = match self.pools.pools.get(&pool_id) {
            Some(p) => *p,
            None => {
                return Err(Error::PoolNotFound);
            },
        };
        if pool.operator != caller {
            return Err(Error::NotPoolOperator);
        }
        let ghost old_pools = self.pools;
        self.pools.pools.insert(pool_id, StakingPool { commission: new_commission, ..pool });
        self.events.push(Event::PoolCommissionUpdated { pool_id, new_commission });
        proof {
            assert forall|id: u32| !self.pools.pools@.contains_key(id) implies #[trigger] self.pools.delegators_of(id).len() == 0 by {
                assert(old_pools.delegators_of(id).len() == 0);
            }
            assert forall|id: u32| #[trigger] self.pools.pool_balanced(id) by {
                assert(old_pools.pool_balanced(id));
            }
        }
        Ok(())
    }

    /// The result `close_pool` gives on the current state.
    pub open spec fn close_pool_result(&self, caller: AccountId, pool_id: u32) -> Result<(), Error> {
        if !self.pools.pools@.contains_key(pool_id) {
            Err(Error::PoolNotFound)
        } else if self.pools.pools@[pool_id].operator != caller {
            Err(Error::NotPoolOperator)
        } else if self.pools.pools@[pool_id].delegator_count != 0 {
            Err(Error::PoolHasDelegators)
        } else {
            Ok(())
        }
    }

    /// The operator closes pool `pool_id`, which must have no delegators; the
    /// operator's stake leaves the total.
    pub fn close_pool(&mut self, caller: AccountId, pool_id: u32) -> (r: Result<(), Error>)
        requires
            old(self).wf(),
        ensures
            final(self).wf(),
            r == old(self).close_pool_result(caller, pool_id),
            (r is Err) ==> *final(self) == *old(self),
            (r is Ok) ==> {
                &&& final(self).pools.pools@ == old(self).pools.pools@.remove(pool_id)
                &&& final(self).pools.delegations == old(self).pools.delegations
                &&& final(self).pools.pool_delegators == old(self).pools.pool_delegators
                &&& final(self).pools.next_pool_id == old(self).pools.next_pool_id
                &&& final(self).staking.total_staked == sat_sub(
                    old(self).staking.total_staked,
                    old(self).pools.pools@[pool_id].operator_stake,
                )
                &&& final(self).events@ == old(self).events@.push(Event::PoolClosed { pool_id, operator: caller })
                &&& final(self).unchanged_but_pools(old(self))
            },
    {
        let pool = match self.pools.pools.get(&pool_id) {
            Some(p) => *p,
            None => {
                return Err(Error::PoolNotFound);
            },
        };
        if pool.operator != caller {
            return Err(Error::NotPoolOperator);
        }
        if pool.delegator_count != 0 {
            return Err(Error::PoolHasDelegators);
        }
        let ghost old_pools = self.pools;
        self.staking.total_staked = self.staking.total_staked.saturating_sub(pool.operator_stake);
        self.pools.pools.remove(&pool_id);
        self.events.push(Event::PoolClosed { pool_id, operator: caller });
        proof {
            assert forall|id: u32| #[trigger] self.pools.pool_balanced(id) by {
                assert(old_pools.pool_balanced(id));
            }
            assert forall|id: u32| !self.pools.pools@.contains_key(id) implies #[trigger] self.pools.delegators_of(id).len() == 0 by {
                if id == pool_id {
                    assert(old_pools.pools@[id].delegator_count == old_pools.delegators_of(id).len());
                } else {
                    assert(old_pools.delegators_of(id).len() == 0);
                }
            }
            assert forall|a: AccountId| #[trigger] self.pools.delegations@.contains_key(a) implies {
                &&& self.pools.pools@.contains_key(self.pools.delegations@[a].pool_id)
                &&& self.pools.delegators_of(self.pools.delegations@[a].pool_id).contains(a)
            } by {
                let pid = old_pools.delegations@[a].pool_id;
                assert(old_pools.delegators_of(pid).contains(a));
                if pid == pool_id {
                    assert(old_pools.delegators_of(pool_id).len() == 0);
                }
            }
        }
        Ok(())
    }
}

/// A delegated sum is never negative.
pub proof fn lemma_delegated_sum_nonneg(list: Seq<AccountId>, d: Map<AccountId, DelegationInfo>)
    ensures
        delegated_sum(list, d) >= 0,
    decreases list.len(),
{
    if list.len() > 0 {
        lemma_delegated_sum_nonneg(list.drop_last(), d);
    }
}

/// Taking a member out of a list without repeats makes it one shorter.
pub proof fn lemma_without_len(list: Seq<AccountId>, x: AccountId)
    requires
        list.no_duplicates(),
        list.contains(x),
    ensures
        without(list, x).len() == list.len() - 1,
    decreases list.len(),
{
    let init = list.drop_last();
    assert(init.no_duplicates()) by {
        assert forall|i: int, j: int| 0 <= i < init.len() && 0 <= j < init.len() && i != j implies init[i] != init[j] by {
            assert(init[i] == list[i] && init[j] == list[j]);
        }
    }
    lemma_without_props(init, x);
    if list.last() == x {
        assert(!init.contains(x)) by {
            if init.contains(x) {
                let k = choose|k: int| 0 <= k < init.len() && init[k] == x;
                assert(list[k] == list[list.len() - 1]);
            }
        }
    } else {
        let k = choose|k: int| 0 <= k < list.len() && list[k] == x;
        assert(k < list.len() - 1);
        assert(init[k] == x);
        lemma_without_len(init, x);
    }
}

/// In every reachable state each pool's total stake is its operator's stake
/// plus the delegations of its delegators.
pub proof fn lemma_pool_total(p: &Pallet, id: u32)
    requires
        p.wf(),
        p.pools.pools@.contains_key(id),
    ensures
        p.pools.pools@[id].total_stake == p.pools.pools@[id].operator_stake
            + delegated_sum(p.pools.delegators_of(id), p.pools.delegations@),
        p.pools.pools@[id].delegator_count == p.pools.delegators_of(id).len(),
{
    assert(p.pools.pool_balanced(id));
}

} // verus!
