//! Eras: when one is due, the stakers with the most stake become its verifiers.
//! Ties are broken by the accounts' 8-byte little-endian encodings, compared
//! byte by byte, so the choice is fully determined by the stakes.
use vstd::prelude::*;
use crate::pallet::Pallet;
use crate::staking::copy_vec;
use crate::types::{AccountId, Error, Event, StakeInfo};

verus! {

broadcast use vstd::std_specs::hash::group_hash_axioms;

/// Byte `i` of the little-endian encoding of `a`.
pub open spec fn le_byte(a: AccountId, i: int) -> u8 {
    ((a >> ((8 * i) as u64)) & 0xff) as u8
}

/// Whether the encoding of `a` comes before that of `b`, byte by byte.
pub open spec fn encoded_lt(a: AccountId, b: AccountId) -> bool {
    exists|i: int| 0 <= i < 8 && le_byte(a, i) < le_byte(b, i)
        && forall|j: int| 0 <= j < i ==> #[trigger] le_byte(a, j) == le_byte(b, j)
}

/// Whether candidate `x` ranks before candidate `y`: more stake first, then
/// the smaller encoding.
pub open spec fn ranks_before(x: (AccountId, u128), y: (AccountId, u128)) -> bool {
    x.1 > y.1 || (x.1 == y.1 && encoded_lt(x.0, y.0))
}

/// `x` placed into `s` before the first entry it ranks before.
pub open spec fn insert_ranked(s: Seq<(AccountId, u128)>, x: (AccountId, u128)) -> Seq<(AccountId, u128)>
    decreases s.len(),
{
    if s.len() == 0 {
        seq![x]
    } else if ranks_before(x, s[0]) {
        seq![x] + s
    } else {
        seq![s[0]] + insert_ranked(s.drop_first(), x)
    }
}

/// The candidates in rank order (insertion sort: among equal ranks, the
/// earlier candidate stays first).
pub open spec fn rank(s: Seq<(AccountId, u128)>) -> Seq<(AccountId, u128)>
    decreases s.len(),
{
    if s.len() == 0 {
        s
    } else {
        insert_ranked(rank(s.drop_last()), s.last())
    }
}

/// The stakers of `list`, with their stake, that have a stake above zero.
pub open spec fn candidates(list: Seq<AccountId>, stakes: Map<AccountId, StakeInfo>) -> Seq<(AccountId, u128)>
    decreases list.len(),
{
    if list.len() == 0 {
        Seq::empty()
    } else if stakes.contains_key(list.last()) && stakes[list.last()].amount > 0 {
        candidates(list.drop_last(), stakes).push((list.last(), stakes[list.last()].amount))
    } else {
        candidates(list.drop_last(), stakes)
    }
}

/// The accounts of a list of candidates.
pub open spec fn accounts(s: Seq<(AccountId, u128)>) -> Seq<AccountId> {
    s.map_values(|c: (AccountId, u128)| c.0)
}

/// The verifiers chosen from `list`: the first `max` candidates in rank order.
pub open spec fn selection(list: Seq<AccountId>, stakes: Map<AccountId, StakeInfo>, max: nat) -> Seq<AccountId> {
    let ranked = rank(candidates(list, stakes));
    accounts(ranked.take(if max < ranked.len() { max as int } else { ranked.len() as int }))
}

/// The ranked candidates that were not chosen.
pub open spec fn passed_over(list: Seq<AccountId>, stakes: Map<AccountId, StakeInfo>, max: nat) -> Seq<AccountId> {
    let ranked = rank(candidates(list, stakes));
    accounts(ranked.skip(if max < ranked.len() { max as int } else { ranked.len() as int }))
}

/// What choosing `sel` in era `era` reports.
pub open spec fn selection_events(era: u32, sel: Seq<AccountId>) -> Seq<Event> {
    Seq::new(sel.len(), |i: int| Event::VerifierSelected { era, verifier: sel[i] })
}

/// Candidates ordered by stake, largest first.
pub open spec fn stake_descending(s: Seq<(AccountId, u128)>) -> bool {
    forall|i: int, j: int| 0 <= i < j < s.len() ==> #[trigger] s[i].1 >= #[trigger] s[j].1
}

proof fn lemma_insert_ranked_sorted(s: Seq<(AccountId, u128)>, x: (AccountId, u128))
    requires
        stake_descending(s),
    ensures
        stake_descending(insert_ranked(s, x)),
        insert_ranked(s, x).len() == s.len() + 1,
        forall|k: int| 0 <= k < insert_ranked(s, x).len() ==> (#[trigger] insert_ranked(s, x)[k] == x
            || s.contains(insert_ranked(s, x)[k])),
    decreases s.len(),
{
    let r = insert_ranked(s, x);
    if s.len() == 0 {
    } else if ranks_before(x, s[0]) {
        assert forall|i: int, j: int| 0 <= i < j < r.len() implies #[trigger] r[i].1 >= #[trigger] r[j].1 by {
            if i == 0 {
                assert(r[j] == s[j - 1]);
                assert(s[0].1 >= s[j - 1].1);
            } else {
                assert(r[i] == s[i - 1] && r[j] == s[j - 1]);
            }
        }
        assert forall|k: int| 0 <= k < r.len() implies (#[trigger] r[k] == x || s.contains(r[k])) by {
            if k > 0 {
                assert(r[k] == s[k - 1]);
            }
        }
    } else {
        let t = s.drop_first();
        assert(stake_descending(t)) by {
            assert forall|i: int, j: int| 0 <= i < j < t.len() implies #[trigger] t[i].1 >= #[trigger] t[j].1 by {
                assert(t[i] == s[i + 1] && t[j] == s[j + 1]);
            }
        }
        lemma_insert_ranked_sorted(t, x);
        let rt = insert_ranked(t, x);
        assert(r == seq![s[0]] + rt);
        assert(x.1 <= s[0].1);
        assert forall|k: int| 0 <= k < rt.len() implies s[0].1 >= #[trigger] rt[k].1 by {
            if rt[k] != x {
                assert(t.contains(rt[k]));
                let m = choose|m: int| 0 <= m < t.len() && t[m] == rt[k];
                assert(s[0].1 >= s[m + 1].1);
            }
        }
        assert forall|i: int, j: int| 0 <= i < j < r.len() implies #[trigger] r[i].1 >= #[trigger] r[j].1 by {
            if i == 0 {
                assert(r[j] == rt[j - 1]);
            } else {
                assert(r[i] == rt[i - 1] && r[j] == rt[j - 1]);
            }
        }
        assert forall|k: int| 0 <= k < r.len() implies (#[trigger] r[k] == x || s.contains(r[k])) by {
            if k == 0 {
                assert(s[0] == r[0]);
            } else {
                assert(r[k] == rt[k - 1]);
                if rt[k - 1] != x {
                    assert(t.contains(rt[k - 1]));
                    let m = choose|m: int| 0 <= m < t.len() && t[m] == rt[k - 1];
                    assert(s[m + 1] == r[k]);
                }
            }
        }
    }
}

/// Ranking orders the candidates by stake, largest first, and keeps their number.
pub proof fn lemma_rank_stake_descending(s: Seq<(AccountId, u128)>)
    ensures
        stake_descending(rank(s)),
        rank(s).len() == s.len(),
    decreases s.len(),
{
    if s.len() > 0 {
        lemma_rank_stake_descending(s.drop_last());
        lemma_insert_ranked_sorted(rank(s.drop_last()), s.last());
    }
}

/// Every verifier chosen in a rotation has at least the stake of every
/// candidate that was passed over.
pub proof fn lemma_selection_highest_stakes(list: Seq<AccountId>, stakes: Map<AccountId, StakeInfo>, max: nat)
    ensures
        ({
            let ranked = rank(candidates(list, stakes));
            let cut = if max < ranked.len() { max as int } else { ranked.len() as int };
            forall|i: int, j: int| 0 <= i < cut <= j < ranked.len() ==> #[trigger] ranked[i].1 >= #[trigger] ranked[j].1
        }),
{
    lemma_rank_stake_descending(candidates(list, stakes));
}

/// Whether the encoding of `a` comes before that of `b`, byte by byte.
pub fn encoded_less(a: AccountId, b: AccountId) -> (r: bool)
    ensures
        r == encoded_lt(a, b),
{
    let mut i: u64 = 0;
    while i < 8
        invariant
            0 <= i <= 8,
            forall|j: int| 0 <= j < i ==> #[trigger] le_byte(a, j) == le_byte(b, j),
        decreases 8 - i,
    {
        let x = ((a >> (8 * i)) & 0xff) as u8;
        let y = ((b >> (8 * i)) & 0xff) as u8;
        proof {
            assert(x == le_byte(a, i as int));
            assert(y == le_byte(b, i as int));
        }
        if x != y {
            proof {
                if x > y {
                    assert forall|k: int| 0 <= k < 8 && le_byte(a, k) < le_byte(b, k) implies !(forall|j: int| 0 <= j < k ==> #[trigger] le_byte(a, j) == le_byte(b, j)) by {
                        if k < i {
                        } else if k > i {
                            assert(le_byte(a, i as int) != le_byte(b, i as int));
                        }
                    }
                }
            }
            return x < y;
        }
        i = i + 1;
    }
    false
}

/// Whether candidate `x` ranks before candidate `y`.
pub fn ranks_first(x: (AccountId, u128), y: (AccountId, u128)) -> (r: bool)
    ensures
        r == ranks_before(x, y),
{
    x.1 > y.1 || (x.1 == y.1 && encoded_less(x.0, y.0))
}

/// Placing `x` at the first entry it ranks before is `insert_ranked`.
proof fn lemma_insert_ranked(s: Seq<(AccountId, u128)>, x: (AccountId, u128), p: int)
    requires
        0 <= p <= s.len(),
        forall|k: int| 0 <= k < p ==> !ranks_before(x, #[trigger] s[k]),
        p < s.len() ==> ranks_before(x, s[p]),
    ensures
        insert_ranked(s, x) == s.insert(p, x),
    decreases s.len(),
{
    if s.len() == 0 {
        assert(s.insert(p, x) =~= seq![x]);
    } else if p == 0 {
        assert(s.insert(0, x) =~= seq![x] + s);
    } else {
        let t = s.drop_first();
        assert(!ranks_before(x, s[0]));
        assert forall|k: int| 0 <= k < p - 1 implies !ranks_before(x, #[trigger] t[k]) by {
            assert(t[k] == s[k + 1]);
        }
        if p - 1 < t.len() {
            assert(t[p - 1] == s[p]);
        }
        lemma_insert_ranked(t, x, p - 1);
        assert(seq![s[0]] + t.insert(p - 1, x) =~= s.insert(p, x));
    }
}

/// The candidates in rank order.
pub fn rank_candidates(c: &Vec<(AccountId, u128)>) -> (r: Vec<(AccountId, u128)>)
    ensures
        r@ == rank(c@),
{
    let mut out: Vec<(AccountId, u128)> = Vec::new();
    let mut i: usize = 0;
    while i < c.len()
        invariant
            0 <= i <= c@.len(),
            out@ == rank(c@.take(i as int)),
        decreases c@.len() - i,
    {
        let x = c[i];
        let mut p: usize = 0;
        while p < out.len() && !ranks_first(x, out[p])
            invariant
                0 <= p <= out@.len(),
                forall|k: int| 0 <= k < p ==> !ranks_before(x, #[trigger] out@[k]),
            decreases out@.len() - p,
        {
            p = p + 1;
        }
        proof {
            lemma_insert_ranked(out@, x, p as int);
            assert(c@.take(i + 1).drop_last() =~= c@.take(i as int));
        }
        out.insert(p, x);
        i = i + 1;
    }
    proof {
        assert(c@.take(c@.len() as int) =~= c@);
    }
    out
}

impl Pallet {
    /// The stakers of the staker list that have a stake above zero, with that stake.
    fn collect_candidates(&self) -> (r: Vec<(AccountId, u128)>)
        ensures
            r@ == candidates(self.staking.staker_list@, self.staking.stakes@),
    {
        let list = &self.staking.staker_list;
        let mut out: Vec<(AccountId, u128)> = Vec::new();
        let mut i: usize = 0;
        while i < list.len()
            invariant
                0 <= i <= list@.len(),
                list@ == self.staking.staker_list@,
                out@ == candidates(list@.take(i as int), self.staking.stakes@),
            decreases list@.len() - i,
        {
            let a = list[i];
            proof {
                assert(list@.take(i + 1).drop_last() =~= list@.take(i as int));
            }
            match self.staking.stakes.get(&a) {
                Some(info) => {
                    if info.amount > 0 {
                        out.push((a, info.amount));
                    }
                },
                None => {},
            }
            i = i + 1;
        }
        proof {
            assert(list@.take(list@.len() as int) =~= list@);
        }
        out
    }

    /// Sets the verifier flag of the staker `a`, if `a` stakes.
    fn set_verifier_flag(&mut self, a: AccountId, flag: bool)
        ensures
            final(self).staking.stakes@ == (if old(self).staking.stakes@.contains_key(a) {
                old(self).staking.stakes@.insert(a, StakeInfo { is_verifier: flag, ..old(self).staking.stakes@[a] })
            } else {
                old(self).staking.stakes@
            }),
            final(self).staking.staker_list == old(self).staking.staker_list,
            final(self).staking.total_staked == old(self).staking.total_staked,
            final(self).staking.unbonding_requests == old(self).staking.unbonding_requests,
            final(self).staking.slash_records == old(self).staking.slash_records,
            final(self).staking.total_slashed == old(self).staking.total_slashed,
            final(self).staking.current_era == old(self).staking.current_era,
            final(self).staking.last_era_block == old(self).staking.last_era_block,
            final(self).staking.era_verifiers == old(self).staking.era_verifiers,
            final(self).events == old(self).events,
            final(self).unchanged_but_staking(old(self)),
    {
        match self.staking.stakes.get(&a) {
            Some(info) => {
                let updated = StakeInfo { is_verifier: flag, ..*info };
                self.staking.stakes.insert(a, updated);
            },
            None => {},
        }
    }

    /// The verifiers of the current era.
    pub fn get_current_verifiers(&self) -> (r: Vec<AccountId>)
        ensures
            r@ == (if self.staking.era_verifiers@.contains_key(self.staking.current_era) {
                self.staking.era_verifiers@[self.staking.current_era]@
            } else {
                Seq::<AccountId>::empty()
            }),
    {
        match self.staking.era_verifiers.get(&self.staking.current_era) {
            Some(v) => copy_vec(v),
            None => Vec::new(),
        }
    }

    /// Whether `a` is a verifier of the current era.
    pub fn is_current_verifier(&self, a: AccountId) -> (r: bool)
        ensures
            r == (self.staking.era_verifiers@.contains_key(self.staking.current_era)
                && self.staking.era_verifiers@[self.staking.current_era]@.contains(a)),
    {
        match self.staking.era_verifiers.get(&self.staking.current_era) {
            Some(v) => crate::lists::contains_account(v, a),
            None => false,
        }
    }

    /// The current era.
    pub fn current_era(&self) -> (r: u32)
        ensures
            r == self.staking.current_era,
    {
        self.staking.current_era
    }

    /// The height at which the last era started.
    pub fn last_era_block(&self) -> (r: u64)
        ensures
            r == self.staking.last_era_block,
    {
        self.staking.last_era_block
    }

    /// Whether an era rotation is due at the current height.
    pub open spec fn rotation_due(&self) -> bool {
        let start = self.staking.last_era_block + self.config.blocks_per_era;
        self.block_number >= (if start > u64::MAX { u64::MAX as int } else { start })
    }

    /// Starts the next era when one is due, and chooses its verifiers: the
    /// `verifiers_per_era` stakers ranking first. Chosen stakers are flagged as
    /// verifiers, the other candidates are not. Anyone may call it.
    pub fn rotate_era(&mut self, caller: AccountId) -> (r: Result<(), Error>)
        requires
            old(self).wf(),
        ensures
            final(self).wf(),
            r == (if old(self).rotation_due() { Ok(()) } else { Err(Error::EraRotationNotDue) }),
            (r is Err) ==> *final(self) == *old(self),
            (r is Ok) ==> {
                let era = if old(self).staking.current_era == u32::MAX { u32::MAX } else { (old(self).staking.current_era + 1) as u32 };
                let max = old(self).config.verifiers_per_era as nat;
                let sel = selection(old(self).staking.staker_list@, old(self).staking.stakes@, max);
                let rest = passed_over(old(self).staking.staker_list@, old(self).staking.stakes@, max);
                &&& final(self).staking.current_era == era
                &&& final(self).staking.last_era_block == old(self).block_number
                &&& final(self).staking.era_verifiers@.contains_key(era)
                &&& final(self).staking.era_verifiers@[era]@ == sel
                &&& final(self).staking.era_verifiers@.remove(era) == old(self).staking.era_verifiers@.remove(era)
                &&& final(self).staking.stakes@.dom() == old(self).staking.stakes@.dom()
                &&& forall|a: AccountId| #[trigger] final(self).staking.stakes@.contains_key(a) ==> final(self).staking.stakes@[a] == (StakeInfo {
                    is_verifier: if rest.contains(a) { false } else if sel.contains(a) { true } else { old(self).staking.stakes@[a].is_verifier },
                    ..old(self).staking.stakes@[a]
                })
                &&& final(self).staking.staker_list == old(self).staking.staker_list
                &&& final(self).staking.total_staked == old(self).staking.total_staked
                &&& final(self).staking.unbonding_requests == old(self).staking.unbonding_requests
                &&& final(self).staking.slash_records == old(self).staking.slash_records
                &&& final(self).staking.total_slashed == old(self).staking.total_slashed
                &&& final(self).events@ == old(self).events@ + selection_events(era, sel)
                    + seq![Event::EraRotated { era, verifier_count: sel.len() as u32 }]
                &&& final(self).unchanged_but_staking(old(self))
            },
    {
        let now = self.block_number;
        if now < self.staking.last_era_block.saturating_add(self.config.blocks_per_era) {
            return Err(Error::EraRotationNotDue);
        }
        let era = self.staking.current_era.saturating_add(1);
        let ghost old_stakes = self.staking.stakes@;
        let ghost list = self.staking.staker_list@;
        let ranked = rank_candidates(&self.collect_candidates());
        let max = self.config.verifiers_per_era as usize;
        let cut = if max < ranked.len() { max } else { ranked.len() };
        let ghost sel = selection(list, old_stakes, self.config.verifiers_per_era as nat);
        let ghost rest = passed_over(list, old_stakes, self.config.verifiers_per_era as nat);
        let mut selected: Vec<AccountId> = Vec::new();
        let mut i: usize = 0;
        while i < cut
            invariant
                0 <= cut <= ranked@.len(),
                0 <= i <= cut,
                ranked@ == rank(candidates(list, old_stakes)),
                sel == accounts(ranked@.take(cut as int)),
                rest == accounts(ranked@.skip(cut as int)),
                selected@ == sel.take(i as int),
                self.staking.stakes@.dom() == old_stakes.dom(),
                forall|a: AccountId| #[trigger] self.staking.stakes@.contains_key(a) ==> self.staking.stakes@[a] == (StakeInfo {
                    is_verifier: if sel.take(i as int).contains(a) { true } else { old_stakes[a].is_verifier },
                    ..old_stakes[a]
                }),
                self.events@ == old(self).events@ + selection_events(era, sel.take(i as int)),
                self.staking.staker_list == old(self).staking.staker_list,
                self.staking.total_staked == old(self).staking.total_staked,
                self.staking.unbonding_requests == old(self).staking.unbonding_requests,
                self.staking.slash_records == old(self).staking.slash_records,
                self.staking.total_slashed == old(self).staking.total_slashed,
                self.staking.current_era == old(self).staking.current_era,
                self.staking.last_era_block == old(self).staking.last_era_block,
                self.staking.era_verifiers == old(self).staking.era_verifiers,
                self.unchanged_but_staking(old(self)),
                self.block_number == now,
            decreases cut - i,
        {
            let a = ranked[i].0;
            proof {
                assert(sel[i as int] == a);
                assert(sel.take(i + 1) =~= sel.take(i as int).push(a));
                assert forall|x: AccountId| sel.take(i + 1).contains(x) <==> (sel.take(i as int).contains(x) || x == a) by {
                    if sel.take(i + 1).contains(x) {
                        let k = choose|k: int| 0 <= k < i + 1 && #[trigger] sel.take(i + 1)[k] == x;
                        if k < i {
                            assert(sel.take(i as int)[k] == x);
                        }
                    }
                    if sel.take(i as int).contains(x) {
                        let k = choose|k: int| 0 <= k < i && #[trigger] sel.take(i as int)[k] == x;
                        assert(sel.take(i + 1)[k] == x);
                    }
                    if x == a {
                        assert(sel.take(i + 1)[i as int] == a);
                    }
                }
            }
            self.set_verifier_flag(a, true);
            selected.push(a);
            self.events.push(Event::VerifierSelected { era, verifier: a });
            proof {
                assert(selection_events(era, sel.take(i + 1)) =~= selection_events(era, sel.take(i as int)).push(
                    Event::VerifierSelected { era, verifier: a },
                ));
                assert(self.events@ =~= old(self).events@ + selection_events(era, sel.take(i + 1)));
            }
            i = i + 1;
        }
        proof {
            assert(sel.take(cut as int) =~= sel);
        }
        let mut j: usize = cut;
        while j < ranked.len()
            invariant
                0 <= cut <= j <= ranked@.len(),
                ranked@ == rank(candidates(list, old_stakes)),
                sel == accounts(ranked@.take(cut as int)),
                rest == accounts(ranked@.skip(cut as int)),
                self.staking.stakes@.dom() == old_stakes.dom(),
                forall|a: AccountId| #[trigger] self.staking.stakes@.contains_key(a) ==> self.staking.stakes@[a] == (StakeInfo {
                    is_verifier: if rest.take(j - cut).contains(a) { false } else if sel.contains(a) { true } else { old_stakes[a].is_verifier },
                    ..old_stakes[a]
                }),
                self.events@ == old(self).events@ + selection_events(era, sel),
                self.staking.staker_list == old(self).staking.staker_list,
                self.staking.total_staked == old(self).staking.total_staked,
                self.staking.unbonding_requests == old(self).staking.unbonding_requests,
                self.staking.slash_records == old(self).staking.slash_records,
                self.staking.total_slashed == old(self).staking.total_slashed,
                self.staking.current_era == old(self).staking.current_era,
                self.staking.last_era_block == old(self).staking.last_era_block,
                self.staking.era_verifiers == old(self).staking.era_verifiers,
                self.unchanged_but_staking(old(self)),
                self.block_number == now,
            decreases ranked@.len() - j,
        {
            let a = ranked[j].0;
            proof {
                let k = j - cut;
                assert(rest[k] == a);
                assert forall|x: AccountId| rest.take(k + 1).contains(x) <==> (rest.take(k).contains(x) || x == a) by {
                    if rest.take(k + 1).contains(x) {
                        let m = choose|m: int| 0 <= m < k + 1 && #[trigger] rest.take(k + 1)[m] == x;
                        if m < k {
                            assert(rest.take(k)[m] == x);
                        }
                    }
                    if rest.take(k).contains(x) {
                        let m = choose|m: int| 0 <= m < k && #[trigger] rest.take(k)[m] == x;
                        assert(rest.take(k + 1)[m] == x);
                    }
                    if x == a {
                        assert(rest.take(k + 1)[k] == a);
                    }
                }
            }
            self.set_verifier_flag(a, false);
            j = j + 1;
        }
        proof {
            assert(rest.take(ranked@.len() - cut) =~= rest);
        }
        proof {
            assert(selected@.len() == cut);
        }
        let count = selected.len() as u32;
        self.staking.era_verifiers.insert(era, selected);
        self.staking.current_era = era;
        self.staking.last_era_block = now;
        self.events.push(Event::EraRotated { era, verifier_count: count });
        proof {
            assert(self.staking.era_verifiers@.remove(era) =~= old(self).staking.era_verifiers@.remove(era));
        }
        Ok(())
    }
}

} // verus!
