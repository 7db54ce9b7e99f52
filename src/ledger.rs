//! The batch list of one account: ordered by expiry, spent oldest-expiry first,
//! and swept of expired batches before each use.
use vstd::prelude::*;
use crate::types::{BlockNumber, PointBatch};

verus! {

/// Sum of what is left in every batch.
pub open spec fn sum_remaining(s: Seq<PointBatch>) -> int
    decreases s.len(),
{
    if s.len() == 0 {
        0
    } else {
        sum_remaining(s.drop_last()) + s.last().remaining_points
    }
}

/// A batch that can still be spent at height `now`.
pub open spec fn is_live(b: PointBatch, now: BlockNumber) -> bool {
    b.expires_at_block > now
}

/// The batches that can still be spent at height `now`, in their order.
pub open spec fn live_batches(s: Seq<PointBatch>, now: BlockNumber) -> Seq<PointBatch>
    decreases s.len(),
{
    if s.len() == 0 {
        s
    } else if is_live(s.last(), now) {
        live_batches(s.drop_last(), now).push(s.last())
    } else {
        live_batches(s.drop_last(), now)
    }
}

/// Points that can be spent at height `now`.
pub open spec fn available(s: Seq<PointBatch>, now: BlockNumber) -> int {
    sum_remaining(live_batches(s, now))
}

/// Points in batches that have expired at height `now`.
pub open spec fn expired_sum(s: Seq<PointBatch>, now: BlockNumber) -> int
    decreases s.len(),
{
    if s.len() == 0 {
        0
    } else if is_live(s.last(), now) {
        expired_sum(s.drop_last(), now)
    } else {
        expired_sum(s.drop_last(), now) + s.last().remaining_points
    }
}

/// Batches ordered by expiry, each holding points.
pub open spec fn batches_wf(s: Seq<PointBatch>) -> bool {
    &&& forall|i: int, j: int|
        0 <= i < j < s.len() ==> #[trigger] s[i].expires_at_block <= #[trigger] s[j].expires_at_block
    &&& forall|i: int| 0 <= i < s.len() ==> #[trigger] s[i].remaining_points > 0
}

/// `b` with `amount` taken out of it.
pub open spec fn deducted(b: PointBatch, amount: int) -> PointBatch {
    PointBatch { remaining_points: (b.remaining_points - amount) as u128, ..b }
}

/// The batches left after spending `amount`, oldest expiry first: each batch is
/// used up before the next is touched.
pub open spec fn spend_fifo(s: Seq<PointBatch>, amount: int) -> Seq<PointBatch>
    decreases s.len(),
{
    if amount <= 0 || s.len() == 0 {
        s
    } else if s[0].remaining_points <= amount {
        spend_fifo(s.drop_first(), amount - s[0].remaining_points)
    } else {
        s.update(0, deducted(s[0], amount))
    }
}

/// Where a new batch goes: after every batch that expires no later than it.
pub open spec fn insert_position_ok(s: Seq<PointBatch>, p: int, b: PointBatch) -> bool {
    &&& 0 <= p <= s.len()
    &&& forall|j: int| 0 <= j < p ==> #[trigger] s[j].expires_at_block <= b.expires_at_block
    &&& forall|j: int| p <= j < s.len() ==> #[trigger] s[j].expires_at_block > b.expires_at_block
}

pub proof fn lemma_sum_nonneg(s: Seq<PointBatch>)
    ensures
        sum_remaining(s) >= 0,
    decreases s.len(),
{
    if s.len() > 0 {
        lemma_sum_nonneg(s.drop_last());
    }
}

/// The sum splits over a concatenation.
pub proof fn lemma_sum_concat(a: Seq<PointBatch>, c: Seq<PointBatch>)
    ensures
        sum_remaining(a + c) == sum_remaining(a) + sum_remaining(c),
    decreases c.len(),
{
    if c.len() == 0 {
        assert(a + c =~= a);
    } else {
        lemma_sum_concat(a, c.drop_last());
        assert((a + c).drop_last() =~= a + c.drop_last());
    }
}

/// The sum, taken from the front.
pub proof fn lemma_sum_front(s: Seq<PointBatch>)
    requires
        s.len() > 0,
    ensures
        sum_remaining(s) == s[0].remaining_points + sum_remaining(s.drop_first()),
{
    lemma_sum_concat(seq![s[0]], s.drop_first());
    assert(seq![s[0]] + s.drop_first() =~= s);
    assert(seq![s[0]].drop_last() =~= Seq::<PointBatch>::empty());
    assert(sum_remaining(Seq::<PointBatch>::empty()) == 0);
    assert(sum_remaining(seq![s[0]]) == s[0].remaining_points);
}

/// A prefix holds no more than the whole.
pub proof fn lemma_sum_prefix(s: Seq<PointBatch>, i: int)
    requires
        0 <= i <= s.len(),
    ensures
        0 <= sum_remaining(s.take(i)) <= sum_remaining(s),
{
    lemma_sum_concat(s.take(i), s.skip(i));
    assert(s.take(i) + s.skip(i) =~= s);
    lemma_sum_nonneg(s.take(i));
    lemma_sum_nonneg(s.skip(i));
}

/// Live points and expired points make up the whole.
pub proof fn lemma_live_plus_expired(s: Seq<PointBatch>, now: BlockNumber)
    ensures
        sum_remaining(s) == available(s, now) + expired_sum(s, now),
        expired_sum(s, now) >= 0,
        available(s, now) >= 0,
    decreases s.len(),
{
    if s.len() > 0 {
        lemma_live_plus_expired(s.drop_last(), now);
        if is_live(s.last(), now) {
            assert(live_batches(s, now).drop_last() =~= live_batches(s.drop_last(), now));
        }
    }
    lemma_sum_nonneg(live_batches(s, now));
}

/// The live batches are a subsequence: each is live, and order and well-formedness are kept.
pub proof fn lemma_live_batches_props(s: Seq<PointBatch>, now: BlockNumber)
    ensures
        forall|i: int| 0 <= i < live_batches(s, now).len() ==> is_live(#[trigger] live_batches(s, now)[i], now),
        live_batches(s, now).len() <= s.len(),
        batches_wf(s) ==> batches_wf(live_batches(s, now)),
        batches_wf(s) && s.len() > 0 ==> forall|i: int| 0 <= i < live_batches(s, now).len() ==>
            #[trigger] live_batches(s, now)[i].expires_at_block <= s.last().expires_at_block,
    decreases s.len(),
{
    if s.len() > 0 {
        lemma_live_batches_props(s.drop_last(), now);
        let l = live_batches(s.drop_last(), now);
        if batches_wf(s) {
            assert(batches_wf(s.drop_last()));
            if s.len() > 1 {
                assert(forall|i: int| 0 <= i < l.len() ==> #[trigger] l[i].expires_at_block <= s.last().expires_at_block) by {
                    assert forall|i: int| 0 <= i < l.len() implies #[trigger] l[i].expires_at_block <= s.last().expires_at_block by {
                        assert(s.drop_last().last() == s[s.len() - 2]);
                        assert(s[s.len() - 2].expires_at_block <= s[s.len() - 1].expires_at_block);
                    }
                }
            } else {
                assert(s.drop_last().len() == 0);
            }
        }
    }
}

/// Every live batch at `now` stays live at any earlier height, and a batch
/// that is expired at `now` is expired at every later height.
pub proof fn lemma_live_batches_of_live(s: Seq<PointBatch>, now: BlockNumber)
    requires
        forall|i: int| 0 <= i < s.len() ==> is_live(#[trigger] s[i], now),
    ensures
        live_batches(s, now) == s,
    decreases s.len(),
{
    if s.len() > 0 {
        lemma_live_batches_of_live(s.drop_last(), now);
        assert(s.drop_last().push(s.last()) =~= s);
    }
}

/// Sweeping at `now` and then asking at a later height gives what asking
/// directly gives: the swept batches could not have been spent later.
pub proof fn lemma_sweep_then_later(s: Seq<PointBatch>, now: BlockNumber, later: BlockNumber)
    requires
        now <= later,
    ensures
        live_batches(live_batches(s, now), later) == live_batches(s, later),
    decreases s.len(),
{
    if s.len() > 0 {
        lemma_sweep_then_later(s.drop_last(), now, later);
        if is_live(s.last(), now) {
            let l = live_batches(s.drop_last(), now);
            assert(live_batches(s, now).drop_last() =~= l);
        }
    }
}

/// Spending keeps the batches well formed and takes exactly `amount` points.
pub proof fn lemma_spend_fifo(s: Seq<PointBatch>, amount: int)
    requires
        batches_wf(s),
        0 <= amount <= sum_remaining(s),
    ensures
        batches_wf(spend_fifo(s, amount)),
        sum_remaining(spend_fifo(s, amount)) == sum_remaining(s) - amount,
        spend_fifo(s, amount).len() <= s.len(),
        s.len() > 0 ==> forall|i: int| 0 <= i < spend_fifo(s, amount).len() ==>
            (#[trigger] spend_fifo(s, amount)[i]).expires_at_block >= s[0].expires_at_block,
    decreases s.len(),
{
    if amount <= 0 || s.len() == 0 {
    } else {
        lemma_sum_front(s);
        if s[0].remaining_points <= amount {
            let t = s.drop_first();
            assert(batches_wf(t)) by {
                assert forall|i: int, j: int| 0 <= i < j < t.len() implies #[trigger] t[i].expires_at_block <= #[trigger] t[j].expires_at_block by {
                    assert(t[i] == s[i + 1] && t[j] == s[j + 1]);
                }
                assert forall|i: int| 0 <= i < t.len() implies #[trigger] t[i].remaining_points > 0 by {
                    assert(t[i] == s[i + 1]);
                }
            }
            lemma_spend_fifo(t, amount - s[0].remaining_points);
            if t.len() > 0 {
                assert(s[0].expires_at_block <= s[1].expires_at_block);
            }
        } else {
            let r = s.update(0, deducted(s[0], amount));
            lemma_sum_front(r);
            assert(r.drop_first() =~= s.drop_first());
            assert forall|i: int| 0 <= i < r.len() implies (#[trigger] r[i]).expires_at_block >= s[0].expires_at_block by {
                if i > 0 {
                    assert(s[0].expires_at_block <= s[i].expires_at_block);
                }
            }
        }
    }
}

/// Spending consumes a prefix of the batches in expiry order: the first `k`
/// batches are used up whole, the next one (if any) gives the rest, and every
/// later batch is left as it was.
pub proof fn lemma_spend_consumes_prefix(s: Seq<PointBatch>, amount: int) -> (k: int)
    requires
        batches_wf(s),
        0 <= amount <= sum_remaining(s),
    ensures
        0 <= k <= s.len(),
        sum_remaining(s.take(k)) <= amount,
        sum_remaining(s.take(k)) == amount ==> spend_fifo(s, amount) == s.skip(k),
        sum_remaining(s.take(k)) < amount ==> {
            &&& k < s.len()
            &&& amount - sum_remaining(s.take(k)) < s[k].remaining_points
            &&& spend_fifo(s, amount) == s.skip(k).update(
                0,
                deducted(s[k], amount - sum_remaining(s.take(k))),
            )
        },
    decreases s.len(),
{
    if amount <= 0 || s.len() == 0 {
        assert(s.take(0) =~= Seq::<PointBatch>::empty());
        assert(s.skip(0) =~= s);
        0
    } else {
        lemma_sum_front(s);
        if s[0].remaining_points <= amount {
            let t = s.drop_first();
            assert(batches_wf(t)) by {
                assert forall|i: int, j: int| 0 <= i < j < t.len() implies #[trigger] t[i].expires_at_block <= #[trigger] t[j].expires_at_block by {
                    assert(t[i] == s[i + 1] && t[j] == s[j + 1]);
                }
                assert forall|i: int| 0 <= i < t.len() implies #[trigger] t[i].remaining_points > 0 by {
                    assert(t[i] == s[i + 1]);
                }
            }
            let k1 = lemma_spend_consumes_prefix(t, amount - s[0].remaining_points);
            let k = k1 + 1;
            lemma_sum_front(s.take(k));
            assert(s.take(k).drop_first() =~= t.take(k1));
            assert(s.skip(k) =~= t.skip(k1));
            if k1 < t.len() {
                assert(s[k] == t[k1]);
            }
            k
        } else {
            assert(s.take(0) =~= Seq::<PointBatch>::empty());
            assert(s.skip(0) =~= s);
            0
        }
    }
}

/// Inserting a batch adds its points to the sum.
pub proof fn lemma_sum_insert(s: Seq<PointBatch>, p: int, b: PointBatch)
    requires
        0 <= p <= s.len(),
    ensures
        sum_remaining(s.insert(p, b)) == sum_remaining(s) + b.remaining_points,
{
    lemma_sum_concat(s.take(p), s.skip(p));
    assert(s.take(p) + s.skip(p) =~= s);
    lemma_sum_concat(s.take(p).push(b), s.skip(p));
    assert(s.take(p).push(b) + s.skip(p) =~= s.insert(p, b));
    assert(s.take(p).push(b).drop_last() =~= s.take(p));
}

/// Inserting a batch at its place keeps the order.
pub proof fn lemma_insert_wf(s: Seq<PointBatch>, p: int, b: PointBatch)
    requires
        batches_wf(s),
        insert_position_ok(s, p, b),
        b.remaining_points > 0,
    ensures
        batches_wf(s.insert(p, b)),
{
    let r = s.insert(p, b);
    assert forall|i: int, j: int| 0 <= i < j < r.len() implies #[trigger] r[i].expires_at_block <= #[trigger] r[j].expires_at_block by {
        if j < p {
        } else if j == p {
            assert(r[i] == s[i]);
        } else if i < p {
            assert(r[j] == s[j - 1]);
            assert(s[i].expires_at_block <= s[j - 1].expires_at_block);
        } else if i == p {
            assert(r[j] == s[j - 1]);
        } else {
            assert(r[i] == s[i - 1] && r[j] == s[j - 1]);
        }
    }
    assert forall|i: int| 0 <= i < r.len() implies #[trigger] r[i].remaining_points > 0 by {
        if i < p {
        } else if i > p {
            assert(r[i] == s[i - 1]);
        }
    }
}

/// Removes the batches that have expired at `now`. Returns the batches that
/// are left, the points that expired, and how many batches were removed.
pub fn sweep_expired(batches: &Vec<PointBatch>, now: BlockNumber) -> (r: (Vec<PointBatch>, u128, u32))
    requires
        sum_remaining(batches@) <= u128::MAX,
        batches@.len() <= u32::MAX,
    ensures
        r.0@ == live_batches(batches@, now),
        r.1 == expired_sum(batches@, now),
        r.2 == batches@.len() - r.0@.len(),
        sum_remaining(r.0@) == sum_remaining(batches@) - r.1,
        batches_wf(batches@) ==> batches_wf(r.0@),
        forall|i: int| 0 <= i < r.0@.len() ==> is_live(#[trigger] r.0@[i], now),
{
    let mut kept: Vec<PointBatch> = Vec::new();
    let mut expired: u128 = 0;
    let n = batches.len();
    let mut i: usize = 0;
    while i < n
        invariant
            n == batches@.len(),
            0 <= i <= n,
            sum_remaining(batches@) <= u128::MAX,
            kept@ == live_batches(batches@.take(i as int), now),
            expired == expired_sum(batches@.take(i as int), now),
        decreases n - i,
    {
        let b = batches[i];
        proof {
            assert(batches@.take(i + 1).drop_last() =~= batches@.take(i as int));
            lemma_live_plus_expired(batches@.take(i + 1), now);
            lemma_sum_prefix(batches@, i + 1);
        }
        if b.expires_at_block > now {
            kept.push(b);
        } else {
            expired = expired + b.remaining_points;
        }
        i = i + 1;
    }
    proof {
        assert(batches@.take(n as int) =~= batches@);
        lemma_live_plus_expired(batches@, now);
        lemma_live_batches_props(batches@, now);
    }
    let removed = (n - kept.len()) as u32;
    (kept, expired, removed)
}

/// Points that can be spent at `now`, counted from the batches.
pub fn available_points(batches: &Vec<PointBatch>, now: BlockNumber) -> (r: u128)
    requires
        sum_remaining(batches@) <= u128::MAX,
    ensures
        r == available(batches@, now),
{
    let mut total: u128 = 0;
    let n = batches.len();
    let mut i: usize = 0;
    while i < n
        invariant
            n == batches@.len(),
            0 <= i <= n,
            sum_remaining(batches@) <= u128::MAX,
            total == available(batches@.take(i as int), now),
        decreases n - i,
    {
        let b = batches[i];
        proof {
            assert(batches@.take(i + 1).drop_last() =~= batches@.take(i as int));
            lemma_live_plus_expired(batches@.take(i + 1), now);
            lemma_sum_prefix(batches@, i + 1);
            if is_live(b, now) {
                assert(live_batches(batches@.take(i + 1), now).drop_last()
                    =~= live_batches(batches@.take(i as int), now));
            }
        }
        if b.expires_at_block > now {
            total = total + b.remaining_points;
        }
        i = i + 1;
    }
    proof {
        assert(batches@.take(n as int) =~= batches@);
    }
    total
}

/// The live batches at `now`, as (points left, expiry, travel type).
pub fn live_point_details(batches: &Vec<PointBatch>, now: BlockNumber) -> (r: Vec<(u128, BlockNumber, crate::types::TravelType)>)
    ensures
        r@.len() == live_batches(batches@, now).len(),
        forall|i: int| 0 <= i < r@.len() ==> {
            let b = #[trigger] live_batches(batches@, now)[i];
            r@[i] == (b.remaining_points, b.expires_at_block, b.travel_type)
        },
{
    let mut out: Vec<(u128, BlockNumber, crate::types::TravelType)> = Vec::new();
    let n = batches.len();
    let mut i: usize = 0;
    while i < n
        invariant
            n == batches@.len(),
            0 <= i <= n,
            out@.len() == live_batches(batches@.take(i as int), now).len(),
            forall|j: int| 0 <= j < out@.len() ==> {
                let b = #[trigger] live_batches(batches@.take(i as int), now)[j];
                out@[j] == (b.remaining_points, b.expires_at_block, b.travel_type)
            },
        decreases n - i,
    {
        let b = batches[i];
        proof {
            assert(batches@.take(i + 1).drop_last() =~= batches@.take(i as int));
        }
        if b.expires_at_block > now {
            out.push((b.remaining_points, b.expires_at_block, b.travel_type));
        }
        i = i + 1;
    }
    proof {
        assert(batches@.take(n as int) =~= batches@);
    }
    out
}

/// Places a new batch after every batch that expires no later than it, which
/// keeps the list ordered by expiry and first-come first-served among equals.
pub fn insert_batch(batches: &Vec<PointBatch>, b: PointBatch) -> (r: Vec<PointBatch>)
    ensures
        exists|p: int| 0 <= p <= batches@.len() && r@ == batches@.insert(p, b),
        batches_wf(batches@) ==> exists|p: int| insert_position_ok(batches@, p, b) && r@ == batches@.insert(p, b),
        sum_remaining(r@) == sum_remaining(batches@) + b.remaining_points,
        batches_wf(batches@) && b.remaining_points > 0 ==> batches_wf(r@),
{
    let n = batches.len();
    let mut p: usize = 0;
    while p < n && batches[p].expires_at_block <= b.expires_at_block
        invariant
            n == batches@.len(),
            0 <= p <= n,
            forall|j: int| 0 <= j < p ==> #[trigger] batches@[j].expires_at_block <= b.expires_at_block,
        decreases n - p,
    {
        p = p + 1;
    }
    let ghost q = p as int;
    let mut out: Vec<PointBatch> = Vec::new();
    let mut i: usize = 0;
    while i < n
        invariant
            n == batches@.len(),
            0 <= p <= n,
            0 <= i <= n,
            out@ == (if i <= p { batches@.take(i as int) } else { batches@.take(p as int).push(b) + batches@.subrange(p as int, i as int) }),
            i > p ==> out@.len() == i + 1,
        decreases n + 1 - i,
    {
        if i == p {
            out.push(b);
        }
        let x = batches[i];
        out.push(x);
        proof {
            if i < p {
                assert(batches@.take(i + 1) =~= batches@.take(i as int).push(x));
            } else if i == p {
                assert(batches@.take(p as int).push(b) + batches@.subrange(p as int, i + 1)
                    =~= batches@.take(i as int).push(b).push(x));
            } else {
                assert(batches@.take(p as int).push(b) + batches@.subrange(p as int, i + 1)
                    =~= (batches@.take(p as int).push(b) + batches@.subrange(p as int, i as int)).push(x));
            }
        }
        i = i + 1;
    }
    if p == n {
        out.push(b);
    }
    proof {
        if p == n {
            assert(out@ =~= batches@.insert(q, b));
        } else {
            assert(out@ =~= batches@.insert(q, b));
        }
        if batches_wf(batches@) {
            assert forall|j: int| q <= j < batches@.len() implies #[trigger] batches@[j].expires_at_block > b.expires_at_block by {
                assert(batches@[q].expires_at_block <= batches@[j].expires_at_block);
            }
            assert(insert_position_ok(batches@, q, b));
        }
        lemma_sum_insert(batches@, q, b);
        if batches_wf(batches@) && b.remaining_points > 0 {
            lemma_insert_wf(batches@, q, b);
        }
    }
    out
}

/// Spends `amount` points, oldest expiry first. Batches that are used up are
/// dropped; the first one that is not gives up the rest.
pub fn spend_batches(batches: &Vec<PointBatch>, amount: u128) -> (r: Vec<PointBatch>)
    ensures
        r@ == spend_fifo(batches@, amount as int),
{
    let mut kept: Vec<PointBatch> = Vec::new();
    let mut to_spend: u128 = amount;
    let n = batches.len();
    let mut i: usize = 0;
    proof {
        assert(batches@.skip(0) =~= batches@);
        assert(kept@ + batches@ =~= batches@);
    }
    while i < n
        invariant
            n == batches@.len(),
            0 <= i <= n,
            spend_fifo(batches@, amount as int) == kept@ + spend_fifo(batches@.skip(i as int), to_spend as int),
        decreases n - i,
    {
        let b = batches[i];
        let ghost rest = batches@.skip(i as int);
        proof {
            assert(rest[0] == b);
            assert(rest.drop_first() =~= batches@.skip(i + 1));
        }
        let ghost before = kept@;
        if to_spend == 0 {
            kept.push(b);
            proof {
                assert(before + rest =~= kept@ + batches@.skip(i + 1));
            }
        } else if b.remaining_points <= to_spend {
            to_spend = to_spend - b.remaining_points;
        } else {
            let nb = PointBatch { remaining_points: b.remaining_points - to_spend, ..b };
            proof {
                assert(spend_fifo(rest, to_spend as int) =~= seq![nb] + batches@.skip(i + 1));
            }
            kept.push(nb);
            to_spend = 0;
            proof {
                assert(before + spend_fifo(rest, (b.remaining_points - nb.remaining_points) as int)
                    =~= kept@ + batches@.skip(i + 1));
            }
        }
        i = i + 1;
    }
    proof {
        assert(batches@.skip(n as int) =~= Seq::<PointBatch>::empty());
        assert(kept@ + Seq::<PointBatch>::empty() =~= kept@);
    }
    kept
}

} // verus!
