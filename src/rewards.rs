//! Reward periods and the arithmetic of basis points and proportional shares.
use vstd::prelude::*;
use crate::types::{BlockNumber, BPS_DENOMINATOR};

verus! {

/// The reward period that height `height` falls in. A period length of zero
/// makes every height its own period.
pub open spec fn period_of(height: BlockNumber, blocks_per_period: BlockNumber) -> BlockNumber {
    if blocks_per_period == 0 {
        height
    } else {
        (height / blocks_per_period) as BlockNumber
    }
}

/// `floor(amount * bps / 10000)`.
pub open spec fn bps_of(amount: u128, bps: u32) -> int {
    (amount as int * bps as int) / (BPS_DENOMINATOR as int)
}

/// `floor(a * b / c)`, or `floor(u128::MAX / c)` where `a * b` does not fit in 128 bits.
pub open spec fn share_of(a: u128, b: u128, c: u128) -> int {
    if a as int * b as int > u128::MAX as int {
        u128::MAX as int / c as int
    } else {
        (a as int * b as int) / c as int
    }
}

/// The reward period of height `height`.
pub fn current_period(height: BlockNumber, blocks_per_period: BlockNumber) -> (r: BlockNumber)
    ensures
        r == period_of(height, blocks_per_period),
{
    if blocks_per_period == 0 {
        height
    } else {
        height / blocks_per_period
    }
}

/// `floor(amount * bps / 10000)`, computed without overflow.
pub fn apply_bps(amount: u128, bps: u32) -> (r: u128)
    requires
        bps <= BPS_DENOMINATOR,
    ensures
        r == bps_of(amount, bps),
        r <= amount,
{
    let q = amount / 10_000;
    let m = amount % 10_000;
    proof {
        let a = amount as int;
        let b = bps as int;
        assert(a == q * 10000 + m);
        assert(q * b <= q * 10000) by (nonlinear_arith)
            requires b <= 10000, q >= 0;
        assert(m * b <= m * 10000) by (nonlinear_arith)
            requires b <= 10000, m >= 0;
        assert(a * b == (q * b) * 10000 + m * b) by (nonlinear_arith)
            requires a == q * 10000 + m;
        assert((a * b) / 10000 == q * b + (m * b) / 10000) by (nonlinear_arith)
            requires a * b == (q * b) * 10000 + m * b, m * b >= 0, q * b >= 0;
        assert((m * b) / 10000 <= m) by (nonlinear_arith)
            requires m * b <= m * 10000, m >= 0;
        assert(q * b + (m * b) / 10000 <= a) by (nonlinear_arith)
            requires q * b <= q * 10000, (m * b) / 10000 <= m, a == q * 10000 + m;
    }
    q * (bps as u128) + (m * (bps as u128)) / 10_000
}

/// `floor(a * b / c)`, saturating the product at `u128::MAX`.
pub fn mul_div_saturating(a: u128, b: u128, c: u128) -> (r: u128)
    requires
        c > 0,
    ensures
        r == share_of(a, b, c),
{
    match a.checked_mul(b) {
        Some(p) => p / c,
        None => u128::MAX / c,
    }
}

/// Splits a reward pool: the issuers get `floor(pool * issuer_bps / 10000)`
/// and the stakers get the rest.
pub fn split_reward_pool(pool: u128, issuer_bps: u32) -> (r: (u128, u128))
    requires
        issuer_bps <= BPS_DENOMINATOR,
    ensures
        r.0 == bps_of(pool, issuer_bps),
        r.1 == pool - bps_of(pool, issuer_bps),
{
    let issuer_share = apply_bps(pool, issuer_bps);
    (issuer_share, pool - issuer_share)
}

/// The two shares of a reward pool add up to the pool, and neither is negative.
pub proof fn lemma_split_conserves(pool: u128, issuer_bps: u32)
    requires
        issuer_bps <= BPS_DENOMINATOR,
    ensures
        0 <= bps_of(pool, issuer_bps) <= pool,
        bps_of(pool, issuer_bps) + (pool - bps_of(pool, issuer_bps)) == pool,
{
    let a = pool as int;
    let b = issuer_bps as int;
    assert(0 <= (a * b) / 10000 <= a) by (nonlinear_arith)
        requires 0 <= b <= 10000, a >= 0;
}

/// A proportional share with `w <= total` is at most `a`; where `a * w` fits
/// in 128 bits it is the exact share rounded down, short by less than one unit.
pub proof fn lemma_share_bounds(a: u128, w: u128, total: u128)
    requires
        0 < total,
        w <= total,
    ensures
        share_of(a, w, total) <= a,
        a * w <= u128::MAX ==> share_of(a, w, total) * total <= a * w < (share_of(a, w, total) + 1) * total,
{
    let x = a as int;
    let y = w as int;
    let t = total as int;
    let m = u128::MAX as int;
    assert(x * y <= x * t) by (nonlinear_arith)
        requires x >= 0, y <= t;
    assert((x * y) / t <= x) by (nonlinear_arith)
        requires x * y <= x * t, t > 0, x >= 0, y >= 0;
    assert(((x * y) / t) * t <= x * y) by (nonlinear_arith)
        requires t > 0, x * y >= 0;
    assert(x * y < ((x * y) / t + 1) * t) by (nonlinear_arith)
        requires t > 0, x * y >= 0;
    if x * y > m {
        assert(m / t <= x) by (nonlinear_arith)
            requires x * t >= x * y, x * y > m, t > 0, x >= 0, m >= 0;
    }
}

/// Sum of the weights.
pub open spec fn weight_sum(ws: Seq<u128>) -> int
    decreases ws.len(),
{
    if ws.len() == 0 {
        0
    } else {
        weight_sum(ws.drop_last()) + ws.last()
    }
}

/// Sum of the proportional shares `share_of(a, w, total)` over the weights.
pub open spec fn shares_sum(a: u128, ws: Seq<u128>, total: u128) -> int
    decreases ws.len(),
{
    if ws.len() == 0 {
        0
    } else {
        shares_sum(a, ws.drop_last(), total) + share_of(a, ws.last(), total)
    }
}

proof fn lemma_shares_sum_bounds(a: u128, ws: Seq<u128>, total: u128)
    requires
        0 < total,
        forall|i: int| 0 <= i < ws.len() ==> a * #[trigger] ws[i] <= u128::MAX,
    ensures
        shares_sum(a, ws, total) * total <= a * weight_sum(ws),
        a * weight_sum(ws) <= (shares_sum(a, ws, total) + ws.len()) * total,
    decreases ws.len(),
{
    if ws.len() > 0 {
        let init = ws.drop_last();
        assert forall|i: int| 0 <= i < init.len() implies a * #[trigger] init[i] <= u128::MAX by {
            assert(init[i] == ws[i]);
        }
        lemma_shares_sum_bounds(a, init, total);
        let w = ws.last();
        assert(a * w <= u128::MAX) by {
            assert(ws[ws.len() - 1] == w);
        }
        let f = share_of(a, w, total);
        let x = a as int;
        let t = total as int;
        let s0 = shares_sum(a, init, total);
        let w0 = weight_sum(init);
        let n0 = init.len() as int;
        assert(f == (x * w) / t);
        assert(f * t <= x * w && x * w < (f + 1) * t) by (nonlinear_arith)
            requires f == (x * w) / t, t > 0, x * w >= 0;
        assert(x * (w0 + w) == x * w0 + x * w) by (nonlinear_arith);
        assert((s0 + f) * t == s0 * t + f * t) by (nonlinear_arith);
        assert((s0 + f + n0 + 1) * t == (s0 + n0) * t + (f + 1) * t) by (nonlinear_arith);
    }
}

/// Paying `a` out in proportion to weights that add up to `total`, each share
/// rounded down, pays out at most `a` and loses at most one unit per recipient.
pub proof fn lemma_shares_conserve(a: u128, ws: Seq<u128>, total: u128)
    requires
        0 < total,
        weight_sum(ws) == total,
        forall|i: int| 0 <= i < ws.len() ==> a * #[trigger] ws[i] <= u128::MAX,
    ensures
        shares_sum(a, ws, total) <= a,
        a - shares_sum(a, ws, total) <= ws.len(),
{
    lemma_shares_sum_bounds(a, ws, total);
    let s = shares_sum(a, ws, total);
    let n = ws.len() as int;
    let x = a as int;
    let t = total as int;
    assert(s <= x) by (nonlinear_arith)
        requires s * t <= x * t, t > 0;
    assert(x <= s + n) by (nonlinear_arith)
        requires x * t <= (s + n) * t, t > 0;
}

} // verus!
