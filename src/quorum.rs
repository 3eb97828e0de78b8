//! Percent arithmetic and the decaying quorum.
//!
//! Nominations use the continuous-decay policy: the quorum is the share of the
//! members equal to the share of the voting period that remains, multiplied
//! by the quorum modifier (a percentage that may exceed one hundred), never
//! below the minimum share of the members and never above the member count.
//! Every product is rounded up.
use vstd::prelude::*;

use crate::types::BlockNumber;

verus! {

/// `pct`, capped at one hundred.
pub open spec fn capped(pct: u8) -> int {
    if pct > 100 {
        100
    } else {
        pct as int
    }
}

/// The share of `q` that `p` is, in whole percent rounded down; one hundred
/// when `q` is zero or `p` exceeds it.
pub open spec fn percent_of(p: u64, q: u64) -> u8 {
    if q == 0 || p > q {
        100
    } else {
        ((100 * p as int) / (q as int)) as u8
    }
}

/// `pct` percent of `n`, rounded up.
pub open spec fn percent_ceil(pct: u8, n: u64) -> u64 {
    ((capped(pct) * n + 99) / 100) as u64
}

/// `factor` percent of `n`, rounded up, with no cap on `factor`.
pub open spec fn scaled_ceil(factor: u8, n: u64) -> int {
    (factor * n + 99) / 100
}

/// `pct` percent of `n`, rounded to the nearest whole number, halves down.
pub open spec fn percent_nearest(pct: u8, n: u64) -> u64 {
    ((capped(pct) * n) / 100 + if (capped(pct) * n) % 100 > 50 {
        1int
    } else {
        0int
    }) as u64
}

/// Relies on `sp_arithmetic::Percent::from_rational`, which rounds down and
/// gives one hundred percent when `q` is zero or `p` exceeds `q`.
#[verifier::external_body]
fn percent_from_rational(p: u64, q: u64) -> (r: u8)
    ensures
        r == percent_of(p, q),
{
    sp_arithmetic::Percent::from_rational(p, q).deconstruct()
}

/// Relies on `sp_arithmetic::Percent::mul_ceil` (with `from_percent`, which
/// caps at one hundred): the product rounded up.
#[verifier::external_body]
fn percent_mul_ceil(pct: u8, n: u64) -> (r: u64)
    ensures
        r == percent_ceil(pct, n),
{
    sp_arithmetic::Percent::from_percent(pct).mul_ceil(n)
}

/// Relies on `Mul` of `sp_arithmetic::Percent` by an integer (with
/// `from_percent`, which caps at one hundred): the product rounded to the
/// nearest, halves down.
#[verifier::external_body]
fn percent_mul(pct: u8, n: u64) -> (r: u64)
    ensures
        r == percent_nearest(pct, n),
{
    sp_arithmetic::Percent::from_percent(pct) * n
}

/// `pct` percent of `n`, rounded to the nearest whole number, halves down.
pub fn percent_of_count(pct: u8, n: u64) -> (r: u64)
    ensures
        r == percent_nearest(pct, n),
        r <= n,
{
    let r = percent_mul(pct, n);
    proof {
        lemma_percent_nearest_bound(pct, n);
    }
    r
}

/// A percentage of `n`, rounded to the nearest, never exceeds `n`.
pub proof fn lemma_percent_nearest_bound(pct: u8, n: u64)
    ensures
        percent_nearest(pct, n) <= n,
{
    assert((capped(pct) * n) / 100 + 1 <= n || (capped(pct) * n) % 100 <= 50) by (nonlinear_arith)
        requires
            0 <= capped(pct) <= 100,
    ;
    assert((capped(pct) * n) / 100 <= n) by (nonlinear_arith)
        requires
            0 <= capped(pct) <= 100,
    ;
}

/// The number of blocks from `start` to `now`, or zero when `now` comes first.
pub open spec fn blocks_since(start: BlockNumber, now: BlockNumber) -> u64 {
    if now >= start {
        (now - start) as u64
    } else {
        0
    }
}

/// The quorum of a nomination opened at `opened` over `members` members.
pub open spec fn quorum_threshold(
    members: u64,
    quorum_min: u8,
    quorum_modifier: u8,
    period: BlockNumber,
    opened: BlockNumber,
    now: BlockNumber,
) -> u64 {
    let remaining = (100 - percent_of(blocks_since(opened, now), period)) as u8;
    let minimum = percent_ceil(quorum_min, members) as int;
    let required = scaled_ceil(quorum_modifier, percent_ceil(remaining, members));
    let at_least = if required >= minimum {
        required
    } else {
        minimum
    };
    if at_least <= members {
        at_least as u64
    } else {
        members
    }
}

/// `factor` percent of `n`, rounded up; `factor` may exceed one hundred.
pub fn scale_ceil(factor: u8, n: u64) -> (r: u128)
    ensures
        r == scaled_ceil(factor, n),
{
    assert(factor as int * n as int <= 255 * (u64::MAX as int)) by (nonlinear_arith)
        requires
            factor <= 255,
            n <= u64::MAX,
    ;
    (factor as u128 * n as u128 + 99) / 100
}

/// The share of the voting period, opened at `opened`, that has passed by `now`.
pub fn calculate_percentage_elapsed(period: BlockNumber, opened: BlockNumber, now: BlockNumber) -> (r:
    u8)
    ensures
        r == percent_of(blocks_since(opened, now), period),
        r <= 100,
{
    let elapsed = now.saturating_sub(opened);
    let r = percent_from_rational(elapsed, period);
    assert(period == 0 || elapsed > period || (100 * elapsed as int) / (period as int) <= 100)
        by (nonlinear_arith);
    r
}

/// The number of votes, ayes and nays together, at which a nomination may
/// close before its voting period ends.
pub fn calculate_quorum_threshold(
    members: u64,
    quorum_min: u8,
    quorum_modifier: u8,
    period: BlockNumber,
    opened: BlockNumber,
    now: BlockNumber,
) -> (r: u64)
    ensures
        r == quorum_threshold(members, quorum_min, quorum_modifier, period, opened, now),
        r <= members,
{
    let elapsed = calculate_percentage_elapsed(period, opened, now);
    let remaining: u8 = 100 - elapsed;
    let minimum = percent_mul_ceil(quorum_min, members) as u128;
    let required = scale_ceil(quorum_modifier, percent_mul_ceil(remaining, members));
    let at_least = if required >= minimum {
        required
    } else {
        minimum
    };
    if at_least <= members as u128 {
        at_least as u64
    } else {
        members
    }
}

} // verus!
