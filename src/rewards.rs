use vstd::prelude::*;

use crate::errors::StakingError;

verus! {

/// Token amounts.
pub type Balance = u128;

/// Instants of the host clock, in seconds.
pub type Timestamp = u64;

/// Scale of the interest rate: parts per billion.
pub const HUNDRED_PERCENT: u128 = 1000000000;

/// Daily interest in parts per billion (0.1% per day).
pub const INTEREST: u128 = 1000000;

/// Length of a day in clock units.
pub const ONE_DAY: u64 = 86400;

/// The stake of one account: `amount` holds principal and every interest
/// already folded in as of `timestamp`.
#[derive(Clone, Copy, Debug, PartialEq, Eq, Default)]
pub struct StakeInfo {
    pub amount: Balance,
    pub timestamp: Timestamp,
}

/// Interest accrued by `amount` over `elapsed` clock units, with floor
/// division applied first by the day length, then by the rate scale.
pub open spec fn reward(amount: int, elapsed: int) -> int {
    ((elapsed * (amount * INTEREST as int)) / ONE_DAY as int) / HUNDRED_PERCENT as int
}

/// Whether every intermediate product of `reward` fits in a `u128`.
pub open spec fn reward_fits(amount: int, elapsed: int) -> bool {
    amount * INTEREST as int <= u128::MAX && elapsed * (amount * INTEREST as int) <= u128::MAX
}

/// What `accumulated_rewards` yields for a record read at `now`.
pub open spec fn rewards_of(info: StakeInfo, now: Timestamp) -> Result<Balance, StakingError> {
    if now < info.timestamp {
        Err(StakingError::ArithmeticOverflow)
    } else if !reward_fits(info.amount as int, now - info.timestamp) {
        Err(StakingError::ArithmeticOverflow)
    } else {
        Ok(reward(info.amount as int, now - info.timestamp) as Balance)
    }
}

/// Interest accrued on `stake_info` between its timestamp and `now`.
pub fn accumulated_rewards(stake_info: &StakeInfo, now: Timestamp) -> (r: Result<Balance, StakingError>)
    ensures
        r == rewards_of(*stake_info, now),
        r is Ok ==> r->Ok_0 as int == reward(stake_info.amount as int, now - stake_info.timestamp),
{
    if now < stake_info.timestamp {
        return Err(StakingError::ArithmeticOverflow);
    }
    let elapsed: u128 = (now - stake_info.timestamp) as u128;
    let per_day: u128 = match stake_info.amount.checked_mul(INTEREST) {
        Some(p) => p,
        None => return Err(StakingError::ArithmeticOverflow),
    };
    let total: u128 = match elapsed.checked_mul(per_day) {
        Some(t) => t,
        None => return Err(StakingError::ArithmeticOverflow),
    };
    let reward_now: u128 = (total / (ONE_DAY as u128)) / HUNDRED_PERCENT;
    proof {
        lemma_reward_bounded(stake_info.amount as int, elapsed as int);
    }
    Ok(reward_now)
}

proof fn lemma_reward_bounded(amount: int, elapsed: int)
    requires
        0 <= amount,
        0 <= elapsed,
        reward_fits(amount, elapsed),
    ensures
        0 <= reward(amount, elapsed) <= u128::MAX,
{
    let t = elapsed * (amount * INTEREST as int);
    assert(0 <= t) by (nonlinear_arith)
        requires
            0 <= amount,
            0 <= elapsed,
            t == elapsed * (amount * INTEREST as int),
    ;
    assert(t / ONE_DAY as int <= t) by (nonlinear_arith)
        requires
            0 <= t,
    ;
}

/// A record read at its own timestamp has accrued nothing.
pub proof fn lemma_no_reward_without_elapsed(amount: int)
    ensures
        reward(amount, 0) == 0,
{
}

/// For a fixed principal, accrued interest never decreases as time passes.
pub proof fn lemma_reward_monotonic(amount: int, e1: int, e2: int)
    requires
        0 <= amount,
        0 <= e1 <= e2,
    ensures
        reward(amount, e1) <= reward(amount, e2),
{
    let p = amount * INTEREST as int;
    assert(0 <= p) by (nonlinear_arith)
        requires
            0 <= amount,
            p == amount * INTEREST as int,
    ;
    assert(e1 * p <= e2 * p) by (nonlinear_arith)
        requires
            0 <= p,
            e1 <= e2,
    ;
    vstd::arithmetic::div_mod::lemma_div_is_ordered(e1 * p, e2 * p, ONE_DAY as int);
    vstd::arithmetic::div_mod::lemma_div_is_ordered(
        (e1 * p) / ONE_DAY as int,
        (e2 * p) / ONE_DAY as int,
        HUNDRED_PERCENT as int,
    );
}

/// Read at the record's own timestamp, a record whose per-day product fits
/// accrues exactly nothing.
pub proof fn lemma_rewards_zero_at_timestamp(info: StakeInfo)
    requires
        info.amount * INTEREST <= u128::MAX,
    ensures
        rewards_of(info, info.timestamp) == Ok::<Balance, StakingError>(0),
{
}

} // verus!
