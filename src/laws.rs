use vstd::prelude::*;

use crate::errors::StakingError;
use crate::ledger::{applied, stake_plan, unstake_plan, AccountId, Settlement, TransferRequest};
use crate::rewards::{
    lemma_reward_monotonic,
    lemma_rewards_zero_at_timestamp,
    reward,
    reward_fits,
    rewards_of,
    Balance,
    StakeInfo,
    Timestamp,
    INTEREST,
};

verus! {

/// An account without a record that stakes `amount` at `now` gets a record
/// holding exactly `amount`, stamped `now`, and `amount` is pulled from it.
pub proof fn lemma_first_stake_creates_record(
    stakes: Map<AccountId, StakeInfo>,
    token: AccountId,
    caller: AccountId,
    amount: Balance,
    now: Timestamp,
)
    requires
        !stakes.contains_key(caller),
    ensures
        stake_plan(stakes, Some(token), caller, amount, now) == Ok::<Settlement, StakingError>(
            Settlement {
                account: caller,
                record: Some(StakeInfo { amount, timestamp: now }),
                transfer: TransferRequest::Deposit { token, from: caller, amount },
            },
        ),
        applied(stakes, stake_plan(stakes, Some(token), caller, amount, now)->Ok_0).contains_key(
            caller,
        ),
        applied(stakes, stake_plan(stakes, Some(token), caller, amount, now)->Ok_0)[caller]
            == (StakeInfo { amount, timestamp: now }),
{
}

/// Accrued interest of a record never decreases as the clock advances, as
/// long as the later computation stays in range.
pub proof fn lemma_rewards_monotonic_in_time(info: StakeInfo, now1: Timestamp, now2: Timestamp)
    requires
        info.timestamp <= now1 <= now2,
        reward_fits(info.amount as int, now2 - info.timestamp),
    ensures
        rewards_of(info, now1) is Ok,
        rewards_of(info, now2) is Ok,
        rewards_of(info, now1)->Ok_0 <= rewards_of(info, now2)->Ok_0,
{
    let p = info.amount * INTEREST;
    let e1 = now1 - info.timestamp;
    let e2 = now2 - info.timestamp;
    assert(e1 * p <= e2 * p) by (nonlinear_arith)
        requires
            0 <= p,
            0 <= e1 <= e2,
    ;
    lemma_reward_monotonic(info.amount as int, e1, e2);
    assert(0 <= reward(info.amount as int, e1)) by (nonlinear_arith)
        requires
            0 <= p,
            0 <= e1,
            p == info.amount * INTEREST,
    ;
}

/// Staking `x` from an account without a record and unstaking `x` at the
/// same instant deposits `x`, withdraws `x`, and leaves the records as they
/// were (the account again has none).
pub proof fn lemma_stake_then_unstake_round_trip(
    stakes: Map<AccountId, StakeInfo>,
    token: AccountId,
    caller: AccountId,
    x: Balance,
    now: Timestamp,
)
    requires
        !stakes.contains_key(caller),
        x * INTEREST <= u128::MAX,
    ensures
        ({
            let staked = stake_plan(stakes, Some(token), caller, x, now);
            let after_stake = applied(stakes, staked->Ok_0);
            let unstaked = unstake_plan(after_stake, Some(token), caller, x, now);
            &&& staked is Ok
            &&& staked->Ok_0.transfer == TransferRequest::Deposit { token, from: caller, amount: x }
            &&& unstaked == Ok::<Option<Settlement>, StakingError>(
                Some(
                    Settlement {
                        account: caller,
                        record: None,
                        transfer: TransferRequest::Withdraw { token, to: caller, amount: x },
                    },
                ),
            )
            &&& applied(after_stake, unstaked->Ok_0->Some_0) == stakes
        }),
{
    let info = StakeInfo { amount: x, timestamp: now };
    let after_stake = stakes.insert(caller, info);
    lemma_rewards_zero_at_timestamp(info);
    assert(after_stake.remove(caller) =~= stakes);
}

/// Unstaking exactly what is available (principal plus accrued interest)
/// withdraws it all and removes the account's record.
pub proof fn lemma_unstake_all_removes_record(
    stakes: Map<AccountId, StakeInfo>,
    token: AccountId,
    caller: AccountId,
    now: Timestamp,
)
    requires
        stakes.contains_key(caller),
        rewards_of(stakes[caller], now) is Ok,
        stakes[caller].amount + rewards_of(stakes[caller], now)->Ok_0 <= u128::MAX,
    ensures
        ({
            let available = (stakes[caller].amount + rewards_of(stakes[caller], now)->Ok_0) as u128;
            let r = unstake_plan(stakes, Some(token), caller, available, now);
            &&& r == Ok::<Option<Settlement>, StakingError>(
                Some(
                    Settlement {
                        account: caller,
                        record: None,
                        transfer: TransferRequest::Withdraw { token, to: caller, amount: available },
                    },
                ),
            )
            &&& !applied(stakes, r->Ok_0->Some_0).contains_key(caller)
        }),
{
}

/// Asking to unstake more than is available is refused with
/// `GreaterAmountRequested`, and nothing is decided to be committed.
pub proof fn lemma_unstake_beyond_available_refused(
    stakes: Map<AccountId, StakeInfo>,
    token: Option<AccountId>,
    caller: AccountId,
    amount: Balance,
    now: Timestamp,
)
    requires
        stakes.contains_key(caller),
        rewards_of(stakes[caller], now) is Ok,
        stakes[caller].amount + rewards_of(stakes[caller], now)->Ok_0 < amount,
    ensures
        unstake_plan(stakes, token, caller, amount, now) == Err::<Option<Settlement>, StakingError>(
            StakingError::GreaterAmountRequested,
        ),
{
}

/// Unstaking from an account without a record succeeds with nothing to do,
/// whatever the amount and whether or not a token is configured.
pub proof fn lemma_unstake_without_record_is_noop(
    stakes: Map<AccountId, StakeInfo>,
    token: Option<AccountId>,
    caller: AccountId,
    amount: Balance,
    now: Timestamp,
)
    requires
        !stakes.contains_key(caller),
    ensures
        unstake_plan(stakes, token, caller, amount, now) == Ok::<Option<Settlement>, StakingError>(
            None,
        ),
{
}

} // verus!
