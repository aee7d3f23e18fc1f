use vstd::prelude::*;

use crate::errors::StakingError;
use crate::ledger::{stake_plan, unstake_plan, AccountId, Settlement, StakingData};
use crate::rewards::{Balance, StakeInfo, Timestamp};

verus! {

/// A deployed staking contract: the ledger, configured with its token.
#[derive(Debug)]
pub struct StakingContract {
    pub staking: StakingData,
}

impl StakingContract {
    /// A contract with no stakes whose ledger moves `token`.
    pub fn new(token: AccountId) -> (r: Self)
        ensures
            r.staking.wf(),
            r.staking@ == Map::<AccountId, StakeInfo>::empty(),
            r.staking.configured_token() == Some(token),
    {
        StakingContract { staking: StakingData::new(token) }
    }

    /// Decides a stake of `amount` by `caller` at `now`.
    pub fn stake(&self, caller: AccountId, amount: Balance, now: Timestamp) -> (r: Result<
        Settlement,
        StakingError,
    >)
        requires
            self.staking.wf(),
        ensures
            r == stake_plan(self.staking@, self.staking.configured_token(), caller, amount, now),
    {
        self.staking.stake_impl(caller, amount, now)
    }

    /// Decides an unstake of `amount` by `caller` at `now`.
    pub fn unstake(&self, caller: AccountId, amount: Balance, now: Timestamp) -> (r: Result<
        Option<Settlement>,
        StakingError,
    >)
        requires
            self.staking.wf(),
        ensures
            r == unstake_plan(self.staking@, self.staking.configured_token(), caller, amount, now),
    {
        self.staking.unstake_impl(caller, amount, now)
    }
}

} // verus!
