use vstd::prelude::*;

use crate::errors::{StakingError, TransferError};
use crate::rewards::{accumulated_rewards, rewards_of, Balance, StakeInfo, Timestamp};

verus! {

broadcast use vstd::array::group_array_axioms;

/// Identifier of an account or of a token contract.
pub type AccountId = [u8; 32];

/// One account's stake as held in the ledger's store.
#[derive(Clone, Copy, Debug, PartialEq, Eq)]
pub struct StakeEntry {
    pub account: AccountId,
    pub info: StakeInfo,
}

/// A token movement that the ledger asks of the fungible-token collaborator.
#[derive(Clone, Copy, Debug, PartialEq, Eq)]
pub enum TransferRequest {
    /// Pull `amount` from `from` into the ledger's custody.
    Deposit { token: AccountId, from: AccountId, amount: Balance },
    /// Push `amount` from the ledger's custody to `to`.
    Withdraw { token: AccountId, to: AccountId, amount: Balance },
}

/// A decided change of one account's record, to be committed once `transfer`
/// has succeeded. A `record` of `None` deletes the account's record.
#[derive(Clone, Copy, Debug, PartialEq, Eq)]
pub struct Settlement {
    pub account: AccountId,
    pub record: Option<StakeInfo>,
    pub transfer: TransferRequest,
}

/// The ledger: one stake record per staking account, and the token it moves.
#[derive(Debug)]
pub struct StakingData {
    stakes: Vec<StakeEntry>,
    token: Option<AccountId>,
}

spec fn holds_account(s: Seq<StakeEntry>, a: AccountId) -> bool {
    exists|i: int| 0 <= i < s.len() && s[i].account == a
}

spec fn entries_map(s: Seq<StakeEntry>) -> Map<AccountId, StakeInfo> {
    Map::new(
        |a: AccountId| holds_account(s, a),
        |a: AccountId| s[choose|i: int| 0 <= i < s.len() && s[i].account == a].info,
    )
}

spec fn accounts_unique(s: Seq<StakeEntry>) -> bool {
    forall|i: int, j: int|
        0 <= i < s.len() && 0 <= j < s.len() && s[i].account == s[j].account ==> i == j
}

proof fn lemma_lookup(s: Seq<StakeEntry>, i: int)
    requires
        accounts_unique(s),
        0 <= i < s.len(),
    ensures
        entries_map(s).contains_key(s[i].account),
        entries_map(s)[s[i].account] == s[i].info,
{
    let a = s[i].account;
    assert(holds_account(s, a));
    let j = choose|j: int| 0 <= j < s.len() && s[j].account == a;
    assert(j == i);
}

proof fn lemma_update(s: Seq<StakeEntry>, i: int, e: StakeEntry)
    requires
        accounts_unique(s),
        0 <= i < s.len(),
        e.account == s[i].account,
    ensures
        accounts_unique(s.update(i, e)),
        entries_map(s.update(i, e)) =~= entries_map(s).insert(e.account, e.info),
{
    let t = s.update(i, e);
    assert(accounts_unique(t));
    lemma_lookup(t, i);
    assert forall|k: AccountId| #[trigger] holds_account(t, k) <==> holds_account(s, k) by {
        if holds_account(t, k) {
            let j = choose|j: int| 0 <= j < t.len() && t[j].account == k;
            assert(s[j].account == k);
        }
        if holds_account(s, k) {
            let j = choose|j: int| 0 <= j < s.len() && s[j].account == k;
            assert(t[j].account == k);
        }
    }
    assert forall|k: AccountId| #[trigger] entries_map(t).contains_key(k) && k != e.account
        implies entries_map(t)[k] == entries_map(s)[k] by {
        let j = choose|j: int| 0 <= j < t.len() && t[j].account == k;
        assert(j != i);
        lemma_lookup(t, j);
        lemma_lookup(s, j);
    }
}

proof fn lemma_push(s: Seq<StakeEntry>, e: StakeEntry)
    requires
        accounts_unique(s),
        !holds_account(s, e.account),
    ensures
        accounts_unique(s.push(e)),
        entries_map(s.push(e)) =~= entries_map(s).insert(e.account, e.info),
{
    let t = s.push(e);
    assert(t[s.len() as int] == e);
    assert(accounts_unique(t));
    lemma_lookup(t, s.len() as int);
    assert forall|k: AccountId| #[trigger] holds_account(t, k) <==> (holds_account(s, k) || k
        == e.account) by {
        if holds_account(t, k) {
            let j = choose|j: int| 0 <= j < t.len() && t[j].account == k;
            if j < s.len() {
                assert(s[j].account == k);
            }
        }
        if holds_account(s, k) {
            let j = choose|j: int| 0 <= j < s.len() && s[j].account == k;
            assert(t[j].account == k);
        }
    }
    assert forall|k: AccountId| #[trigger] entries_map(t).contains_key(k) && k != e.account
        implies entries_map(t)[k] == entries_map(s)[k] by {
        let j = choose|j: int| 0 <= j < t.len() && t[j].account == k;
        assert(j < s.len());
        lemma_lookup(t, j);
        lemma_lookup(s, j);
    }
}

proof fn lemma_remove(s: Seq<StakeEntry>, i: int)
    requires
        accounts_unique(s),
        0 <= i < s.len(),
    ensures
        accounts_unique(s.remove(i)),
        entries_map(s.remove(i)) =~= entries_map(s).remove(s[i].account),
{
    let t = s.remove(i);
    let a = s[i].account;
    assert forall|x: int, y: int|
        0 <= x < t.len() && 0 <= y < t.len() && t[x].account == t[y].account implies x == y by {
        let sx = if x < i { x } else { x + 1 };
        let sy = if y < i { y } else { y + 1 };
        assert(t[x] == s[sx]);
        assert(t[y] == s[sy]);
    }
    assert forall|k: AccountId| #[trigger] holds_account(t, k) <==> (holds_account(s, k) && k
        != a) by {
        if holds_account(t, k) {
            let j = choose|j: int| 0 <= j < t.len() && t[j].account == k;
            let sj = if j < i { j } else { j + 1 };
            assert(s[sj].account == k);
        }
        if holds_account(s, k) && k != a {
            let j = choose|j: int| 0 <= j < s.len() && s[j].account == k;
            let tj = if j < i { j } else { j - 1 };
            assert(t[tj].account == k);
        }
    }
    assert forall|k: AccountId| #[trigger] entries_map(t).contains_key(k)
        implies entries_map(t)[k] == entries_map(s)[k] by {
        let j = choose|j: int| 0 <= j < t.len() && t[j].account == k;
        let sj = if j < i { j } else { j + 1 };
        assert(t[j] == s[sj]);
        lemma_lookup(t, j);
        lemma_lookup(s, sj);
    }
}

impl View for StakingData {
    type V = Map<AccountId, StakeInfo>;

    /// The stake record of each account that has one.
    closed spec fn view(&self) -> Map<AccountId, StakeInfo> {
        entries_map(self.stakes@)
    }
}

/// What a stake of `amount` by `caller` at `now` decides, on a ledger holding
/// `stakes` and configured with `token`: interest accrued so far is folded
/// into the principal together with `amount`, and `amount` is to be pulled
/// from `caller`.
pub open spec fn stake_plan(
    stakes: Map<AccountId, StakeInfo>,
    token: Option<AccountId>,
    caller: AccountId,
    amount: Balance,
    now: Timestamp,
) -> Result<Settlement, StakingError> {
    let record: Result<StakeInfo, StakingError> = if stakes.contains_key(caller) {
        let prior = stakes[caller];
        match rewards_of(prior, now) {
            Err(e) => Err(e),
            Ok(accumulated) => if prior.amount + accumulated + amount > u128::MAX {
                Err(StakingError::ArithmeticOverflow)
            } else {
                Ok(StakeInfo { amount: (prior.amount + accumulated + amount) as u128, timestamp: now })
            },
        }
    } else {
        Ok(StakeInfo { amount, timestamp: now })
    };
    match record {
        Err(e) => Err(e),
        Ok(r) => match token {
            None => Err(StakingError::TokenNotSet),
            Some(t) => Ok(
                Settlement {
                    account: caller,
                    record: Some(r),
                    transfer: TransferRequest::Deposit { token: t, from: caller, amount },
                },
            ),
        },
    }
}

/// What an unstake of `amount` by `caller` at `now` decides: nothing at all
/// for an account without a record; otherwise the account keeps what is left
/// of principal plus accrued interest (its record goes when nothing is left),
/// and `amount` is to be pushed to `caller`.
pub open spec fn unstake_plan(
    stakes: Map<AccountId, StakeInfo>,
    token: Option<AccountId>,
    caller: AccountId,
    amount: Balance,
    now: Timestamp,
) -> Result<Option<Settlement>, StakingError> {
    if !stakes.contains_key(caller) {
        Ok(None)
    } else {
        let prior = stakes[caller];
        match rewards_of(prior, now) {
            Err(e) => Err(e),
            Ok(accumulated) => {
                let available = prior.amount + accumulated;
                if available > u128::MAX {
                    Err(StakingError::ArithmeticOverflow)
                } else if amount > available {
                    Err(StakingError::GreaterAmountRequested)
                } else {
                    match token {
                        None => Err(StakingError::TokenNotSet),
                        Some(t) => Ok(
                            Some(
                                Settlement {
                                    account: caller,
                                    record: if amount == available {
                                        None
                                    } else {
                                        Some(
                                            StakeInfo {
                                                amount: (available - amount) as u128,
                                                timestamp: now,
                                            },
                                        )
                                    },
                                    transfer: TransferRequest::Withdraw {
                                        token: t,
                                        to: caller,
                                        amount,
                                    },
                                },
                            ),
                        ),
                    }
                }
            },
        }
    }
}

/// The records after `settlement` is committed.
pub open spec fn applied(stakes: Map<AccountId, StakeInfo>, settlement: Settlement) -> Map<
    AccountId,
    StakeInfo,
> {
    match settlement.record {
        Some(r) => stakes.insert(settlement.account, r),
        None => stakes.remove(settlement.account),
    }
}

fn same_account(a: &AccountId, b: &AccountId) -> (r: bool)
    ensures
        r == (*a == *b),
{
    let mut i: usize = 0;
    while i < 32
        invariant
            i <= 32,
            forall|j: int| 0 <= j < i ==> a[j] == b[j],
        decreases 32 - i,
    {
        if a[i] != b[i] {
            return false;
        }
        i += 1;
    }
    proof {
        assert(*a =~= *b);
    }
    true
}

impl StakingData {
    /// The store holds at most one record per account.
    pub closed spec fn wf(&self) -> bool {
        accounts_unique(self.stakes@)
    }

    /// The token contract the ledger moves, if one was configured.
    pub closed spec fn configured_token(&self) -> Option<AccountId> {
        self.token
    }

    /// An empty ledger that moves `token`.
    pub fn new(token: AccountId) -> (r: Self)
        ensures
            r.wf(),
            r@ == Map::<AccountId, StakeInfo>::empty(),
            r.configured_token() == Some(token),
    {
        let r = StakingData { stakes: Vec::new(), token: Some(token) };
        proof {
            assert(r@ =~= Map::<AccountId, StakeInfo>::empty());
        }
        r
    }

    /// The configured token contract.
    pub fn token(&self) -> (r: Option<AccountId>)
        ensures
            r == self.configured_token(),
    {
        self.token
    }

    fn find(&self, account: &AccountId) -> (r: Option<usize>)
        requires
            self.wf(),
        ensures
            match r {
                Some(i) => i < self.stakes@.len() && self.stakes@[i as int].account == *account,
                None => !holds_account(self.stakes@, *account),
            },
    {
        let mut i: usize = 0;
        while i < self.stakes.len()
            invariant
                i <= self.stakes@.len(),
                forall|j: int| 0 <= j < i ==> self.stakes@[j].account != *account,
            decreases self.stakes@.len() - i,
        {
            if same_account(&self.stakes[i].account, account) {
                return Some(i);
            }
            i += 1;
        }
        None
    }

    /// The stake record of `account`, if it has one.
    pub fn stake_of(&self, account: &AccountId) -> (r: Option<StakeInfo>)
        requires
            self.wf(),
        ensures
            r == (if self@.contains_key(*account) {
                Some(self@[*account])
            } else {
                None
            }),
    {
        match self.find(account) {
            Some(i) => {
                proof {
                    lemma_lookup(self.stakes@, i as int);
                }
                Some(self.stakes[i].info)
            },
            None => None,
        }
    }

    /// Decides a stake of `amount` by `caller` at `now`. Nothing is changed:
    /// the returned settlement is committed by `settle` once its deposit has
    /// gone through.
    pub fn stake_impl(&self, caller: AccountId, amount: Balance, now: Timestamp) -> (r: Result<
        Settlement,
        StakingError,
    >)
        requires
            self.wf(),
        ensures
            r == stake_plan(self@, self.configured_token(), caller, amount, now),
    {
        let record = match self.find(&caller) {
            Some(i) => {
                proof {
                    lemma_lookup(self.stakes@, i as int);
                }
                let staker = self.stakes[i].info;
                let accumulated = match accumulated_rewards(&staker, now) {
                    Ok(a) => a,
                    Err(e) => return Err(e),
                };
                let with_interest = match staker.amount.checked_add(accumulated) {
                    Some(v) => v,
                    None => return Err(StakingError::ArithmeticOverflow),
                };
                let total = match with_interest.checked_add(amount) {
                    Some(v) => v,
                    None => return Err(StakingError::ArithmeticOverflow),
                };
                StakeInfo { amount: total, timestamp: now }
            },
            None => StakeInfo { amount, timestamp: now },
        };
        match self.token {
            None => Err(StakingError::TokenNotSet),
            Some(token) => Ok(
                Settlement {
                    account: caller,
                    record: Some(record),
                    transfer: TransferRequest::Deposit { token, from: caller, amount },
                },
            ),
        }
    }

    /// Decides an unstake of `amount` by `caller` at `now`: `None` when the
    /// caller has no record, which is a success with nothing to do. Nothing is
    /// changed: a returned settlement is committed by `settle` once its
    /// withdrawal has gone through.
    pub fn unstake_impl(&self, caller: AccountId, amount: Balance, now: Timestamp) -> (r: Result<
        Option<Settlement>,
        StakingError,
    >)
        requires
            self.wf(),
        ensures
            r == unstake_plan(self@, self.configured_token(), caller, amount, now),
    {
        match self.find(&caller) {
            None => Ok(None),
            Some(i) => {
                proof {
                    lemma_lookup(self.stakes@, i as int);
                }
                let staker = self.stakes[i].info;
                let accumulated = match accumulated_rewards(&staker, now) {
                    Ok(a) => a,
                    Err(e) => return Err(e),
                };
                let available = match staker.amount.checked_add(accumulated) {
                    Some(v) => v,
                    None => return Err(StakingError::ArithmeticOverflow),
                };
                if amount > available {
                    return Err(StakingError::GreaterAmountRequested);
                }
                let record = if amount == available {
                    None
                } else {
                    Some(StakeInfo { amount: available - amount, timestamp: now })
                };
                match self.token {
                    None => Err(StakingError::TokenNotSet),
                    Some(token) => Ok(
                        Some(
                            Settlement {
                                account: caller,
                                record,
                                transfer: TransferRequest::Withdraw { token, to: caller, amount },
                            },
                        ),
                    ),
                }
            },
        }
    }

    /// Commits `settlement` when the collaborator reports its transfer done;
    /// on a refused transfer the ledger is left as it was.
    pub fn settle(&mut self, settlement: Settlement, outcome: Result<(), TransferError>) -> (r:
        Result<(), StakingError>)
        requires
            old(self).wf(),
        ensures
            final(self).wf(),
            final(self).configured_token() == old(self).configured_token(),
            match outcome {
                Ok(_) => r is Ok && final(self)@ == applied(old(self)@, settlement),
                Err(e) => r == Err::<(), StakingError>(StakingError::TransferFailed(e))
                    && final(self)@ == old(self)@,
            },
    {
        match outcome {
            Err(e) => Err(StakingError::TransferFailed(e)),
            Ok(()) => {
                let ghost s0 = self.stakes@;
                match (self.find(&settlement.account), settlement.record) {
                    (Some(i), Some(info)) => {
                        let entry = StakeEntry { account: settlement.account, info };
                        self.stakes.set(i, entry);
                        proof {
                            lemma_update(s0, i as int, entry);
                        }
                    },
                    (Some(i), None) => {
                        self.stakes.remove(i);
                        proof {
                            lemma_remove(s0, i as int);
                        }
                    },
                    (None, Some(info)) => {
                        let entry = StakeEntry { account: settlement.account, info };
                        self.stakes.push(entry);
                        proof {
                            lemma_push(s0, entry);
                        }
                    },
                    (None, None) => {
                        proof {
                            assert(entries_map(s0).remove(settlement.account) =~= entries_map(s0));
                        }
                    },
                }
                Ok(())
            },
        }
    }
}

impl Default for StakingData {
    /// An empty ledger with no token configured.
    fn default() -> (r: Self)
        ensures
            r.wf(),
            r@ == Map::<AccountId, StakeInfo>::empty(),
            r.configured_token() is None,
    {
        let r = StakingData { stakes: Vec::new(), token: None };
        proof {
            assert(r@ =~= Map::<AccountId, StakeInfo>::empty());
        }
        r
    }
}

} // verus!
