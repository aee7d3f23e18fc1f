use staking_ledger::contract::StakingContract;
use staking_ledger::errors::{StakingError, TransferError};
use staking_ledger::ledger::{AccountId, Settlement, StakingData, TransferRequest};
use staking_ledger::rewards::{accumulated_rewards, StakeInfo, ONE_DAY};

const TOKEN: AccountId = [7u8; 32];
const ALICE: AccountId = [1u8; 32];
const BOB: AccountId = [2u8; 32];

fn staked(ledger: &mut StakingData, who: AccountId, amount: u128, now: u64) {
    let settlement = ledger.stake_impl(who, amount, now).unwrap();
    assert_eq!(ledger.settle(settlement, Ok(())), Ok(()));
}

#[test]
fn first_stake_creates_record() {
    let mut ledger = StakingData::new(TOKEN);
    let settlement = ledger.stake_impl(ALICE, 500, 42).unwrap();
    assert_eq!(
        settlement,
        Settlement {
            account: ALICE,
            record: Some(StakeInfo { amount: 500, timestamp: 42 }),
            transfer: TransferRequest::Deposit { token: TOKEN, from: ALICE, amount: 500 },
        }
    );
    assert_eq!(ledger.stake_of(&ALICE), None);
    assert_eq!(ledger.settle(settlement, Ok(())), Ok(()));
    assert_eq!(ledger.stake_of(&ALICE), Some(StakeInfo { amount: 500, timestamp: 42 }));
    assert_eq!(ledger.stake_of(&BOB), None);
}

#[test]
fn zero_amount_stake_is_accepted() {
    let mut ledger = StakingData::new(TOKEN);
    staked(&mut ledger, ALICE, 0, 5);
    assert_eq!(ledger.stake_of(&ALICE), Some(StakeInfo { amount: 0, timestamp: 5 }));
}

#[test]
fn rewards_zero_without_elapsed_time() {
    let info = StakeInfo { amount: 123_456_789_000_000, timestamp: 1_000 };
    assert_eq!(accumulated_rewards(&info, 1_000), Ok(0));
}

#[test]
fn rewards_grow_with_elapsed_time() {
    let info = StakeInfo { amount: 1_000_000_000_000, timestamp: 0 };
    let mut last = 0u128;
    for now in [0u64, 1, 100, ONE_DAY / 2, ONE_DAY, 3 * ONE_DAY, 365 * ONE_DAY] {
        let r = accumulated_rewards(&info, now).unwrap();
        assert!(r >= last);
        last = r;
    }
    assert_eq!(accumulated_rewards(&info, ONE_DAY), Ok(1_000_000_000));
    assert_eq!(accumulated_rewards(&info, ONE_DAY / 2), Ok(500_000_000));
}

#[test]
fn ten_day_reward_on_large_principal() {
    let info = StakeInfo { amount: 1_000_000_000_000, timestamp: 0 };
    assert_eq!(accumulated_rewards(&info, 10 * ONE_DAY), Ok(10_000_000_000));
    let later = StakeInfo { amount: 1_000_000_000_000, timestamp: 5_000 };
    assert_eq!(accumulated_rewards(&later, 5_000 + 10 * ONE_DAY), Ok(10_000_000_000));
}

#[test]
fn reward_floors_on_small_principal() {
    let info = StakeInfo { amount: 100, timestamp: 0 };
    assert_eq!(accumulated_rewards(&info, ONE_DAY), Ok(0));
    let info = StakeInfo { amount: 1_000, timestamp: 0 };
    assert_eq!(accumulated_rewards(&info, ONE_DAY), Ok(1));
    assert_eq!(accumulated_rewards(&info, ONE_DAY - 1), Ok(0));
}

#[test]
fn rewards_with_clock_before_timestamp_fail() {
    let info = StakeInfo { amount: 100, timestamp: 10 };
    assert_eq!(accumulated_rewards(&info, 9), Err(StakingError::ArithmeticOverflow));
}

#[test]
fn rewards_overflow_is_reported() {
    let info = StakeInfo { amount: u128::MAX / 1_000, timestamp: 0 };
    assert_eq!(accumulated_rewards(&info, 0), Err(StakingError::ArithmeticOverflow));
    let info = StakeInfo { amount: u128::MAX / 2_000_000, timestamp: 0 };
    assert_eq!(accumulated_rewards(&info, 0), Ok(0));
    assert_eq!(accumulated_rewards(&info, 3), Err(StakingError::ArithmeticOverflow));
}

#[test]
fn stake_then_unstake_round_trip() {
    let mut ledger = StakingData::new(TOKEN);
    let deposit = ledger.stake_impl(ALICE, 777, 50).unwrap();
    assert_eq!(deposit.transfer, TransferRequest::Deposit { token: TOKEN, from: ALICE, amount: 777 });
    assert_eq!(ledger.settle(deposit, Ok(())), Ok(()));
    let withdrawal = ledger.unstake_impl(ALICE, 777, 50).unwrap().unwrap();
    assert_eq!(
        withdrawal,
        Settlement {
            account: ALICE,
            record: None,
            transfer: TransferRequest::Withdraw { token: TOKEN, to: ALICE, amount: 777 },
        }
    );
    assert_eq!(ledger.settle(withdrawal, Ok(())), Ok(()));
    assert_eq!(ledger.stake_of(&ALICE), None);
}

#[test]
fn unstake_all_available_removes_record() {
    let mut ledger = StakingData::new(TOKEN);
    staked(&mut ledger, ALICE, 1_000_000_000_000, 0);
    staked(&mut ledger, BOB, 40, 0);
    let available = 1_000_000_000_000 + 10_000_000_000;
    let withdrawal = ledger.unstake_impl(ALICE, available, 10 * ONE_DAY).unwrap().unwrap();
    assert_eq!(withdrawal.record, None);
    assert_eq!(ledger.settle(withdrawal, Ok(())), Ok(()));
    assert_eq!(ledger.stake_of(&ALICE), None);
    assert_eq!(ledger.stake_of(&BOB), Some(StakeInfo { amount: 40, timestamp: 0 }));
}

#[test]
fn unstake_more_than_available_fails() {
    let mut ledger = StakingData::new(TOKEN);
    staked(&mut ledger, ALICE, 1_000_000_000_000, 0);
    let available = 1_000_000_000_000 + 10_000_000_000;
    assert_eq!(
        ledger.unstake_impl(ALICE, available + 1, 10 * ONE_DAY),
        Err(StakingError::GreaterAmountRequested)
    );
    assert_eq!(ledger.stake_of(&ALICE), Some(StakeInfo { amount: 1_000_000_000_000, timestamp: 0 }));
}

#[test]
fn partial_unstake_keeps_remainder_and_resets_clock() {
    let mut ledger = StakingData::new(TOKEN);
    staked(&mut ledger, ALICE, 1_000_000_000_000, 0);
    let withdrawal = ledger.unstake_impl(ALICE, 10_000_000_000, 10 * ONE_DAY).unwrap().unwrap();
    assert_eq!(
        withdrawal.transfer,
        TransferRequest::Withdraw { token: TOKEN, to: ALICE, amount: 10_000_000_000 }
    );
    assert_eq!(ledger.settle(withdrawal, Ok(())), Ok(()));
    assert_eq!(
        ledger.stake_of(&ALICE),
        Some(StakeInfo { amount: 1_000_000_000_000, timestamp: 10 * ONE_DAY })
    );
}

#[test]
fn compounding_after_one_day() {
    let mut ledger = StakingData::new(TOKEN);
    let t0 = 1_000u64;
    staked(&mut ledger, ALICE, 100, t0);
    let settlement = ledger.stake_impl(ALICE, 50, t0 + ONE_DAY).unwrap();
    assert_eq!(settlement.record, Some(StakeInfo { amount: 150, timestamp: t0 + ONE_DAY }));
    assert_eq!(settlement.transfer, TransferRequest::Deposit { token: TOKEN, from: ALICE, amount: 50 });
    assert_eq!(ledger.settle(settlement, Ok(())), Ok(()));
    assert_eq!(ledger.stake_of(&ALICE), Some(StakeInfo { amount: 150, timestamp: t0 + ONE_DAY }));
}

#[test]
fn compounding_folds_interest_into_principal() {
    let mut ledger = StakingData::new(TOKEN);
    staked(&mut ledger, ALICE, 1_000_000_000_000, 0);
    staked(&mut ledger, ALICE, 5, 10 * ONE_DAY);
    assert_eq!(
        ledger.stake_of(&ALICE),
        Some(StakeInfo { amount: 1_010_000_000_005, timestamp: 10 * ONE_DAY })
    );
}

#[test]
fn unstake_without_record_is_noop() {
    let ledger = StakingData::new(TOKEN);
    assert_eq!(ledger.unstake_impl(ALICE, 10, 0), Ok(None));
    let unconfigured = StakingData::default();
    assert_eq!(unconfigured.unstake_impl(ALICE, u128::MAX, 0), Ok(None));
}

#[test]
fn stake_without_token_fails() {
    let ledger = StakingData::default();
    assert_eq!(ledger.token(), None);
    assert_eq!(ledger.stake_impl(ALICE, 10, 0), Err(StakingError::TokenNotSet));
}

#[test]
fn unstake_without_token_fails() {
    let mut ledger = StakingData::default();
    let settlement = Settlement {
        account: ALICE,
        record: Some(StakeInfo { amount: 10, timestamp: 0 }),
        transfer: TransferRequest::Deposit { token: TOKEN, from: ALICE, amount: 10 },
    };
    assert_eq!(ledger.settle(settlement, Ok(())), Ok(()));
    assert_eq!(ledger.unstake_impl(ALICE, 5, 0), Err(StakingError::TokenNotSet));
}

#[test]
fn refused_transfer_leaves_ledger_unchanged() {
    let mut ledger = StakingData::new(TOKEN);
    staked(&mut ledger, ALICE, 100, 0);
    let settlement = ledger.stake_impl(ALICE, 50, 0).unwrap();
    assert_eq!(
        ledger.settle(settlement, Err(TransferError::InsufficientAllowance)),
        Err(StakingError::TransferFailed(TransferError::InsufficientAllowance))
    );
    assert_eq!(ledger.stake_of(&ALICE), Some(StakeInfo { amount: 100, timestamp: 0 }));
    let withdrawal = ledger.unstake_impl(ALICE, 100, 0).unwrap().unwrap();
    assert_eq!(
        ledger.settle(withdrawal, Err(TransferError::InsufficientBalance)),
        Err(StakingError::TransferFailed(TransferError::InsufficientBalance))
    );
    assert_eq!(ledger.stake_of(&ALICE), Some(StakeInfo { amount: 100, timestamp: 0 }));
}

#[test]
fn balance_overflow_is_reported() {
    let mut ledger = StakingData::new(TOKEN);
    staked(&mut ledger, ALICE, 1_000, 0);
    assert_eq!(ledger.stake_impl(ALICE, u128::MAX, 0), Err(StakingError::ArithmeticOverflow));
    assert_eq!(ledger.stake_impl(ALICE, 5, 0).map(|s| s.record), Ok(Some(StakeInfo { amount: 1_005, timestamp: 0 })));
}

#[test]
fn contract_delegates_to_its_ledger() {
    let mut contract = StakingContract::new(TOKEN);
    assert_eq!(contract.staking.token(), Some(TOKEN));
    let deposit = contract.stake(BOB, 300, 0).unwrap();
    assert_eq!(contract.staking.settle(deposit, Ok(())), Ok(()));
    assert_eq!(contract.unstake(BOB, 301, 0), Err(StakingError::GreaterAmountRequested));
    let withdrawal = contract.unstake(BOB, 100, 0).unwrap().unwrap();
    assert_eq!(withdrawal.record, Some(StakeInfo { amount: 200, timestamp: 0 }));
    assert_eq!(contract.unstake(ALICE, 1, 0), Ok(None));
}
