use vstd::prelude::*;

verus! {

/// Why the fungible-token collaborator refused a transfer.
#[derive(Clone, Debug, PartialEq, Eq)]
pub enum TransferError {
    Custom(String),
    InsufficientBalance,
    InsufficientAllowance,
    ZeroRecipientAddress,
    ZeroSenderAddress,
    SafeTransferCheckFailed(String),
}

/// Errors reported by the staking ledger.
#[derive(Clone, Debug, PartialEq, Eq)]
pub enum StakingError {
    /// The token reference was never configured.
    TokenNotSet,
    /// An unstake asked for more than principal plus accrued interest.
    GreaterAmountRequested,
    /// The collaborator rejected the token movement.
    TransferFailed(TransferError),
    /// Interest or balance computation left the representable range
    /// (this includes a clock that reads earlier than a record's timestamp).
    ArithmeticOverflow,
}

} // verus!
