//! Why a transaction was refused.

use vstd::prelude::*;

verus! {

/// The reason a transaction was not applied. A refused transaction leaves the
/// engine unchanged.
#[derive(Clone, Copy, Debug, PartialEq, Eq, Structural)]
pub enum EngineError {
    /// A deposit or withdrawal of zero.
    ZeroAmount,
    /// A deposit or withdrawal whose transaction id is already recorded.
    DuplicateTransaction,
    /// The client has no account.
    AccountNotFound,
    /// The client's account is locked.
    AccountLocked,
    /// A withdrawal of more than the available funds.
    InsufficientFunds,
    /// The referenced transaction is not recorded.
    TransactionNotFound,
    /// The referenced transaction belongs to another client.
    ClientMismatch,
    /// Only deposits can be disputed.
    NotDisputable,
    /// The referenced transaction is already under dispute.
    AlreadyDisputed,
    /// The referenced transaction is not under dispute.
    NotDisputed,
    /// A sum or difference of amounts overflows the decimal range.
    Overflow,
}

} // verus!
