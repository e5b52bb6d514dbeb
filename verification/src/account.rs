//! Client accounts and the record of past transactions.

use crate::error::EngineError;
use crate::types::{
    SignedDecimal, UnsignedDecimal, signed_minus, signed_plus, unsigned_minus, unsigned_plus,
};
use vstd::prelude::*;

verus! {

/// Balance and status of one client.
#[derive(Clone, Copy, Debug)]
pub struct Account {
    pub client: u16,
    /// Funds that can be withdrawn.
    pub available: SignedDecimal,
    /// Funds held back by open disputes.
    pub held: UnsignedDecimal,
    /// `available + held`.
    pub total: SignedDecimal,
    /// Set by a chargeback; a locked account takes no deposit or withdrawal.
    pub locked: bool,
}

/// A fresh account: no funds, not locked.
pub open spec fn fresh_account(client: u16) -> Account {
    Account {
        client,
        available: SignedDecimal { negative: false, coefficient: 0, scale: 0 },
        held: UnsignedDecimal { coefficient: 0, scale: 0 },
        total: SignedDecimal { negative: false, coefficient: 0, scale: 0 },
        locked: false,
    }
}

/// The account's total is its available plus its held funds.
pub open spec fn balanced(a: Account) -> bool {
    a.total@ == a.available@ + a.held@
}

/// A deposit of `amount` into `a`: refused while the account is locked,
/// otherwise available and total both grow by `amount` (refused as an
/// overflow when a sum overflows).
pub open spec fn deposit_result(a: Account, amount: UnsignedDecimal) -> Result<Account, EngineError> {
    if a.locked {
        Err(EngineError::AccountLocked)
    } else {
        match (signed_plus(a.available, amount), signed_plus(a.total, amount)) {
            (Some(available), Some(total)) => Ok(Account { available, total, ..a }),
            _ => Err(EngineError::Overflow),
        }
    }
}

/// A withdrawal of `amount` from `a`: refused while the account is locked or
/// when less than `amount` is available, otherwise available and total both
/// shrink by `amount` (refused as an overflow when a difference overflows).
pub open spec fn withdraw_result(a: Account, amount: UnsignedDecimal) -> Result<Account, EngineError> {
    if a.locked {
        Err(EngineError::AccountLocked)
    } else if a.available@ < amount@ {
        Err(EngineError::InsufficientFunds)
    } else {
        match (signed_minus(a.available, amount), signed_minus(a.total, amount)) {
            (Some(available), Some(total)) => Ok(Account { available, total, ..a }),
            _ => Err(EngineError::Overflow),
        }
    }
}

/// Holding `amount` of `a` for a dispute: a locked account is left as it is;
/// otherwise `amount` moves from available (which may go negative) to held,
/// or the hold is refused as an overflow.
pub open spec fn hold_result(a: Account, amount: UnsignedDecimal) -> Result<Account, EngineError> {
    if a.locked {
        Ok(a)
    } else {
        match (signed_minus(a.available, amount), unsigned_plus(a.held, amount)) {
            (Some(available), Some(held)) => Ok(Account { available, held, ..a }),
            _ => Err(EngineError::Overflow),
        }
    }
}

/// Releasing `amount` of held funds of `a` after a resolved dispute: a locked
/// account, or one holding less than `amount`, is left as it is; otherwise
/// `amount` moves from held back to available, or the release is refused as
/// an overflow.
pub open spec fn release_result(a: Account, amount: UnsignedDecimal) -> Result<Account, EngineError> {
    if a.locked || a.held@ < amount@ {
        Ok(a)
    } else {
        match (signed_plus(a.available, amount), unsigned_minus(a.held, amount)) {
            (Some(available), Some(held)) => Ok(Account { available, held, ..a }),
            _ => Err(EngineError::Overflow),
        }
    }
}

/// A chargeback of `amount` on `a`: an account holding less than `amount` is
/// left as it is; otherwise held and total both shrink by `amount` and the
/// account locks, or the chargeback is refused as an overflow.
pub open spec fn chargeback_result(a: Account, amount: UnsignedDecimal) -> Result<Account, EngineError> {
    if a.held@ < amount@ {
        Ok(a)
    } else {
        match (unsigned_minus(a.held, amount), signed_minus(a.total, amount)) {
            (Some(held), Some(total)) => Ok(Account { held, total, locked: true, ..a }),
            _ => Err(EngineError::Overflow),
        }
    }
}

/// `after` is what `result` says the account becomes, and `r` reports the
/// same outcome; a refusal leaves the account as `before`.
pub open spec fn follows(
    before: Account,
    after: Account,
    r: Result<(), EngineError>,
    result: Result<Account, EngineError>,
) -> bool {
    match result {
        Ok(a) => r is Ok && after == a,
        Err(e) => r == Err::<(), EngineError>(e) && after == before,
    }
}

impl Account {
    /// A fresh account for `client_id`.
    pub fn new(client_id: u16) -> (a: Account)
        ensures
            a == fresh_account(client_id),
    {
        Account {
            client: client_id,
            available: SignedDecimal::zero(),
            held: UnsignedDecimal::zero(),
            total: SignedDecimal::zero(),
            locked: false,
        }
    }

    /// Deposits `amount`; refused on a locked account.
    pub fn deposit(&mut self, amount: UnsignedDecimal) -> (r: Result<(), EngineError>)
        ensures
            follows(*old(self), *final(self), r, deposit_result(*old(self), amount)),
    {
        if self.locked {
            return Err(EngineError::AccountLocked);
        }
        match (self.available.checked_add(amount), self.total.checked_add(amount)) {
            (Some(available), Some(total)) => {
                self.available = available;
                self.total = total;
                Ok(())
            },
            _ => Err(EngineError::Overflow),
        }
    }

    /// Withdraws `amount`; refused on a locked account or when less is
    /// available.
    pub fn withdraw(&mut self, amount: UnsignedDecimal) -> (r: Result<(), EngineError>)
        ensures
            follows(*old(self), *final(self), r, withdraw_result(*old(self), amount)),
    {
        if self.locked {
            return Err(EngineError::AccountLocked);
        }
        if !self.available.covers(amount) {
            return Err(EngineError::InsufficientFunds);
        }
        match (self.available.checked_sub(amount), self.total.checked_sub(amount)) {
            (Some(available), Some(total)) => {
                self.available = available;
                self.total = total;
                Ok(())
            },
            _ => Err(EngineError::Overflow),
        }
    }

    /// Holds `amount` for a dispute, unless the account is locked.
    pub fn hold_funds(&mut self, amount: UnsignedDecimal) -> (r: Result<(), EngineError>)
        ensures
            follows(*old(self), *final(self), r, hold_result(*old(self), amount)),
    {
        if self.locked {
            return Ok(());
        }
        match (self.available.checked_sub(amount), self.held.checked_add(amount)) {
            (Some(available), Some(held)) => {
                self.available = available;
                self.held = held;
                Ok(())
            },
            _ => Err(EngineError::Overflow),
        }
    }

    /// Releases `amount` of held funds after a resolved dispute, unless the
    /// account is locked or holds less.
    pub fn release_funds(&mut self, amount: UnsignedDecimal) -> (r: Result<(), EngineError>)
        ensures
            follows(*old(self), *final(self), r, release_result(*old(self), amount)),
    {
        if self.locked || !self.held.covers(amount) {
            return Ok(());
        }
        match (self.available.checked_add(amount), self.held.checked_sub(amount)) {
            (Some(available), Some(held)) => {
                self.available = available;
                self.held = held;
                Ok(())
            },
            _ => Err(EngineError::Overflow),
        }
    }

    /// Charges back `amount` of held funds and locks the account, unless it
    /// holds less.
    pub fn chargeback(&mut self, amount: UnsignedDecimal) -> (r: Result<(), EngineError>)
        ensures
            follows(*old(self), *final(self), r, chargeback_result(*old(self), amount)),
    {
        if !self.held.covers(amount) {
            return Ok(());
        }
        match (self.held.checked_sub(amount), self.total.checked_sub(amount)) {
            (Some(held), Some(total)) => {
                self.held = held;
                self.total = total;
                self.locked = true;
                Ok(())
            },
            _ => Err(EngineError::Overflow),
        }
    }
}

/// The kind of a recorded transaction.
#[derive(Clone, Copy, Debug, PartialEq, Eq, Structural)]
pub enum TransactionType {
    Deposit,
    Withdrawal,
}

/// A recorded deposit or withdrawal, kept for later disputes.
#[derive(Clone, Copy, Debug)]
pub struct StoredTransaction {
    pub tx_id: u32,
    pub client_id: u16,
    pub tx_type: TransactionType,
    pub amount: UnsignedDecimal,
    /// Whether the transaction is under dispute.
    pub disputed: bool,
}

impl StoredTransaction {
    /// A record of a transaction that is not under dispute.
    pub fn new(tx_id: u32, client_id: u16, tx_type: TransactionType, amount: UnsignedDecimal) -> (t:
        StoredTransaction)
        ensures
            t == (StoredTransaction { tx_id, client_id, tx_type, amount, disputed: false }),
    {
        StoredTransaction { tx_id, client_id, tx_type, amount, disputed: false }
    }
}

} // verus!
