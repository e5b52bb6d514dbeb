//! Payments processing engine for deposits, withdrawals, disputes and chargebacks.
//!
//! Transactions are applied one at a time to a ledger of client accounts and
//! recorded deposits and withdrawals. A transaction that cannot be applied is
//! refused with an [`EngineError`] and leaves the ledger unchanged.

pub mod account;
pub mod error;
pub mod laws;
pub mod transaction;
pub mod types;

use account::{
    Account, StoredTransaction, TransactionType, chargeback_result, deposit_result, fresh_account,
    hold_result, release_result, withdraw_result,
};
use error::EngineError;
use std::collections::HashMap;
use transaction::InputTransaction;
use vstd::prelude::*;

verus! {

/// The mathematical state of the engine: accounts by client and recorded
/// transactions by id.
pub struct Ledger {
    pub accounts: Map<u16, Account>,
    pub transactions: Map<u32, StoredTransaction>,
}

/// The payments engine.
pub struct PaymentsEngine {
    pub accounts: HashMap<u16, Account>,
    pub transactions: HashMap<u32, StoredTransaction>,
}

impl View for PaymentsEngine {
    type V = Ledger;

    open spec fn view(&self) -> Ledger {
        Ledger { accounts: self.accounts@, transactions: self.transactions@ }
    }
}

/// No accounts and no recorded transactions.
pub open spec fn empty_ledger() -> Ledger {
    Ledger { accounts: Map::empty(), transactions: Map::empty() }
}

/// The ledger after processing `inputs` in order, each refused transaction
/// leaving the ledger as it was.
pub open spec fn run(l: Ledger, inputs: Seq<InputTransaction>) -> Ledger
    decreases inputs.len(),
{
    if inputs.len() == 0 {
        l
    } else {
        let before = run(l, inputs.drop_last());
        match apply(before, inputs.last()) {
            Ok(after) => after,
            Err(_) => before,
        }
    }
}

/// The account of `client`, or a fresh one when the client has none yet.
pub open spec fn account_or_fresh(l: Ledger, client: u16) -> Account {
    if l.accounts.contains_key(client) {
        l.accounts[client]
    } else {
        fresh_account(client)
    }
}

/// The ledger with `client`'s account set to `a` and transaction `tx` set to
/// `t`.
pub open spec fn ledger_with(l: Ledger, client: u16, a: Account, tx: u32, t: StoredTransaction) -> Ledger {
    Ledger {
        accounts: l.accounts.insert(client, a),
        transactions: l.transactions.insert(tx, t),
    }
}

/// The effect of a deposit or withdrawal: the account as `result` gives it,
/// and the transaction recorded, not disputed.
pub open spec fn record_result(
    l: Ledger,
    client: u16,
    tx: u32,
    kind: TransactionType,
    amount: types::UnsignedDecimal,
    result: Result<Account, EngineError>,
) -> Result<Ledger, EngineError> {
    match result {
        Ok(a) => Ok(
            ledger_with(
                l,
                client,
                a,
                tx,
                StoredTransaction { tx_id: tx, client_id: client, tx_type: kind, amount, disputed: false },
            ),
        ),
        Err(e) => Err(e),
    }
}

/// The effect of a dispute, resolve or chargeback on recorded transaction
/// `tx`: the account as `result` gives it, and the transaction's dispute flag
/// set to `disputed`.
pub open spec fn settle_result(
    l: Ledger,
    client: u16,
    tx: u32,
    disputed: bool,
    result: Result<Account, EngineError>,
) -> Result<Ledger, EngineError> {
    match result {
        Ok(a) => Ok(
            ledger_with(l, client, a, tx, StoredTransaction { disputed, ..l.transactions[tx] }),
        ),
        Err(e) => Err(e),
    }
}

/// Why `client` may not act on recorded transaction `tx`, if it may not:
/// the transaction must be recorded and belong to `client`.
pub open spec fn reference_error(l: Ledger, client: u16, tx: u32) -> Option<EngineError> {
    if !l.transactions.contains_key(tx) {
        Some(EngineError::TransactionNotFound)
    } else if l.transactions[tx].client_id != client {
        Some(EngineError::ClientMismatch)
    } else {
        None
    }
}

/// The ledger after `input`, or why `input` is refused.
///
/// - A deposit of a positive amount under a new transaction id credits the
///   client's account, opening it when needed, and records the deposit.
/// - A withdrawal of a positive amount under a new transaction id debits an
///   existing account that has enough available funds, and records the
///   withdrawal.
/// - A dispute of a recorded, undisputed deposit of the same client marks it
///   disputed and holds its amount, unless the account is locked.
/// - A resolve of a disputed transaction of the same client clears the mark
///   and releases its amount, unless the account is locked or holds less.
/// - A chargeback of a disputed transaction of the same client clears the
///   mark and, unless the account holds less, removes its amount from the
///   account and locks it.
///
/// A dispute, resolve or chargeback for a client without an account acts on
/// a fresh account, which it opens.
pub open spec fn apply(l: Ledger, input: InputTransaction) -> Result<Ledger, EngineError> {
    match input {
        InputTransaction::Deposit { client, tx, amount } => {
            if amount@ == 0 {
                Err(EngineError::ZeroAmount)
            } else if l.transactions.contains_key(tx) {
                Err(EngineError::DuplicateTransaction)
            } else {
                record_result(
                    l,
                    client,
                    tx,
                    TransactionType::Deposit,
                    amount,
                    deposit_result(account_or_fresh(l, client), amount),
                )
            }
        },
        InputTransaction::Withdrawal { client, tx, amount } => {
            if amount@ == 0 {
                Err(EngineError::ZeroAmount)
            } else if l.transactions.contains_key(tx) {
                Err(EngineError::DuplicateTransaction)
            } else if !l.accounts.contains_key(client) {
                Err(EngineError::AccountNotFound)
            } else {
                record_result(
                    l,
                    client,
                    tx,
                    TransactionType::Withdrawal,
                    amount,
                    withdraw_result(l.accounts[client], amount),
                )
            }
        },
        InputTransaction::Dispute { client, tx } => {
            if let Some(e) = reference_error(l, client, tx) {
                Err(e)
            } else if l.transactions[tx].tx_type != TransactionType::Deposit {
                Err(EngineError::NotDisputable)
            } else if l.transactions[tx].disputed {
                Err(EngineError::AlreadyDisputed)
            } else {
                settle_result(
                    l,
                    client,
                    tx,
                    true,
                    hold_result(account_or_fresh(l, client), l.transactions[tx].amount),
                )
            }
        },
        InputTransaction::Resolve { client, tx } => {
            if let Some(e) = reference_error(l, client, tx) {
                Err(e)
            } else if !l.transactions[tx].disputed {
                Err(EngineError::NotDisputed)
            } else {
                settle_result(
                    l,
                    client,
                    tx,
                    false,
                    release_result(account_or_fresh(l, client), l.transactions[tx].amount),
                )
            }
        },
        InputTransaction::Chargeback { client, tx } => {
            if let Some(e) = reference_error(l, client, tx) {
                Err(e)
            } else if !l.transactions[tx].disputed {
                Err(EngineError::NotDisputed)
            } else {
                settle_result(
                    l,
                    client,
                    tx,
                    false,
                    chargeback_result(account_or_fresh(l, client), l.transactions[tx].amount),
                )
            }
        },
    }
}

/// The accounts of `m` in ascending order of client id.
pub open spec fn accounts_in_order(m: Map<u16, Account>) -> Seq<Account> {
    client_ids(65536).filter_map(|k: u16| if m.contains_key(k) { Some(m[k]) } else { None })
}

/// The client ids below `n`, ascending.
pub open spec fn client_ids(n: nat) -> Seq<u16> {
    Seq::new(n, |i: int| i as u16)
}

impl PaymentsEngine {
    /// An engine with no accounts and no recorded transactions.
    pub fn new() -> (e: PaymentsEngine)
        ensures
            e@ == empty_ledger(),
    {
        PaymentsEngine { accounts: HashMap::new(), transactions: HashMap::new() }
    }

    /// Applies one transaction; on refusal the engine is unchanged.
    pub fn process_transaction(&mut self, input: InputTransaction) -> (r: Result<(), EngineError>)
        ensures
            match apply(old(self)@, input) {
                Ok(l) => r is Ok && final(self)@ == l,
                Err(e) => r == Err::<(), EngineError>(e) && final(self)@ == old(self)@,
            },
    {
        match input {
            InputTransaction::Deposit { client, tx, amount } => {
                if amount.is_zero() {
                    return Err(EngineError::ZeroAmount);
                }
                if self.transactions.contains_key(&tx) {
                    return Err(EngineError::DuplicateTransaction);
                }
                let mut account = match self.accounts.get(&client) {
                    Some(a) => *a,
                    None => Account::new(client),
                };
                account.deposit(amount)?;
                self.accounts.insert(client, account);
                self.transactions.insert(
                    tx,
                    StoredTransaction::new(tx, client, TransactionType::Deposit, amount),
                );
                Ok(())
            },
            InputTransaction::Withdrawal { client, tx, amount } => {
                if amount.is_zero() {
                    return Err(EngineError::ZeroAmount);
                }
                if self.transactions.contains_key(&tx) {
                    return Err(EngineError::DuplicateTransaction);
                }
                let mut account = match self.accounts.get(&client) {
                    Some(a) => *a,
                    None => {
                        return Err(EngineError::AccountNotFound);
                    },
                };
                account.withdraw(amount)?;
                self.accounts.insert(client, account);
                self.transactions.insert(
                    tx,
                    StoredTransaction::new(tx, client, TransactionType::Withdrawal, amount),
                );
                Ok(())
            },
            InputTransaction::Dispute { client, tx } => {
                let mut record = self.referenced(client, tx)?;
                if record.tx_type != TransactionType::Deposit {
                    return Err(EngineError::NotDisputable);
                }
                if record.disputed {
                    return Err(EngineError::AlreadyDisputed);
                }
                let mut account = match self.accounts.get(&client) {
                    Some(a) => *a,
                    None => Account::new(client),
                };
                account.hold_funds(record.amount)?;
                record.disputed = true;
                self.accounts.insert(client, account);
                self.transactions.insert(tx, record);
                Ok(())
            },
            InputTransaction::Resolve { client, tx } => {
                let mut record = self.referenced(client, tx)?;
                if !record.disputed {
                    return Err(EngineError::NotDisputed);
                }
                let mut account = match self.accounts.get(&client) {
                    Some(a) => *a,
                    None => Account::new(client),
                };
                account.release_funds(record.amount)?;
                record.disputed = false;
                self.accounts.insert(client, account);
                self.transactions.insert(tx, record);
                Ok(())
            },
            InputTransaction::Chargeback { client, tx } => {
                let mut record = self.referenced(client, tx)?;
                if !record.disputed {
                    return Err(EngineError::NotDisputed);
                }
                let mut account = match self.accounts.get(&client) {
                    Some(a) => *a,
                    None => Account::new(client),
                };
                account.chargeback(record.amount)?;
                record.disputed = false;
                self.accounts.insert(client, account);
                self.transactions.insert(tx, record);
                Ok(())
            },
        }
    }

    /// The recorded transaction `tx`, when it belongs to `client`.
    fn referenced(&self, client: u16, tx: u32) -> (r: Result<StoredTransaction, EngineError>)
        ensures
            match reference_error(self@, client, tx) {
                Some(e) => r == Err::<StoredTransaction, EngineError>(e),
                None => r == Ok::<StoredTransaction, EngineError>(self@.transactions[tx]),
            },
    {
        match self.transactions.get(&tx) {
            Some(t) => {
                if t.client_id == client {
                    Ok(*t)
                } else {
                    Err(EngineError::ClientMismatch)
                }
            },
            None => Err(EngineError::TransactionNotFound),
        }
    }

    /// All accounts, in ascending order of client id.
    pub fn get_accounts(&self) -> (v: Vec<Account>)
        ensures
            v@ == accounts_in_order(self@.accounts),
    {
        let mut v: Vec<Account> = Vec::new();
        let mut i: u32 = 0;
        while i < 65536
            invariant
                i <= 65536,
                v@ == client_ids(i as nat).filter_map(
                    |k: u16| if self@.accounts.contains_key(k) { Some(self@.accounts[k]) } else { None },
                ),
            decreases 65536 - i,
        {
            let key: u16 = i as u16;
            proof {
                assert(client_ids((i + 1) as nat).drop_last() =~= client_ids(i as nat));
            }
            match self.accounts.get(&key) {
                Some(a) => {
                    v.push(*a);
                },
                None => {},
            }
            i = i + 1;
        }
        v
    }
}

impl Default for PaymentsEngine {
    fn default() -> (e: PaymentsEngine)
        ensures
            e@ == empty_ledger(),
    {
        PaymentsEngine::new()
    }
}

} // verus!
