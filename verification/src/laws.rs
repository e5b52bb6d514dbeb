//! Properties of the engine that hold across transactions.
//!
//! Sums and differences of amounts are exact unless their 128-bit
//! coefficients overflow, in which case fastnum rounds them; the laws about
//! balances are stated for the transactions whose arithmetic is exact.

use crate::account::{
    Account, StoredTransaction, TransactionType, balanced, chargeback_result, deposit_result,
    fresh_account, hold_result, release_result, withdraw_result,
};
use crate::transaction::{InputTransaction, client_of, tx_of};
use crate::types::{UnsignedDecimal, adds_exactly, as_signed, lemma_exact_sum_undo, negated, subtracts_exactly};
use crate::{Ledger, account_or_fresh, accounts_in_order, apply, client_ids, empty_ledger, run};
use vstd::prelude::*;

verus! {

broadcast use crate::types::group_decimal_values;

/// A consistent ledger: every account is filed under its own client id;
/// every recorded transaction is filed under its own id, belongs to a client
/// with an account, and is a deposit if it is under dispute.
pub open spec fn ledger_wf(l: Ledger) -> bool {
    &&& forall|c: u16| #[trigger] l.accounts.contains_key(c) ==> l.accounts[c].client == c
    &&& forall|t: u32| #[trigger]
        l.transactions.contains_key(t) ==> {
            let r = l.transactions[t];
            &&& r.tx_id == t
            &&& l.accounts.contains_key(r.client_id)
            &&& r.disputed ==> r.tx_type == TransactionType::Deposit
        }
}

/// Every account's total is its available plus its held funds.
pub open spec fn accounts_balanced(l: Ledger) -> bool {
    forall|c: u16| #[trigger] l.accounts.contains_key(c) ==> balanced(l.accounts[c])
}

/// Holding `amount` of `a` computes exactly.
pub open spec fn hold_exact(a: Account, amount: UnsignedDecimal) -> bool {
    subtracts_exactly(a.available, amount) && adds_exactly(as_signed(a.held), amount)
}

/// Every sum and difference that `input` computes on its client's account is
/// exact.
pub open spec fn step_exact(l: Ledger, input: InputTransaction) -> bool {
    let a = account_or_fresh(l, client_of(input));
    match input {
        InputTransaction::Deposit { amount, .. } => adds_exactly(a.available, amount) && adds_exactly(a.total, amount),
        InputTransaction::Withdrawal { amount, .. } => subtracts_exactly(a.available, amount)
            && subtracts_exactly(a.total, amount),
        InputTransaction::Dispute { tx, .. } => hold_exact(a, l.transactions[tx].amount),
        InputTransaction::Resolve { tx, .. } => adds_exactly(a.available, l.transactions[tx].amount)
            && subtracts_exactly(as_signed(a.held), l.transactions[tx].amount),
        InputTransaction::Chargeback { tx, .. } => subtracts_exactly(
            as_signed(a.held),
            l.transactions[tx].amount,
        ) && subtracts_exactly(a.total, l.transactions[tx].amount),
    }
}

/// Every step of processing `inputs` from `l` computes exactly.
pub open spec fn run_exact(l: Ledger, inputs: Seq<InputTransaction>) -> bool
    decreases inputs.len(),
{
    inputs.len() == 0 || (run_exact(l, inputs.drop_last()) && step_exact(
        run(l, inputs.drop_last()),
        inputs.last(),
    ))
}

/// The empty ledger is consistent and balanced.
pub proof fn lemma_empty_ledger_wf()
    ensures
        ledger_wf(empty_ledger()),
        accounts_balanced(empty_ledger()),
{
}

/// A fresh account is balanced.
proof fn lemma_fresh_balanced(c: u16)
    ensures
        balanced(fresh_account(c)),
{
    let a = fresh_account(c);
    assert(a.available@ == 0 * crate::types::magnify(0));
}

/// Each account operation keeps an account's client id, and keeps it
/// balanced when it computes exactly.
proof fn lemma_operations_keep_balance(a: Account, amount: UnsignedDecimal)
    requires
        balanced(a),
    ensures
        deposit_result(a, amount) matches Ok(b) ==> b.client == a.client && (adds_exactly(a.available, amount)
            && adds_exactly(a.total, amount) ==> balanced(b)),
        withdraw_result(a, amount) matches Ok(b) ==> b.client == a.client && (subtracts_exactly(
            a.available,
            amount,
        ) && subtracts_exactly(a.total, amount) ==> balanced(b)),
        hold_result(a, amount) matches Ok(b) ==> b.client == a.client && (hold_exact(a, amount) ==> balanced(b)),
        release_result(a, amount) matches Ok(b) ==> b.client == a.client && (adds_exactly(a.available, amount)
            && subtracts_exactly(as_signed(a.held), amount) ==> balanced(b)),
        chargeback_result(a, amount) matches Ok(b) ==> b.client == a.client && (subtracts_exactly(
            as_signed(a.held),
            amount,
        ) && subtracts_exactly(a.total, amount) ==> balanced(b)),
{
    assert(as_signed(a.held)@ == a.held@);
}

/// Every applied transaction keeps the ledger consistent.
pub proof fn lemma_apply_keeps_wf(l: Ledger, input: InputTransaction)
    requires
        ledger_wf(l),
        apply(l, input) is Ok,
    ensures
        ledger_wf(apply(l, input)->Ok_0),
{
    let l2 = apply(l, input)->Ok_0;
    let owner = client_of(input);
    assert forall|c: u16| #[trigger] l2.accounts.contains_key(c) implies l2.accounts[c].client == c by {
        if c != owner {
            assert(l2.accounts[c] == l.accounts[c]);
        }
    }
}

/// Every applied transaction whose arithmetic is exact keeps every account's
/// total equal to its available plus its held funds.
pub proof fn lemma_apply_keeps_balance(l: Ledger, input: InputTransaction)
    requires
        accounts_balanced(l),
        step_exact(l, input),
        apply(l, input) is Ok,
    ensures
        accounts_balanced(apply(l, input)->Ok_0),
{
    let l2 = apply(l, input)->Ok_0;
    let owner = client_of(input);
    let base = account_or_fresh(l, owner);
    lemma_fresh_balanced(owner);
    match input {
        InputTransaction::Deposit { amount, .. } => lemma_operations_keep_balance(base, amount),
        InputTransaction::Withdrawal { amount, .. } => lemma_operations_keep_balance(base, amount),
        InputTransaction::Dispute { tx, .. } => lemma_operations_keep_balance(base, l.transactions[tx].amount),
        InputTransaction::Resolve { tx, .. } => lemma_operations_keep_balance(base, l.transactions[tx].amount),
        InputTransaction::Chargeback { tx, .. } => lemma_operations_keep_balance(base, l.transactions[tx].amount),
    }
    assert forall|c: u16| #[trigger] l2.accounts.contains_key(c) implies balanced(l2.accounts[c]) by {
        if c != owner {
            assert(l2.accounts[c] == l.accounts[c]);
        }
    }
}

/// Accounts are never closed and a locked account stays locked.
pub proof fn lemma_locked_stays_locked(l: Ledger, input: InputTransaction, c: u16)
    requires
        apply(l, input) is Ok,
        l.accounts.contains_key(c),
    ensures
        apply(l, input)->Ok_0.accounts.contains_key(c),
        l.accounts[c].locked ==> apply(l, input)->Ok_0.accounts[c].locked,
{
}

/// A locked account takes no deposit and no withdrawal.
pub proof fn lemma_locked_refuses_funds(l: Ledger, c: u16, tx: u32, amount: UnsignedDecimal)
    requires
        l.accounts.contains_key(c),
        l.accounts[c].locked,
    ensures
        apply(l, InputTransaction::Deposit { client: c, tx, amount }) is Err,
        apply(l, InputTransaction::Withdrawal { client: c, tx, amount }) is Err,
{
}

/// A transaction id that is already recorded is refused for a new deposit or
/// withdrawal.
pub proof fn lemma_duplicate_id_refused(
    l: Ledger,
    c: u16,
    tx: u32,
    amount: UnsignedDecimal,
)
    requires
        l.transactions.contains_key(tx),
    ensures
        apply(l, InputTransaction::Deposit { client: c, tx, amount }) is Err,
        apply(l, InputTransaction::Withdrawal { client: c, tx, amount }) is Err,
{
}

/// Only deposits can be disputed.
pub proof fn lemma_only_deposits_disputed(l: Ledger, c: u16, tx: u32)
    requires
        apply(l, InputTransaction::Dispute { client: c, tx }) is Ok,
    ensures
        l.transactions.contains_key(tx),
        l.transactions[tx].tx_type == TransactionType::Deposit,
{
}

/// In a consistent ledger only deposits can be resolved or charged back,
/// since only deposits are ever under dispute.
pub proof fn lemma_only_deposits_settled(l: Ledger, input: InputTransaction)
    requires
        ledger_wf(l),
        input is Resolve || input is Chargeback,
        apply(l, input) is Ok,
    ensures
        l.transactions.contains_key(tx_of(input)),
        l.transactions[tx_of(input)].tx_type == TransactionType::Deposit,
{
}

/// Holding funds for a dispute and then releasing them gives back the
/// account: the same client and lock, and the same available, held and
/// total funds. A locked account is left as it is by both; on an unlocked
/// one the law is stated when holding computes exactly, as releasing then
/// does too.
pub proof fn lemma_hold_then_release(a: Account, amount: UnsignedDecimal)
    requires
        a.locked || hold_exact(a, amount),
    ensures
        hold_result(a, amount) is Ok,
        release_result(hold_result(a, amount)->Ok_0, amount) is Ok,
        ({
            let b = release_result(hold_result(a, amount)->Ok_0, amount)->Ok_0;
            &&& b.client == a.client && b.locked == a.locked
            &&& b.available@ == a.available@ && b.held@ == a.held@ && b.total == a.total
        }),
{
    if !a.locked {
        let h = hold_result(a, amount)->Ok_0;
        lemma_exact_sum_undo(a.available, negated(as_signed(amount)));
        assert(negated(negated(as_signed(amount))) == as_signed(amount));
        lemma_exact_sum_undo(as_signed(a.held), as_signed(amount));
        assert(as_signed(h.held) == crate::types::exact_sum(as_signed(a.held), as_signed(amount))->Some_0);
        assert(adds_exactly(h.available, amount));
        assert(subtracts_exactly(as_signed(h.held), amount));
        assert(h.held@ >= amount@);
    }
}

/// Resolving a dispute undoes it: the recorded transactions are exactly as
/// before the dispute, every other account is unchanged, and the client's
/// account denotes the same balances, with the same lock. On an unlocked
/// account this is stated when holding the disputed amount computes exactly.
pub proof fn lemma_resolve_undoes_dispute(l: Ledger, c: u16, tx: u32)
    requires
        l.accounts.contains_key(c),
        apply(l, InputTransaction::Dispute { client: c, tx }) is Ok,
        l.accounts[c].locked || hold_exact(l.accounts[c], l.transactions[tx].amount),
    ensures
        apply(apply(l, InputTransaction::Dispute { client: c, tx })->Ok_0, InputTransaction::Resolve { client: c, tx }) is Ok,
        ({
            let l2 = apply(apply(l, InputTransaction::Dispute { client: c, tx })->Ok_0, InputTransaction::Resolve { client: c, tx })->Ok_0;
            let a = l.accounts[c];
            let a2 = l2.accounts[c];
            &&& l2.transactions == l.transactions
            &&& l2.accounts.dom() == l.accounts.dom()
            &&& forall|k: u16| k != c && #[trigger] l.accounts.contains_key(k) ==> l2.accounts[k] == l.accounts[k]
            &&& a2.client == a.client && a2.locked == a.locked
            &&& a2.available@ == a.available@ && a2.held@ == a.held@ && a2.total@ == a.total@
        }),
{
    lemma_hold_then_release(l.accounts[c], l.transactions[tx].amount);
    let l1 = apply(l, InputTransaction::Dispute { client: c, tx })->Ok_0;
    let l2 = apply(l1, InputTransaction::Resolve { client: c, tx })->Ok_0;
    assert(l2.transactions[tx] == l.transactions[tx]);
    assert(l2.transactions =~= l.transactions);
    assert(l2.accounts.dom() =~= l.accounts.dom());
}

/// A dispute followed by a chargeback on an unlocked account takes the
/// disputed amount out of the account's total, leaves its available and held
/// funds as they were before the dispute, and locks the account; stated when
/// holding the amount and taking it from the total compute exactly.
pub proof fn lemma_chargeback_after_dispute(l: Ledger, c: u16, tx: u32)
    requires
        l.accounts.contains_key(c),
        !l.accounts[c].locked,
        apply(l, InputTransaction::Dispute { client: c, tx }) is Ok,
        hold_exact(l.accounts[c], l.transactions[tx].amount),
        subtracts_exactly(l.accounts[c].total, l.transactions[tx].amount),
    ensures
        apply(apply(l, InputTransaction::Dispute { client: c, tx })->Ok_0, InputTransaction::Chargeback { client: c, tx }) is Ok,
        ({
            let before = l.accounts[c];
            let after = apply(apply(l, InputTransaction::Dispute { client: c, tx })->Ok_0, InputTransaction::Chargeback { client: c, tx })->Ok_0.accounts[c];
            &&& after.total@ == before.total@ - l.transactions[tx].amount@
            &&& after.available@ == before.available@ - l.transactions[tx].amount@
            &&& after.held@ == before.held@
            &&& after.locked
        }),
{
    let a = l.accounts[c];
    let amount = l.transactions[tx].amount;
    let h = hold_result(a, amount)->Ok_0;
    lemma_exact_sum_undo(as_signed(a.held), as_signed(amount));
    assert(as_signed(h.held) == crate::types::exact_sum(as_signed(a.held), as_signed(amount))->Some_0);
    assert(subtracts_exactly(as_signed(h.held), amount));
    assert(h.held@ >= amount@);
}

/// Disputes and resolves move funds between available and held but never
/// change an account's total, nor, when they compute exactly, the sum of its
/// available and held funds.
pub proof fn lemma_disputes_keep_total(l: Ledger, input: InputTransaction, c: u16)
    requires
        apply(l, input) is Ok,
        l.accounts.contains_key(c),
        input is Dispute || input is Resolve,
    ensures
        apply(l, input)->Ok_0.accounts[c].total == l.accounts[c].total,
        step_exact(l, input) ==> apply(l, input)->Ok_0.accounts[c].available@ + apply(l, input)->Ok_0.accounts[c].held@
            == l.accounts[c].available@ + l.accounts[c].held@,
{
    if c == client_of(input) {
        assert(as_signed(l.accounts[c].held)@ == l.accounts[c].held@);
    }
}

/// A transaction changes no account but that of the client it names.
pub proof fn lemma_other_clients_untouched(l: Ledger, input: InputTransaction, c: u16)
    requires
        apply(l, input) is Ok,
        c != client_of(input),
    ensures
        apply(l, input)->Ok_0.accounts.contains_key(c) == l.accounts.contains_key(c),
        l.accounts.contains_key(c) ==> apply(l, input)->Ok_0.accounts[c] == l.accounts[c],
{
}

/// Recorded transactions are never dropped, and only their dispute flag ever
/// changes.
pub proof fn lemma_records_kept(l: Ledger, input: InputTransaction, t: u32)
    requires
        apply(l, input) is Ok,
        l.transactions.contains_key(t),
    ensures
        apply(l, input)->Ok_0.transactions.contains_key(t),
        ({
            let r = l.transactions[t];
            let r2 = apply(l, input)->Ok_0.transactions[t];
            r2.tx_id == r.tx_id && r2.client_id == r.client_id && r2.tx_type == r.tx_type
                && r2.amount == r.amount
        }),
{
}

/// A withdrawal never takes more than is available: after one that computes
/// exactly, the available funds are what they were less the amount, and not
/// negative.
pub proof fn lemma_withdrawal_never_overdraws(l: Ledger, c: u16, tx: u32, amount: UnsignedDecimal)
    requires
        apply(l, InputTransaction::Withdrawal { client: c, tx, amount }) is Ok,
    ensures
        l.accounts.contains_key(c),
        l.accounts[c].available@ >= amount@,
        step_exact(l, InputTransaction::Withdrawal { client: c, tx, amount }) ==> ({
            let after = apply(l, InputTransaction::Withdrawal { client: c, tx, amount })->Ok_0.accounts[c];
            after.available@ == l.accounts[c].available@ - amount@ && after.available@ >= 0
        }),
{
}

/// The accounts of `m` with client id below `n`, ascending, are listed by
/// strictly increasing client id, each as `m` files it, and none is left out.
proof fn lemma_ordered_prefix(m: Map<u16, Account>, n: nat)
    requires
        n <= 65536,
        forall|c: u16| #[trigger] m.contains_key(c) ==> m[c].client == c,
    ensures
        ({
            let s = client_ids(n).filter_map(
                |k: u16| if m.contains_key(k) { Some(m[k]) } else { None },
            );
            &&& forall|i: int| 0 <= i < s.len() ==> (#[trigger] s[i]).client < n
            &&& forall|i: int, j: int| 0 <= i < j < s.len() ==> (#[trigger] s[i]).client < (#[trigger] s[j]).client
            &&& forall|i: int| 0 <= i < s.len() ==> m.contains_key((#[trigger] s[i]).client) && m[s[i].client] == s[i]
            &&& forall|c: u16| c < n && #[trigger] m.contains_key(c) ==> s.contains(m[c])
        }),
    decreases n,
{
    let f = |k: u16| if m.contains_key(k) { Some(m[k]) } else { None };
    if n > 0 {
        lemma_ordered_prefix(m, (n - 1) as nat);
        let ids = client_ids(n);
        assert(ids.drop_last() =~= client_ids((n - 1) as nat));
        assert(ids.last() == (n - 1) as u16);
        let prev = client_ids((n - 1) as nat).filter_map(f);
        let s = ids.filter_map(f);
        let k = (n - 1) as u16;
        if m.contains_key(k) {
            assert(s == prev + seq![m[k]]);
            assert forall|c: u16| c < n && #[trigger] m.contains_key(c) implies s.contains(m[c]) by {
                if c < n - 1 {
                    let i = choose|i: int| 0 <= i < prev.len() && prev[i] == m[c];
                    assert(s[i] == m[c]);
                } else {
                    assert(s[prev.len() as int] == m[c]);
                }
            }
        } else {
            assert(s == prev);
        }
    } else {
        let s = client_ids(0).filter_map(f);
        assert(s.len() == 0);
    }
}

/// `get_accounts` lists every account exactly once, in strictly increasing
/// order of client id, when every account is filed under its own client id.
pub proof fn lemma_accounts_in_order(m: Map<u16, Account>)
    requires
        forall|c: u16| #[trigger] m.contains_key(c) ==> m[c].client == c,
    ensures
        ({
            let s = accounts_in_order(m);
            &&& forall|i: int, j: int| 0 <= i < j < s.len() ==> (#[trigger] s[i]).client < (#[trigger] s[j]).client
            &&& forall|i: int| 0 <= i < s.len() ==> m.contains_key((#[trigger] s[i]).client) && m[s[i].client] == s[i]
            &&& forall|c: u16| #[trigger] m.contains_key(c) ==> s.contains(m[c])
        }),
{
    lemma_ordered_prefix(m, 65536);
}

/// What transaction `t` of `txs` adds to the held funds of client `c`: its
/// amount when it belongs to `c` and is under dispute, nothing otherwise.
pub open spec fn held_share(txs: Map<u32, StoredTransaction>, c: u16, t: u32) -> int {
    if txs.contains_key(t) && txs[t].client_id == c && txs[t].disputed {
        txs[t].amount@
    } else {
        0
    }
}

/// The total of `held_share` over the transaction ids below `n`.
pub open spec fn held_shares_below(txs: Map<u32, StoredTransaction>, c: u16, n: nat) -> int
    decreases n,
{
    if n == 0 {
        0
    } else {
        held_shares_below(txs, c, (n - 1) as nat) + held_share(txs, c, (n - 1) as u32)
    }
}

/// The total amount of client `c`'s transactions that are under dispute.
pub open spec fn disputed_total(txs: Map<u32, StoredTransaction>, c: u16) -> int {
    held_shares_below(txs, c, 0x1_0000_0000)
}

/// Every unlocked account holds exactly the total of its disputed
/// transactions.
pub open spec fn held_matches_disputes(l: Ledger) -> bool {
    forall|c: u16| #[trigger]
        l.accounts.contains_key(c) && !l.accounts[c].locked ==> l.accounts[c].held@
            == disputed_total(l.transactions, c)
}

/// Changing the record of one transaction id `k` changes the total below `n`
/// by the change in that id's share, when `k < n`, and not at all otherwise.
proof fn lemma_shares_after_update(
    txs: Map<u32, StoredTransaction>,
    c: u16,
    n: nat,
    k: u32,
    r: StoredTransaction,
)
    requires
        n <= 0x1_0000_0000,
    ensures
        held_shares_below(txs.insert(k, r), c, n) == held_shares_below(txs, c, n) + if (k as nat)
            < n {
            held_share(txs.insert(k, r), c, k) - held_share(txs, c, k)
        } else {
            0
        },
    decreases n,
{
    if n > 0 {
        lemma_shares_after_update(txs, c, (n - 1) as nat, k, r);
        let j = (n - 1) as u32;
        if j != k {
            assert(held_share(txs.insert(k, r), c, j) == held_share(txs, c, j));
        }
    }
}

/// A client with no recorded transaction has no disputed funds.
proof fn lemma_no_shares(txs: Map<u32, StoredTransaction>, c: u16, n: nat)
    requires
        n <= 0x1_0000_0000,
        forall|t: u32| #[trigger] txs.contains_key(t) ==> txs[t].client_id != c,
    ensures
        held_shares_below(txs, c, n) == 0,
    decreases n,
{
    if n > 0 {
        lemma_no_shares(txs, c, (n - 1) as nat);
        let j = (n - 1) as u32;
        if txs.contains_key(j) {
            assert(txs[j].client_id != c);
        }
    }
}

/// The empty ledger holds nothing.
pub proof fn lemma_empty_ledger_holds_nothing()
    ensures
        held_matches_disputes(empty_ledger()),
{
}

/// One transaction's share is part of the total below `n`.
proof fn lemma_share_within_total(txs: Map<u32, StoredTransaction>, c: u16, n: nat, k: u32)
    requires
        n <= 0x1_0000_0000,
        (k as nat) < n,
    ensures
        held_share(txs, c, k) <= held_shares_below(txs, c, n),
    decreases n,
{
    lemma_shares_nonnegative(txs, c, (n - 1) as nat);
    if (k as nat) < n - 1 {
        lemma_share_within_total(txs, c, (n - 1) as nat, k);
        if txs.contains_key((n - 1) as u32) {
            assert(txs[(n - 1) as u32].amount@ >= 0);
        }
    }
}

/// Totals of shares are never negative.
proof fn lemma_shares_nonnegative(txs: Map<u32, StoredTransaction>, c: u16, n: nat)
    requires
        n <= 0x1_0000_0000,
    ensures
        held_shares_below(txs, c, n) >= 0,
    decreases n,
{
    if n > 0 {
        lemma_shares_nonnegative(txs, c, (n - 1) as nat);
        if txs.contains_key((n - 1) as u32) {
            assert(txs[(n - 1) as u32].amount@ >= 0);
        }
    }
}

/// Every applied transaction whose arithmetic is exact keeps each unlocked
/// account's held funds equal to the total of its disputed transactions.
#[verifier::spinoff_prover]
#[verifier::rlimit(60)]
pub proof fn lemma_apply_keeps_held_matching(l: Ledger, input: InputTransaction)
    requires
        ledger_wf(l),
        held_matches_disputes(l),
        step_exact(l, input),
        apply(l, input) is Ok,
    ensures
        held_matches_disputes(apply(l, input)->Ok_0),
{
    let l2 = apply(l, input)->Ok_0;
    let k = tx_of(input);
    let owner = client_of(input);
    let r = l2.transactions[k];
    assert(l2.transactions == l.transactions.insert(k, r));
    assert forall|c: u16| #[trigger] l2.accounts.contains_key(c) && !l2.accounts[c].locked implies l2.accounts[c].held@
        == disputed_total(l2.transactions, c) by {
        lemma_shares_after_update(l.transactions, c, 0x1_0000_0000, k, r);
        if !l.accounts.contains_key(c) {
            assert forall|t: u32| #[trigger] l.transactions.contains_key(t) implies l.transactions[t].client_id
                != c by {
                assert(l.accounts.contains_key(l.transactions[t].client_id));
            }
            lemma_no_shares(l.transactions, c, 0x1_0000_0000);
        } else {
            lemma_share_within_total(l.transactions, c, 0x1_0000_0000, k);
            assert(!l.accounts[c].locked);
            assert(l.accounts[c].held@ == disputed_total(l.transactions, c));
        }
        if c != owner {
            assert(l2.accounts[c] == l.accounts[c]);
        } else {
            let a = account_or_fresh(l, c);
            assert(as_signed(a.held)@ == a.held@);
            if l.accounts.contains_key(c) && l.transactions.contains_key(k) {
                let amount = l.transactions[k].amount;
                if input is Resolve || input is Chargeback {
                    assert(held_share(l.transactions, c, k) == amount@);
                    assert(l.accounts[c].held@ >= amount@);
                }
            }
        }
    }
}

/// Processing any sequence of transactions from a consistent ledger keeps
/// it consistent. The empty ledger, which `new()` and `default()` both give,
/// is consistent, so every engine built by processing transactions is.
pub proof fn lemma_run_keeps_wf(l: Ledger, inputs: Seq<InputTransaction>)
    requires
        ledger_wf(l),
    ensures
        ledger_wf(run(l, inputs)),
    decreases inputs.len(),
{
    if inputs.len() > 0 {
        lemma_run_keeps_wf(l, inputs.drop_last());
        let before = run(l, inputs.drop_last());
        if apply(before, inputs.last()) is Ok {
            lemma_apply_keeps_wf(before, inputs.last());
        }
    }
}

/// Processing a sequence of transactions whose arithmetic is exact, from a
/// consistent and balanced ledger whose unlocked accounts hold exactly their
/// disputed amounts, keeps every account balanced and every unlocked
/// account's held funds equal to its disputed amounts.
pub proof fn lemma_run_keeps_balances(l: Ledger, inputs: Seq<InputTransaction>)
    requires
        ledger_wf(l),
        accounts_balanced(l),
        held_matches_disputes(l),
        run_exact(l, inputs),
    ensures
        accounts_balanced(run(l, inputs)),
        held_matches_disputes(run(l, inputs)),
    decreases inputs.len(),
{
    if inputs.len() > 0 {
        lemma_run_keeps_balances(l, inputs.drop_last());
        lemma_run_keeps_wf(l, inputs.drop_last());
        let before = run(l, inputs.drop_last());
        if apply(before, inputs.last()) is Ok {
            lemma_apply_keeps_balance(before, inputs.last());
            lemma_apply_keeps_held_matching(before, inputs.last());
        }
    }
}

/// One transaction never credits a locked account: it stays locked and its
/// available funds stay as they are; when the transaction computes exactly,
/// its held funds and total do not grow.
pub proof fn lemma_locked_account_step(l: Ledger, input: InputTransaction, c: u16)
    requires
        l.accounts.contains_key(c),
        l.accounts[c].locked,
        apply(l, input) is Ok,
    ensures
        ({
            let a = l.accounts[c];
            let a2 = apply(l, input)->Ok_0.accounts[c];
            &&& apply(l, input)->Ok_0.accounts.contains_key(c)
            &&& a2.locked
            &&& a2.available == a.available
            &&& step_exact(l, input) ==> a2.held@ <= a.held@ && a2.total@ <= a.total@
        }),
{
    assert(as_signed(l.accounts[c].held)@ == l.accounts[c].held@);
}

/// No sequence of transactions credits a locked account: it stays locked and
/// its available funds stay as they are; when every step computes exactly,
/// its held funds and total never grow.
pub proof fn lemma_locked_account_run(l: Ledger, inputs: Seq<InputTransaction>, c: u16)
    requires
        l.accounts.contains_key(c),
        l.accounts[c].locked,
    ensures
        ({
            let a = l.accounts[c];
            let a2 = run(l, inputs).accounts[c];
            &&& run(l, inputs).accounts.contains_key(c)
            &&& a2.locked
            &&& a2.available == a.available
            &&& run_exact(l, inputs) ==> a2.held@ <= a.held@ && a2.total@ <= a.total@
        }),
    decreases inputs.len(),
{
    if inputs.len() > 0 {
        lemma_locked_account_run(l, inputs.drop_last(), c);
        let before = run(l, inputs.drop_last());
        if apply(before, inputs.last()) is Ok {
            lemma_locked_account_step(before, inputs.last(), c);
        }
    }
}

/// Processing one more transaction extends `run` by the step that
/// `process_transaction` takes: the transaction's effect when it is applied,
/// no change when it is refused.
pub proof fn lemma_run_push(l: Ledger, inputs: Seq<InputTransaction>, input: InputTransaction)
    ensures
        run(l, inputs.push(input)) == (match apply(run(l, inputs), input) {
            Ok(after) => after,
            Err(_) => run(l, inputs),
        }),
{
    assert(inputs.push(input).drop_last() =~= inputs);
}

/// `default()` behaves as `new()`: both give the empty ledger, and engines
/// started from either that process the same transactions one by one list
/// the same accounts after every step.
pub proof fn lemma_default_behaves_as_new(d: Ledger, n: Ledger, inputs: Seq<InputTransaction>, i: int)
    requires
        d == empty_ledger(),
        n == empty_ledger(),
        0 <= i <= inputs.len(),
    ensures
        accounts_in_order(run(d, inputs.take(i)).accounts) == accounts_in_order(
            run(n, inputs.take(i)).accounts,
        ),
{
}

/// A deposit into an unlocked account whose sums compute exactly is
/// credited in full: available and total both grow by the amount, and held
/// funds, lock and client stay as they are, whatever the held funds are.
pub proof fn lemma_deposit_credits(a: Account, amount: UnsignedDecimal)
    requires
        !a.locked,
        adds_exactly(a.available, amount),
        adds_exactly(a.total, amount),
    ensures
        deposit_result(a, amount) is Ok,
        ({
            let b = deposit_result(a, amount)->Ok_0;
            &&& b.available@ == a.available@ + amount@
            &&& b.total@ == a.total@ + amount@
            &&& b.held == a.held && b.locked == a.locked && b.client == a.client
        }),
{
}

/// A deposit into a locked account is refused, and only then.
pub proof fn lemma_deposit_refused_only_when_locked(a: Account, amount: UnsignedDecimal)
    ensures
        deposit_result(a, amount) == Err::<Account, crate::error::EngineError>(
            crate::error::EngineError::AccountLocked,
        ) <==> a.locked,
{
}

/// A withdrawal from an unlocked account with at least the amount available,
/// whose differences compute exactly, is debited in full: available and
/// total both shrink by the amount, and held funds, lock and client stay as
/// they are, whatever the held funds are.
pub proof fn lemma_withdraw_debits(a: Account, amount: UnsignedDecimal)
    requires
        !a.locked,
        a.available@ >= amount@,
        subtracts_exactly(a.available, amount),
        subtracts_exactly(a.total, amount),
    ensures
        withdraw_result(a, amount) is Ok,
        ({
            let b = withdraw_result(a, amount)->Ok_0;
            &&& b.available@ == a.available@ - amount@
            &&& b.total@ == a.total@ - amount@
            &&& b.available@ >= 0
            &&& b.held == a.held && b.locked == a.locked && b.client == a.client
        }),
{
}

/// A withdrawal is refused for want of funds exactly when the account is
/// unlocked and has less available than the amount.
pub proof fn lemma_withdraw_refused_only_when_short(a: Account, amount: UnsignedDecimal)
    ensures
        withdraw_result(a, amount) == Err::<Account, crate::error::EngineError>(
            crate::error::EngineError::InsufficientFunds,
        ) <==> !a.locked && a.available@ < amount@,
{
}

/// A chargeback of an amount that the account holds, locked or not, whose
/// differences compute exactly, takes the amount out of held and total and
/// locks the account; available funds and client stay as they are.
pub proof fn lemma_chargeback_removes(a: Account, amount: UnsignedDecimal)
    requires
        a.held@ >= amount@,
        subtracts_exactly(as_signed(a.held), amount),
        subtracts_exactly(a.total, amount),
    ensures
        chargeback_result(a, amount) is Ok,
        ({
            let b = chargeback_result(a, amount)->Ok_0;
            &&& b.held@ == a.held@ - amount@
            &&& b.total@ == a.total@ - amount@
            &&& b.locked
            &&& b.available == a.available && b.client == a.client
        }),
{
    assert(as_signed(a.held)@ == a.held@);
}

/// A chargeback of more than the account holds leaves the account as it is.
pub proof fn lemma_chargeback_of_more_than_held(a: Account, amount: UnsignedDecimal)
    requires
        a.held@ < amount@,
    ensures
        chargeback_result(a, amount) == Ok::<Account, crate::error::EngineError>(a),
{
}

/// A deposit of a positive amount under a new transaction id, for a client
/// whose account (or the fresh one it opens) is unlocked, is applied when its
/// sums compute exactly: the account is credited in full, its held funds
/// unchanged, and the deposit recorded, not disputed.
pub proof fn lemma_deposit_applied(l: Ledger, c: u16, tx: u32, amount: UnsignedDecimal)
    requires
        amount@ > 0,
        !l.transactions.contains_key(tx),
        !account_or_fresh(l, c).locked,
        adds_exactly(account_or_fresh(l, c).available, amount),
        adds_exactly(account_or_fresh(l, c).total, amount),
    ensures
        apply(l, InputTransaction::Deposit { client: c, tx, amount }) is Ok,
        ({
            let l2 = apply(l, InputTransaction::Deposit { client: c, tx, amount })->Ok_0;
            let a = account_or_fresh(l, c);
            let b = l2.accounts[c];
            let r = l2.transactions[tx];
            &&& l2.accounts.contains_key(c)
            &&& b.available@ == a.available@ + amount@
            &&& b.total@ == a.total@ + amount@
            &&& b.held == a.held && !b.locked
            &&& l2.transactions.contains_key(tx)
            &&& r.client_id == c && r.tx_type == TransactionType::Deposit && r.amount == amount && !r.disputed
        }),
{
    lemma_deposit_credits(account_or_fresh(l, c), amount);
}

/// A withdrawal of a positive amount under a new transaction id from an
/// existing unlocked account with at least that much available is applied
/// when its differences compute exactly, whatever the account's held funds:
/// the account is debited in full and the withdrawal recorded.
pub proof fn lemma_withdrawal_applied(l: Ledger, c: u16, tx: u32, amount: UnsignedDecimal)
    requires
        amount@ > 0,
        !l.transactions.contains_key(tx),
        l.accounts.contains_key(c),
        !l.accounts[c].locked,
        l.accounts[c].available@ >= amount@,
        subtracts_exactly(l.accounts[c].available, amount),
        subtracts_exactly(l.accounts[c].total, amount),
    ensures
        apply(l, InputTransaction::Withdrawal { client: c, tx, amount }) is Ok,
        ({
            let l2 = apply(l, InputTransaction::Withdrawal { client: c, tx, amount })->Ok_0;
            let a = l.accounts[c];
            let b = l2.accounts[c];
            let r = l2.transactions[tx];
            &&& b.available@ == a.available@ - amount@
            &&& b.total@ == a.total@ - amount@
            &&& b.held == a.held && !b.locked
            &&& l2.transactions.contains_key(tx)
            &&& r.client_id == c && r.tx_type == TransactionType::Withdrawal && r.amount == amount && !r.disputed
        }),
{
    lemma_withdraw_debits(l.accounts[c], amount);
}

/// A dispute by its own client of a recorded deposit that is not under
/// dispute, on an unlocked account, is applied whenever holding the amount
/// computes exactly, whatever the sign of the available funds: the deposit
/// is marked disputed and its amount moves from available to held, the total
/// staying as it is.
pub proof fn lemma_dispute_applied(l: Ledger, c: u16, tx: u32)
    requires
        l.transactions.contains_key(tx),
        l.transactions[tx].client_id == c,
        l.transactions[tx].tx_type == TransactionType::Deposit,
        !l.transactions[tx].disputed,
        !account_or_fresh(l, c).locked,
        hold_exact(account_or_fresh(l, c), l.transactions[tx].amount),
    ensures
        apply(l, InputTransaction::Dispute { client: c, tx }) is Ok,
        ({
            let l2 = apply(l, InputTransaction::Dispute { client: c, tx })->Ok_0;
            let a = account_or_fresh(l, c);
            let b = l2.accounts[c];
            let amount = l.transactions[tx].amount;
            &&& l2.accounts.contains_key(c)
            &&& b.available@ == a.available@ - amount@
            &&& b.held@ == a.held@ + amount@
            &&& b.total == a.total && !b.locked
            &&& l2.transactions[tx].disputed && l2.transactions[tx].amount == amount
            &&& l2.transactions[tx].client_id == c
        }),
{
    assert(as_signed(account_or_fresh(l, c).held)@ == account_or_fresh(l, c).held@);
}

/// A chargeback by its own client of a disputed transaction whose amount the
/// account holds, locked or not, is applied when its differences compute
/// exactly: held and total shrink by the amount, the account locks and the
/// transaction is no longer disputed.
pub proof fn lemma_chargeback_applied(l: Ledger, c: u16, tx: u32)
    requires
        l.transactions.contains_key(tx),
        l.transactions[tx].client_id == c,
        l.transactions[tx].disputed,
        account_or_fresh(l, c).held@ >= l.transactions[tx].amount@,
        subtracts_exactly(as_signed(account_or_fresh(l, c).held), l.transactions[tx].amount),
        subtracts_exactly(account_or_fresh(l, c).total, l.transactions[tx].amount),
    ensures
        apply(l, InputTransaction::Chargeback { client: c, tx }) is Ok,
        ({
            let l2 = apply(l, InputTransaction::Chargeback { client: c, tx })->Ok_0;
            let a = account_or_fresh(l, c);
            let b = l2.accounts[c];
            let amount = l.transactions[tx].amount;
            &&& b.held@ == a.held@ - amount@
            &&& b.total@ == a.total@ - amount@
            &&& b.available == a.available && b.locked
            &&& !l2.transactions[tx].disputed
        }),
{
    lemma_chargeback_removes(account_or_fresh(l, c), l.transactions[tx].amount);
}

/// A resolve by its own client of a disputed transaction whose amount an
/// unlocked account holds is applied when its arithmetic is exact: the
/// amount moves from held back to available, the total stays as it is, and
/// the transaction is no longer disputed.
pub proof fn lemma_resolve_applied(l: Ledger, c: u16, tx: u32)
    requires
        l.transactions.contains_key(tx),
        l.transactions[tx].client_id == c,
        l.transactions[tx].disputed,
        !account_or_fresh(l, c).locked,
        account_or_fresh(l, c).held@ >= l.transactions[tx].amount@,
        adds_exactly(account_or_fresh(l, c).available, l.transactions[tx].amount),
        subtracts_exactly(as_signed(account_or_fresh(l, c).held), l.transactions[tx].amount),
    ensures
        apply(l, InputTransaction::Resolve { client: c, tx }) is Ok,
        ({
            let l2 = apply(l, InputTransaction::Resolve { client: c, tx })->Ok_0;
            let a = account_or_fresh(l, c);
            let b = l2.accounts[c];
            let amount = l.transactions[tx].amount;
            &&& b.available@ == a.available@ + amount@
            &&& b.held@ == a.held@ - amount@
            &&& b.total == a.total && !b.locked
            &&& !l2.transactions[tx].disputed
        }),
{
    assert(as_signed(account_or_fresh(l, c).held)@ == account_or_fresh(l, c).held@);
}

/// A withdrawal of a positive amount under a new transaction id from an
/// existing account is refused for want of funds exactly when the account is
/// unlocked and has less available than the amount.
pub proof fn lemma_withdrawal_refused_only_when_short(l: Ledger, c: u16, tx: u32, amount: UnsignedDecimal)
    requires
        amount@ > 0,
        !l.transactions.contains_key(tx),
        l.accounts.contains_key(c),
    ensures
        apply(l, InputTransaction::Withdrawal { client: c, tx, amount }) == Err::<
            Ledger,
            crate::error::EngineError,
        >(crate::error::EngineError::InsufficientFunds) <==> !l.accounts[c].locked
            && l.accounts[c].available@ < amount@,
{
    lemma_withdraw_refused_only_when_short(l.accounts[c], amount);
}

/// Disputes, resolves and chargebacks that cannot move funds still settle
/// the transaction's mark: a dispute on a locked account marks the deposit
/// disputed, a resolve on a locked account or one holding less than the
/// amount clears the mark, and so does a chargeback on an account holding
/// less than the amount; in each case the account stays as it was.
pub proof fn lemma_settlement_without_moving_funds(l: Ledger, c: u16, tx: u32)
    requires
        l.transactions.contains_key(tx),
        l.transactions[tx].client_id == c,
    ensures
        l.transactions[tx].tx_type == TransactionType::Deposit && !l.transactions[tx].disputed
            && account_or_fresh(l, c).locked ==> ({
            let l2 = apply(l, InputTransaction::Dispute { client: c, tx });
            &&& l2 is Ok
            &&& l2->Ok_0.accounts[c] == account_or_fresh(l, c)
            &&& l2->Ok_0.transactions[tx].disputed
        }),
        l.transactions[tx].disputed && (account_or_fresh(l, c).locked || account_or_fresh(l, c).held@
            < l.transactions[tx].amount@) ==> ({
            let l2 = apply(l, InputTransaction::Resolve { client: c, tx });
            &&& l2 is Ok
            &&& l2->Ok_0.accounts[c] == account_or_fresh(l, c)
            &&& !l2->Ok_0.transactions[tx].disputed
        }),
        l.transactions[tx].disputed && account_or_fresh(l, c).held@ < l.transactions[tx].amount@ ==> ({
            let l2 = apply(l, InputTransaction::Chargeback { client: c, tx });
            &&& l2 is Ok
            &&& l2->Ok_0.accounts[c] == account_or_fresh(l, c)
            &&& !l2->Ok_0.transactions[tx].disputed
        }),
{
}

/// Decimal digits spell, as a column value, the number they denote.
proof fn lemma_decimal_digits_number(v: Seq<char>)
    requires
        crate::types::all_digits(v),
    ensures
        crate::transaction::all_digits(v, 10),
        crate::transaction::digits_number(v, 10) == crate::types::digits_value(v),
    decreases v.len(),
{
    if v.len() > 0 {
        let w = v.drop_last();
        assert(crate::types::all_digits(w)) by {
            assert forall|i: int| 0 <= i < w.len() implies crate::types::is_digit(#[trigger] w[i]) by {
                assert(w[i] == v[i]);
            }
        }
        lemma_decimal_digits_number(w);
        assert(crate::types::is_digit(v[v.len() - 1]));
        assert forall|i: int| 0 <= i < v.len() implies (#[trigger] crate::transaction::digit_value(
            v[i],
            10,
        )) is Some by {
            assert(crate::types::is_digit(v[i]));
        }
    }
}

/// A column value made of decimal digits that denote a number no larger
/// than `max` reads as that number.
proof fn lemma_decimal_integer_value(v: Seq<char>, max: nat)
    requires
        v.len() > 0,
        crate::types::all_digits(v),
        crate::types::digits_value(v) <= max,
    ensures
        crate::types::digits_value(v) >= 0,
        crate::transaction::integer_value(v, max) == Some(crate::types::digits_value(v) as nat),
{
    lemma_decimal_digits_number(v);
    assert(crate::types::is_digit(v[0]));
    if v.len() >= 2 {
        assert(crate::types::is_digit(v[1]));
    }
}

/// A `tx` column whose value is a transaction id written in decimal digits,
/// at most `u32::MAX`, reads as that id.
pub proof fn lemma_tx_column_reads(st: crate::transaction::PartialRecord, v: Seq<char>)
    requires
        st.tx is None,
        v.len() > 0,
        crate::types::all_digits(v),
        crate::types::digits_value(v) <= u32::MAX,
    ensures
        crate::transaction::read_column(st, seq!['t', 'x'], Some(v)) == Ok::<
            crate::transaction::PartialRecord,
            crate::transaction::RecordError,
        >(crate::transaction::PartialRecord { tx: Some(crate::types::digits_value(v) as u32), ..st }),
{
    lemma_decimal_integer_value(v, u32::MAX as nat);
}

/// A `client` column whose value is a client id written in decimal digits,
/// at most `u16::MAX`, reads as that id.
pub proof fn lemma_client_column_reads(st: crate::transaction::PartialRecord, v: Seq<char>)
    requires
        st.client is None,
        v.len() > 0,
        crate::types::all_digits(v),
        crate::types::digits_value(v) <= u16::MAX,
    ensures
        crate::transaction::read_column(st, seq!['c', 'l', 'i', 'e', 'n', 't'], Some(v)) == Ok::<
            crate::transaction::PartialRecord,
            crate::transaction::RecordError,
        >(crate::transaction::PartialRecord { client: Some(crate::types::digits_value(v) as u16), ..st }),
{
    lemma_decimal_integer_value(v, u16::MAX as nat);
}

/// A row under the headers `type, client, tx, amount` whose type is
/// `deposit` or `withdrawal`, with client and transaction ids written in
/// decimal digits within the ranges of `u16` and `u32` and an amount that
/// reads as a non-negative decimal, reads as that transaction.
pub proof fn lemma_funds_row_reads(client: Seq<char>, tx: Seq<char>, amount: Seq<char>)
    requires
        client.len() > 0,
        crate::types::all_digits(client),
        crate::types::digits_value(client) <= u16::MAX,
        tx.len() > 0,
        crate::types::all_digits(tx),
        crate::types::digits_value(tx) <= u32::MAX,
        amount.len() > 0,
        crate::types::unsigned_from_text(amount) is Some,
    ensures
        ({
            let hs = seq![
                seq!['t', 'y', 'p', 'e'],
                seq!['c', 'l', 'i', 'e', 'n', 't'],
                seq!['t', 'x'],
                seq!['a', 'm', 'o', 'u', 'n', 't'],
            ];
            let c = crate::types::digits_value(client) as u16;
            let t = crate::types::digits_value(tx) as u32;
            let a = crate::types::unsigned_from_text(amount)->Some_0;
            &&& crate::transaction::transaction_from_record(
                hs,
                seq![seq!['d', 'e', 'p', 'o', 's', 'i', 't'], client, tx, amount],
            ) == Ok::<InputTransaction, crate::transaction::RecordError>(
                InputTransaction::Deposit { client: c, tx: t, amount: a },
            )
            &&& crate::transaction::transaction_from_record(
                hs,
                seq![seq!['w', 'i', 't', 'h', 'd', 'r', 'a', 'w', 'a', 'l'], client, tx, amount],
            ) == Ok::<InputTransaction, crate::transaction::RecordError>(
                InputTransaction::Withdrawal { client: c, tx: t, amount: a },
            )
        }),
{
    lemma_type_words();
    lemma_funds_row(seq!['d', 'e', 'p', 'o', 's', 'i', 't'], client, tx, amount);
    lemma_funds_row(seq!['w', 'i', 't', 'h', 'd', 'r', 'a', 'w', 'a', 'l'], client, tx, amount);
}

/// The values that a row under the headers `type, client, tx, amount` reads
/// into.
proof fn lemma_funds_row(ty: Seq<char>, client: Seq<char>, tx: Seq<char>, amount: Seq<char>)
    requires
        client.len() > 0,
        crate::types::all_digits(client),
        crate::types::digits_value(client) <= u16::MAX,
        tx.len() > 0,
        crate::types::all_digits(tx),
        crate::types::digits_value(tx) <= u32::MAX,
        amount.len() > 0,
        crate::types::unsigned_from_text(amount) is Some,
    ensures
        crate::transaction::read_columns(
            seq![
                seq!['t', 'y', 'p', 'e'],
                seq!['c', 'l', 'i', 'e', 'n', 't'],
                seq!['t', 'x'],
                seq!['a', 'm', 'o', 'u', 'n', 't'],
            ],
            seq![ty, client, tx, amount],
            4,
        ) == Ok::<crate::transaction::PartialRecord, crate::transaction::RecordError>(
            crate::transaction::PartialRecord {
                tx_type: Some(ty),
                client: Some(crate::types::digits_value(client) as u16),
                tx: Some(crate::types::digits_value(tx) as u32),
                amount: crate::types::unsigned_from_text(amount),
            },
        ),
{
    let hs = seq![
        seq!['t', 'y', 'p', 'e'],
        seq!['c', 'l', 'i', 'e', 'n', 't'],
        seq!['t', 'x'],
        seq!['a', 'm', 'o', 'u', 'n', 't'],
    ];
    let fs = seq![ty, client, tx, amount];
    let st0 = crate::transaction::empty_record();
    let st1 = crate::transaction::PartialRecord { tx_type: Some(ty), ..st0 };
    let st2 = crate::transaction::PartialRecord { client: Some(crate::types::digits_value(client) as u16), ..st1 };
    let st3 = crate::transaction::PartialRecord { tx: Some(crate::types::digits_value(tx) as u32), ..st2 };
    assert(crate::transaction::field_of_header(hs[0]) == Some(crate::transaction::Field::Type));
    assert(crate::transaction::read_columns(hs, fs, 0) == Ok::<
        crate::transaction::PartialRecord,
        crate::transaction::RecordError,
    >(st0));
    assert(hs[1] == seq!['c', 'l', 'i', 'e', 'n', 't'] && hs[2] == seq!['t', 'x']);
    assert(crate::transaction::value_at(fs, 0) == Some(ty));
    assert(crate::transaction::value_at(fs, 1) == Some(client));
    assert(crate::transaction::value_at(fs, 2) == Some(tx));
    assert(crate::transaction::value_at(fs, 3) == Some(amount));
    assert(crate::transaction::read_columns(hs, fs, 1) == Ok::<
        crate::transaction::PartialRecord,
        crate::transaction::RecordError,
    >(st1));
    lemma_client_column_reads(st1, client);
    assert(crate::transaction::read_columns(hs, fs, 2) == Ok::<
        crate::transaction::PartialRecord,
        crate::transaction::RecordError,
    >(st2));
    lemma_tx_column_reads(st2, tx);
    assert(crate::transaction::read_columns(hs, fs, 3) == Ok::<
        crate::transaction::PartialRecord,
        crate::transaction::RecordError,
    >(st3));
    assert(crate::transaction::field_of_header(hs[3]) == Some(crate::transaction::Field::Amount));
}

/// The words `deposit`, `withdrawal`, `dispute`, `resolve` and `chargeback`
/// name their kinds of transaction.
pub proof fn lemma_type_words()
    ensures
        crate::transaction::kind_of_type(seq!['d', 'e', 'p', 'o', 's', 'i', 't']) == Some(
            crate::transaction::RecordKind::Deposit,
        ),
        crate::transaction::kind_of_type(seq!['w', 'i', 't', 'h', 'd', 'r', 'a', 'w', 'a', 'l'])
            == Some(crate::transaction::RecordKind::Withdrawal),
        crate::transaction::kind_of_type(seq!['d', 'i', 's', 'p', 'u', 't', 'e']) == Some(
            crate::transaction::RecordKind::Dispute,
        ),
        crate::transaction::kind_of_type(seq!['r', 'e', 's', 'o', 'l', 'v', 'e']) == Some(
            crate::transaction::RecordKind::Resolve,
        ),
        crate::transaction::kind_of_type(seq!['c', 'h', 'a', 'r', 'g', 'e', 'b', 'a', 'c', 'k'])
            == Some(crate::transaction::RecordKind::Chargeback),
{
    let dep = seq!['d', 'e', 'p', 'o', 's', 'i', 't'];
    let wd = seq!['w', 'i', 't', 'h', 'd', 'r', 'a', 'w', 'a', 'l'];
    let dis = seq!['d', 'i', 's', 'p', 'u', 't', 'e'];
    let res = seq!['r', 'e', 's', 'o', 'l', 'v', 'e'];
    let cb = seq!['c', 'h', 'a', 'r', 'g', 'e', 'b', 'a', 'c', 'k'];
    assert(crate::transaction::trim(dep) == dep);
    assert(crate::transaction::trim_start(wd) == wd);
    assert(crate::transaction::trim_end(wd) == wd);
    assert(crate::transaction::trim_start(dis) == dis);
    assert(crate::transaction::trim_end(dis) == dis);
    assert(crate::transaction::trim_start(res) == res);
    assert(crate::transaction::trim_end(res) == res);
    assert(crate::transaction::trim_start(cb) == cb);
    assert(crate::transaction::trim_end(cb) == cb);
    assert(crate::transaction::lowercases_to(dep, dep));
    assert(crate::transaction::lowercases_to(wd, wd));
    assert(crate::transaction::lowercases_to(dis, dis));
    assert(crate::transaction::lowercases_to(res, res));
    assert(crate::transaction::lowercases_to(cb, cb));
    assert(crate::transaction::lower_code(dis[1]) != dep[1] as u32);
    assert(crate::transaction::lower_code(res[0]) != dep[0] as u32);
    assert(crate::transaction::lower_code(res[0]) != dis[0] as u32);
    assert(crate::transaction::lower_code(cb[0]) != wd[0] as u32);
}

/// A row under the headers `type, client, tx` whose type is `dispute`,
/// `resolve` or `chargeback`, with client and transaction ids written in
/// decimal digits within the ranges of `u16` and `u32`, reads as that
/// transaction.
pub proof fn lemma_settlement_row_reads(client: Seq<char>, tx: Seq<char>)
    requires
        client.len() > 0,
        crate::types::all_digits(client),
        crate::types::digits_value(client) <= u16::MAX,
        tx.len() > 0,
        crate::types::all_digits(tx),
        crate::types::digits_value(tx) <= u32::MAX,
    ensures
        ({
            let hs = seq![seq!['t', 'y', 'p', 'e'], seq!['c', 'l', 'i', 'e', 'n', 't'], seq!['t', 'x']];
            let c = crate::types::digits_value(client) as u16;
            let t = crate::types::digits_value(tx) as u32;
            &&& crate::transaction::transaction_from_record(
                hs,
                seq![seq!['d', 'i', 's', 'p', 'u', 't', 'e'], client, tx],
            ) == Ok::<InputTransaction, crate::transaction::RecordError>(
                InputTransaction::Dispute { client: c, tx: t },
            )
            &&& crate::transaction::transaction_from_record(
                hs,
                seq![seq!['r', 'e', 's', 'o', 'l', 'v', 'e'], client, tx],
            ) == Ok::<InputTransaction, crate::transaction::RecordError>(
                InputTransaction::Resolve { client: c, tx: t },
            )
            &&& crate::transaction::transaction_from_record(
                hs,
                seq![seq!['c', 'h', 'a', 'r', 'g', 'e', 'b', 'a', 'c', 'k'], client, tx],
            ) == Ok::<InputTransaction, crate::transaction::RecordError>(
                InputTransaction::Chargeback { client: c, tx: t },
            )
        }),
{
    lemma_type_words();
    lemma_settlement_row(seq!['d', 'i', 's', 'p', 'u', 't', 'e'], client, tx);
    lemma_settlement_row(seq!['r', 'e', 's', 'o', 'l', 'v', 'e'], client, tx);
    lemma_settlement_row(seq!['c', 'h', 'a', 'r', 'g', 'e', 'b', 'a', 'c', 'k'], client, tx);
}

/// The values that a row under the headers `type, client, tx` reads into.
proof fn lemma_settlement_row(ty: Seq<char>, client: Seq<char>, tx: Seq<char>)
    requires
        client.len() > 0,
        crate::types::all_digits(client),
        crate::types::digits_value(client) <= u16::MAX,
        tx.len() > 0,
        crate::types::all_digits(tx),
        crate::types::digits_value(tx) <= u32::MAX,
    ensures
        crate::transaction::read_columns(
            seq![seq!['t', 'y', 'p', 'e'], seq!['c', 'l', 'i', 'e', 'n', 't'], seq!['t', 'x']],
            seq![ty, client, tx],
            3,
        ) == Ok::<crate::transaction::PartialRecord, crate::transaction::RecordError>(
            crate::transaction::PartialRecord {
                tx_type: Some(ty),
                client: Some(crate::types::digits_value(client) as u16),
                tx: Some(crate::types::digits_value(tx) as u32),
                amount: None,
            },
        ),
{
    let hs = seq![seq!['t', 'y', 'p', 'e'], seq!['c', 'l', 'i', 'e', 'n', 't'], seq!['t', 'x']];
    let fs = seq![ty, client, tx];
    let st0 = crate::transaction::empty_record();
    let st1 = crate::transaction::PartialRecord { tx_type: Some(ty), ..st0 };
    let st2 = crate::transaction::PartialRecord { client: Some(crate::types::digits_value(client) as u16), ..st1 };
    assert(crate::transaction::field_of_header(hs[0]) == Some(crate::transaction::Field::Type));
    assert(crate::transaction::read_columns(hs, fs, 0) == Ok::<
        crate::transaction::PartialRecord,
        crate::transaction::RecordError,
    >(st0));
    assert(hs[1] == seq!['c', 'l', 'i', 'e', 'n', 't'] && hs[2] == seq!['t', 'x']);
    assert(crate::transaction::value_at(fs, 0) == Some(ty));
    assert(crate::transaction::value_at(fs, 1) == Some(client));
    assert(crate::transaction::value_at(fs, 2) == Some(tx));
    assert(crate::transaction::read_columns(hs, fs, 1) == Ok::<
        crate::transaction::PartialRecord,
        crate::transaction::RecordError,
    >(st1));
    lemma_client_column_reads(st1, client);
    assert(crate::transaction::read_columns(hs, fs, 2) == Ok::<
        crate::transaction::PartialRecord,
        crate::transaction::RecordError,
    >(st2));
    lemma_tx_column_reads(st2, tx);
}

/// A negative amount is malformed: an `amount` column whose value begins
/// with `-` makes the record unreadable.
pub proof fn lemma_negative_amount_refused(
    st: crate::transaction::PartialRecord,
    header: Seq<char>,
    value: Seq<char>,
)
    requires
        crate::transaction::field_of_header(header) == Some(crate::transaction::Field::Amount),
        value.len() > 0,
        value[0] == '-',
    ensures
        crate::transaction::read_column(st, header, Some(value)) == Err::<
            crate::transaction::PartialRecord,
            crate::transaction::RecordError,
        >(crate::transaction::RecordError::InvalidValue),
{
}

} // verus!
