# Payments engine

A payments engine for deposits, withdrawals, disputes, resolves and
chargebacks, written in Verus. The library under `src/` is verified; the
command-line program under `app/` reads a CSV file of transactions, applies
them, and writes the resulting accounts as CSV to standard output:

    payments_engine transactions.csv > accounts.csv

## Layout

- `src/types.rs`: decimal amounts (`SignedDecimal`, `UnsignedDecimal`),
  each a sign, a 128-bit coefficient and a scale, as fastnum's `D128` keeps
  them. A sum or difference is exact when it fits in 128 bits at the finer
  of the two scales; otherwise fastnum's `D128` computes it, rounding as it
  does, and a result that is not finite is reported as an overflow. Decimal
  text is read and written with fastnum.
- `src/account.rs`: client accounts and their operations, and the record of
  past deposits and withdrawals.
- `src/transaction.rs`: incoming transactions and how a CSV row, given as
  header and field strings, is read into one.
- `src/lib.rs`: the engine, with `apply`, the mathematical description of
  one transaction's effect on the ledger.
- `src/laws.rs`: properties of the engine proved over `apply`: the ledger
  stays consistent, a locked account is never credited, a resolve undoes its
  dispute, and others. The laws about balances (every account's total is its
  available plus held funds, an unlocked account's held funds equal its
  disputed amounts) are stated for transactions whose arithmetic is exact.
- `app/main.rs`: file and standard-output handling with csv-async and tokio.

## Behaviour

- Deposits and withdrawals need a positive amount and a transaction id not
  seen before; a withdrawal needs an existing, unlocked account with enough
  available funds.
- Only deposits can be disputed; available funds may go negative during a
  dispute.
- A chargeback removes the disputed amount and locks the account; a locked
  account takes no further deposit or withdrawal, and a dispute or resolve
  on it changes only the transaction's dispute mark.
- A refused transaction leaves the engine unchanged and reports why.
- Amounts are kept as written; balances are rounded to four places only
  when written out, and an account whose balance cannot be written is
  reported. A negative amount is malformed, as is text with more than a
  billion characters or whose exponent, less its number of fractional
  digits, falls below the range of `i32`.
