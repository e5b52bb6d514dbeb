//! Incoming transactions.

use crate::types::{UnsignedDecimal, chars_of, unsigned_from_text};
use vstd::prelude::*;

verus! {

/// One incoming transaction.
#[derive(Clone, Copy, Debug)]
pub enum InputTransaction {
    /// Credit `amount` to the client's account.
    Deposit { client: u16, tx: u32, amount: UnsignedDecimal },
    /// Debit `amount` from the client's account.
    Withdrawal { client: u16, tx: u32, amount: UnsignedDecimal },
    /// Hold the funds of deposit `tx` while it is disputed.
    Dispute { client: u16, tx: u32 },
    /// Release the funds of disputed deposit `tx`.
    Resolve { client: u16, tx: u32 },
    /// Reverse disputed deposit `tx` and lock the account.
    Chargeback { client: u16, tx: u32 },
}

/// The client that a transaction names.
pub open spec fn client_of(t: InputTransaction) -> u16 {
    match t {
        InputTransaction::Deposit { client, .. } => client,
        InputTransaction::Withdrawal { client, .. } => client,
        InputTransaction::Dispute { client, .. } => client,
        InputTransaction::Resolve { client, .. } => client,
        InputTransaction::Chargeback { client, .. } => client,
    }
}

/// The transaction id that a transaction names.
pub open spec fn tx_of(t: InputTransaction) -> u32 {
    match t {
        InputTransaction::Deposit { tx, .. } => tx,
        InputTransaction::Withdrawal { tx, .. } => tx,
        InputTransaction::Dispute { tx, .. } => tx,
        InputTransaction::Resolve { tx, .. } => tx,
        InputTransaction::Chargeback { tx, .. } => tx,
    }
}

impl InputTransaction {
    /// The client that the transaction names.
    pub fn client(&self) -> (c: u16)
        ensures
            c == client_of(*self),
    {
        match self {
            InputTransaction::Deposit { client, .. } => *client,
            InputTransaction::Withdrawal { client, .. } => *client,
            InputTransaction::Dispute { client, .. } => *client,
            InputTransaction::Resolve { client, .. } => *client,
            InputTransaction::Chargeback { client, .. } => *client,
        }
    }

    /// The transaction id that the transaction names.
    pub fn tx(&self) -> (t: u32)
        ensures
            t == tx_of(*self),
    {
        match self {
            InputTransaction::Deposit { tx, .. } => *tx,
            InputTransaction::Withdrawal { tx, .. } => *tx,
            InputTransaction::Dispute { tx, .. } => *tx,
            InputTransaction::Resolve { tx, .. } => *tx,
            InputTransaction::Chargeback { tx, .. } => *tx,
        }
    }
}

/// Why a record is not a transaction.
#[derive(Clone, Copy, Debug, PartialEq, Eq, Structural)]
pub enum RecordError {
    /// A column other than `type`, `client`, `tx` and `amount`.
    UnknownField,
    /// The `type`, `client` or `tx` column appears twice.
    DuplicateField(Field),
    /// The row ends before the value of a `type`, `client` or `tx` column.
    MissingValue,
    /// A `client`, `tx` or `amount` value that is not a number of its type.
    InvalidValue,
    /// No `type`, `client` or `tx` value, or no amount for a deposit or
    /// withdrawal.
    MissingField(Field),
    /// A type other than deposit, withdrawal, dispute, resolve, chargeback.
    UnknownType,
}

/// The columns that a record may have.
#[derive(Clone, Copy, Debug, PartialEq, Eq, Structural)]
pub enum Field {
    Type,
    Client,
    Tx,
    Amount,
}

/// The kinds of transaction that a record may name.
#[derive(Clone, Copy, Debug, PartialEq, Eq, Structural)]
pub enum RecordKind {
    Deposit,
    Withdrawal,
    Dispute,
    Resolve,
    Chargeback,
}

/// The column that a header names; headers are matched exactly.
pub open spec fn field_of_header(h: Seq<char>) -> Option<Field> {
    if h =~= seq!['t', 'y', 'p', 'e'] {
        Some(Field::Type)
    } else if h =~= seq!['c', 'l', 'i', 'e', 'n', 't'] {
        Some(Field::Client)
    } else if h =~= seq!['t', 'x'] {
        Some(Field::Tx)
    } else if h =~= seq!['a', 'm', 'o', 'u', 'n', 't'] {
        Some(Field::Amount)
    } else {
        None
    }
}

/// The value of digit `c` in base `radix` (10 or 16, letters in either case).
pub open spec fn digit_value(c: char, radix: nat) -> Option<nat> {
    let x = c as u32;
    if 48 <= x <= 57 {
        Some((x - 48) as nat)
    } else if radix == 16 && 97 <= x <= 102 {
        Some((x - 87) as nat)
    } else if radix == 16 && 65 <= x <= 70 {
        Some((x - 55) as nat)
    } else {
        None
    }
}

/// Every character of `s` is a digit in base `radix`.
pub open spec fn all_digits(s: Seq<char>, radix: nat) -> bool {
    forall|i: int| 0 <= i < s.len() ==> (#[trigger] digit_value(s[i], radix)) is Some
}

/// The number that the digits `s` spell in base `radix`.
pub open spec fn digits_number(s: Seq<char>, radix: nat) -> nat
    decreases s.len(),
{
    if s.len() == 0 {
        0
    } else {
        digits_number(s.drop_last(), radix) * radix + match digit_value(s.last(), radix) {
            Some(d) => d,
            None => 0,
        }
    }
}

/// The number that `s` spells in base `radix` after an optional leading `+`,
/// when that is a non-empty run of digits whose number is at most `max`.
pub open spec fn radix_number(s: Seq<char>, radix: nat, max: nat) -> Option<nat> {
    let body = if s.len() > 0 && s[0] == '+' {
        s.drop_first()
    } else {
        s
    };
    if body.len() > 0 && all_digits(body, radix) && digits_number(body, radix) <= max {
        Some(digits_number(body, radix))
    } else {
        None
    }
}

/// The unsigned integer, at most `max`, that a column value spells: in base 16
/// after a leading `0x`, in base 10 otherwise.
pub open spec fn integer_value(s: Seq<char>, max: nat) -> Option<nat> {
    if s.len() >= 2 && s[0] == '0' && s[1] == 'x' {
        radix_number(s.skip(2), 16, max)
    } else {
        radix_number(s, 10, max)
    }
}

/// Whether `c` is Unicode white space.
pub open spec fn is_white_space(c: char) -> bool {
    let x = c as u32;
    (9 <= x <= 13) || x == 32 || x == 0x85 || x == 0xA0 || x == 0x1680 || (0x2000 <= x <= 0x200A)
        || x == 0x2028 || x == 0x2029 || x == 0x202F || x == 0x205F || x == 0x3000
}

/// `s` without leading white space.
pub open spec fn trim_start(s: Seq<char>) -> Seq<char>
    decreases s.len(),
{
    if s.len() > 0 && is_white_space(s[0]) {
        trim_start(s.drop_first())
    } else {
        s
    }
}

/// `s` without trailing white space.
pub open spec fn trim_end(s: Seq<char>) -> Seq<char>
    decreases s.len(),
{
    if s.len() > 0 && is_white_space(s.last()) {
        trim_end(s.drop_last())
    } else {
        s
    }
}

/// `s` without leading and trailing white space.
pub open spec fn trim(s: Seq<char>) -> Seq<char> {
    trim_end(trim_start(s))
}

/// The code point of the lower case of `c`, for the characters whose lower
/// case is a single ASCII letter: `A` to `Z`, and the Kelvin sign, whose lower
/// case is `k`. Other characters keep their code point.
pub open spec fn lower_code(c: char) -> u32 {
    let x = c as u32;
    if 65 <= x <= 90 {
        (x + 32) as u32
    } else if x == 0x212A {
        107
    } else {
        x
    }
}

/// Whether lower-casing `s` gives exactly the lower-case ASCII word `w`.
pub open spec fn lowercases_to(s: Seq<char>, w: Seq<char>) -> bool {
    s.len() == w.len() && forall|i: int| 0 <= i < s.len() ==> lower_code(#[trigger] s[i]) == w[i] as u32
}

/// The kind of transaction that a `type` value names, ignoring surrounding
/// white space and letter case.
pub open spec fn kind_of_type(s: Seq<char>) -> Option<RecordKind> {
    let t = trim(s);
    if lowercases_to(t, seq!['d', 'e', 'p', 'o', 's', 'i', 't']) {
        Some(RecordKind::Deposit)
    } else if lowercases_to(t, seq!['w', 'i', 't', 'h', 'd', 'r', 'a', 'w', 'a', 'l']) {
        Some(RecordKind::Withdrawal)
    } else if lowercases_to(t, seq!['d', 'i', 's', 'p', 'u', 't', 'e']) {
        Some(RecordKind::Dispute)
    } else if lowercases_to(t, seq!['r', 'e', 's', 'o', 'l', 'v', 'e']) {
        Some(RecordKind::Resolve)
    } else if lowercases_to(t, seq!['c', 'h', 'a', 'r', 'g', 'e', 'b', 'a', 'c', 'k']) {
        Some(RecordKind::Chargeback)
    } else {
        None
    }
}

/// The values read so far from a record.
pub struct PartialRecord {
    pub tx_type: Option<Seq<char>>,
    pub client: Option<u16>,
    pub tx: Option<u32>,
    pub amount: Option<UnsignedDecimal>,
}

/// Nothing read yet.
pub open spec fn empty_record() -> PartialRecord {
    PartialRecord { tx_type: None, client: None, tx: None, amount: None }
}

/// The value in column `i`, or `None` when the row is shorter.
pub open spec fn value_at(fields: Seq<Seq<char>>, i: int) -> Option<Seq<char>> {
    if 0 <= i < fields.len() {
        Some(fields[i])
    } else {
        None
    }
}

/// Reading one column: its header and, when the row has one, its value.
/// `type`, `client` and `tx` may appear once and need a value; an `amount`
/// that is missing or empty reads as no amount, and a later `amount` column
/// replaces an earlier one.
pub open spec fn read_column(st: PartialRecord, header: Seq<char>, value: Option<Seq<char>>) -> Result<
    PartialRecord,
    RecordError,
> {
    match field_of_header(header) {
        None => Err(RecordError::UnknownField),
        Some(Field::Type) => if st.tx_type is Some {
            Err(RecordError::DuplicateField(Field::Type))
        } else {
            match value {
                None => Err(RecordError::MissingValue),
                Some(v) => Ok(PartialRecord { tx_type: Some(v), ..st }),
            }
        },
        Some(Field::Client) => if st.client is Some {
            Err(RecordError::DuplicateField(Field::Client))
        } else {
            match value {
                None => Err(RecordError::MissingValue),
                Some(v) => match integer_value(v, u16::MAX as nat) {
                    Some(n) => Ok(PartialRecord { client: Some(n as u16), ..st }),
                    None => Err(RecordError::InvalidValue),
                },
            }
        },
        Some(Field::Tx) => if st.tx is Some {
            Err(RecordError::DuplicateField(Field::Tx))
        } else {
            match value {
                None => Err(RecordError::MissingValue),
                Some(v) => match integer_value(v, u32::MAX as nat) {
                    Some(n) => Ok(PartialRecord { tx: Some(n as u32), ..st }),
                    None => Err(RecordError::InvalidValue),
                },
            }
        },
        Some(Field::Amount) => match value {
            None => Ok(PartialRecord { amount: None, ..st }),
            Some(v) => if v.len() == 0 {
                Ok(PartialRecord { amount: None, ..st })
            } else {
                match unsigned_from_text(v) {
                    Some(d) => Ok(PartialRecord { amount: Some(d), ..st }),
                    None => Err(RecordError::InvalidValue),
                }
            },
        },
    }
}

/// Reading the first `n` columns, in order, stopping at the first error.
pub open spec fn read_columns(headers: Seq<Seq<char>>, fields: Seq<Seq<char>>, n: nat) -> Result<
    PartialRecord,
    RecordError,
>
    decreases n,
{
    if n == 0 {
        Ok(empty_record())
    } else {
        match read_columns(headers, fields, (n - 1) as nat) {
            Ok(st) => read_column(st, headers[n - 1], value_at(fields, n - 1)),
            Err(e) => Err(e),
        }
    }
}

/// The transaction that the values read from a record describe.
pub open spec fn record_transaction(st: PartialRecord) -> Result<InputTransaction, RecordError> {
    if st.tx_type is None {
        Err(RecordError::MissingField(Field::Type))
    } else if st.client is None {
        Err(RecordError::MissingField(Field::Client))
    } else if st.tx is None {
        Err(RecordError::MissingField(Field::Tx))
    } else {
        let client = st.client->0;
        let tx = st.tx->0;
        match kind_of_type(st.tx_type->0) {
            Some(RecordKind::Deposit) => match st.amount {
                Some(amount) => Ok(InputTransaction::Deposit { client, tx, amount }),
                None => Err(RecordError::MissingField(Field::Amount)),
            },
            Some(RecordKind::Withdrawal) => match st.amount {
                Some(amount) => Ok(InputTransaction::Withdrawal { client, tx, amount }),
                None => Err(RecordError::MissingField(Field::Amount)),
            },
            Some(RecordKind::Dispute) => Ok(InputTransaction::Dispute { client, tx }),
            Some(RecordKind::Resolve) => Ok(InputTransaction::Resolve { client, tx }),
            Some(RecordKind::Chargeback) => Ok(InputTransaction::Chargeback { client, tx }),
            None => Err(RecordError::UnknownType),
        }
    }
}

/// The transaction that a row `fields` under the header row `headers`
/// describes; columns past the last header are ignored.
pub open spec fn transaction_from_record(headers: Seq<Seq<char>>, fields: Seq<Seq<char>>) -> Result<
    InputTransaction,
    RecordError,
> {
    match read_columns(headers, fields, headers.len()) {
        Ok(st) => record_transaction(st),
        Err(e) => Err(e),
    }
}

/// The characters of a list of strings.
pub open spec fn text_of(v: Seq<String>) -> Seq<Seq<char>> {
    v.map_values(|s: String| s@)
}

/// The column that header `h` names.
fn header_field(h: &Vec<char>) -> (r: Option<Field>)
    ensures
        r == field_of_header(h@),
{
    let n = h.len();
    if n == 4 && h[0] == 't' && h[1] == 'y' && h[2] == 'p' && h[3] == 'e' {
        assert(h@ =~= seq!['t', 'y', 'p', 'e']);
        Some(Field::Type)
    } else if n == 6 && h[0] == 'c' && h[1] == 'l' && h[2] == 'i' && h[3] == 'e' && h[4] == 'n'
        && h[5] == 't' {
        assert(h@ =~= seq!['c', 'l', 'i', 'e', 'n', 't']);
        Some(Field::Client)
    } else if n == 2 && h[0] == 't' && h[1] == 'x' {
        assert(h@ =~= seq!['t', 'x']);
        Some(Field::Tx)
    } else if n == 6 && h[0] == 'a' && h[1] == 'm' && h[2] == 'o' && h[3] == 'u' && h[4] == 'n'
        && h[5] == 't' {
        assert(h@ =~= seq!['a', 'm', 'o', 'u', 'n', 't']);
        Some(Field::Amount)
    } else {
        proof {
            if h@ =~= seq!['t', 'y', 'p', 'e'] {
                assert(h@[0] == 't' && h@[1] == 'y' && h@[2] == 'p' && h@[3] == 'e');
            }
            if h@ =~= seq!['c', 'l', 'i', 'e', 'n', 't'] {
                assert(h@[0] == 'c' && h@[5] == 't');
            }
            if h@ =~= seq!['t', 'x'] {
                assert(h@[0] == 't' && h@[1] == 'x');
            }
            if h@ =~= seq!['a', 'm', 'o', 'u', 'n', 't'] {
                assert(h@[0] == 'a' && h@[5] == 't');
            }
        }
        None
    }
}

/// The value of digit `c` in base `radix`.
fn digit_of(c: char, radix: u32) -> (r: Option<u32>)
    ensures
        r matches Some(d) ==> digit_value(c, radix as nat) == Some(d as nat) && d < 16,
        r is None <==> digit_value(c, radix as nat) is None,
{
    let x = c as u32;
    if 48 <= x && x <= 57 {
        Some(x - 48)
    } else if radix == 16 && 97 <= x && x <= 102 {
        Some(x - 87)
    } else if radix == 16 && 65 <= x && x <= 70 {
        Some(x - 55)
    } else {
        None
    }
}

/// A leading part of a run of digits spells no larger a number than the run.
pub proof fn lemma_digits_number_prefix(t: Seq<char>, k: nat, radix: nat)
    requires
        k <= t.len(),
        radix >= 1,
    ensures
        digits_number(t.take(k as int), radix) <= digits_number(t, radix),
    decreases t.len(),
{
    if k == t.len() {
        assert(t.take(k as int) =~= t);
    } else {
        lemma_digits_number_prefix(t.drop_last(), k, radix);
        assert(t.drop_last().take(k as int) =~= t.take(k as int));
        let x = digits_number(t.drop_last(), radix);
        assert(x * radix >= x) by (nonlinear_arith)
            requires
                radix >= 1,
                x >= 0,
        ;
    }
}

/// The number that `s[start..]` spells in base `radix`, as `radix_number`.
fn radix_number_of(s: &Vec<char>, start: usize, radix: u32, max: u32) -> (r: Option<u32>)
    requires
        start <= s.len(),
        radix == 10 || radix == 16,
    ensures
        r matches Some(n) ==> radix_number(s@.skip(start as int), radix as nat, max as nat) == Some(
            n as nat,
        ),
        r is None <==> radix_number(s@.skip(start as int), radix as nat, max as nat) is None,
{
    let ghost rest = s@.skip(start as int);
    let mut begin = start;
    if begin < s.len() && s[begin] == '+' {
        begin = begin + 1;
    }
    let ghost body = s@.subrange(begin as int, s@.len() as int);
    assert(body =~= (if rest.len() > 0 && rest[0] == '+' {
        rest.drop_first()
    } else {
        rest
    }));
    if begin == s.len() {
        return None;
    }
    let mut acc: u64 = 0;
    let mut i = begin;
    assert(s@.subrange(begin as int, begin as int) =~= Seq::<char>::empty());
    while i < s.len()
        invariant
            begin <= i <= s.len(),
            begin < s.len(),
            body == s@.subrange(begin as int, s@.len() as int),
            rest == s@.skip(start as int),
            body == (if rest.len() > 0 && rest[0] == '+' {
                rest.drop_first()
            } else {
                rest
            }),
            radix == 10 || radix == 16,
            acc == digits_number(s@.subrange(begin as int, i as int), radix as nat),
            acc <= max,
            all_digits(s@.subrange(begin as int, i as int), radix as nat),
        decreases s.len() - i,
    {
        let ghost prefix = s@.subrange(begin as int, (i + 1) as int);
        assert(prefix.drop_last() =~= s@.subrange(begin as int, i as int));
        assert(prefix.last() == s@[i as int]);
        match digit_of(s[i], radix) {
            None => {
                assert(body[i - begin] == s@[i as int]);
                assert(digit_value(body[i - begin], radix as nat) is None);
                return None;
            },
            Some(d) => {
                assert(acc * radix <= 0xffff_ffffu64 * 16) by (nonlinear_arith)
                    requires
                        acc <= 0xffff_ffffu64,
                        radix <= 16,
                ;
                let next: u64 = acc * (radix as u64) + (d as u64);
                if next > max as u64 {
                    proof {
                        assert(body.take((i + 1 - begin) as int) =~= prefix);
                        lemma_digits_number_prefix(body, (i + 1 - begin) as nat, radix as nat);
                    }
                    return None;
                }
                proof {
                    assert forall|j: int| 0 <= j < prefix.len() implies (#[trigger] digit_value(
                        prefix[j],
                        radix as nat,
                    )) is Some by {
                        if j < prefix.len() - 1 {
                            assert(prefix[j] == s@.subrange(begin as int, i as int)[j]);
                        }
                    }
                }
                acc = next;
            },
        }
        i = i + 1;
    }
    assert(body =~= s@.subrange(begin as int, i as int));
    Some(acc as u32)
}

/// The unsigned integer, at most `max`, that `s` spells, as `integer_value`.
fn integer_value_of(s: &Vec<char>, max: u32) -> (r: Option<u32>)
    ensures
        r matches Some(n) ==> integer_value(s@, max as nat) == Some(n as nat),
        r is None <==> integer_value(s@, max as nat) is None,
{
    if s.len() >= 2 && s[0] == '0' && s[1] == 'x' {
        radix_number_of(s, 2, 16, max)
    } else {
        assert(s@.skip(0) =~= s@);
        radix_number_of(s, 0, 10, max)
    }
}

/// Whether `c` is Unicode white space.
fn white_space(c: char) -> (r: bool)
    ensures
        r == is_white_space(c),
{
    let x = c as u32;
    (9 <= x && x <= 13) || x == 32 || x == 0x85 || x == 0xA0 || x == 0x1680 || (0x2000 <= x && x
        <= 0x200A) || x == 0x2028 || x == 0x2029 || x == 0x202F || x == 0x205F || x == 0x3000
}

/// The bounds of `s` without leading and trailing white space.
fn trim_bounds(s: &Vec<char>) -> (r: (usize, usize))
    ensures
        r.0 <= r.1 <= s.len(),
        trim(s@) == s@.subrange(r.0 as int, r.1 as int),
{
    let n = s.len();
    let mut lo: usize = 0;
    assert(s@.subrange(0, n as int) =~= s@);
    while lo < n && white_space(s[lo])
        invariant
            lo <= n == s.len(),
            trim_start(s@) == trim_start(s@.subrange(lo as int, n as int)),
        decreases n - lo,
    {
        assert(s@.subrange(lo as int, n as int).drop_first() =~= s@.subrange(
            (lo + 1) as int,
            n as int,
        ));
        lo = lo + 1;
    }
    let mut hi: usize = n;
    while hi > lo && white_space(s[hi - 1])
        invariant
            lo <= hi <= n == s.len(),
            lo == n || !is_white_space(s@[lo as int]),
            trim_start(s@) == trim_start(s@.subrange(lo as int, n as int)),
            trim_end(s@.subrange(lo as int, n as int)) == trim_end(s@.subrange(lo as int, hi as int)),
        decreases hi - lo,
    {
        assert(s@.subrange(lo as int, hi as int).drop_last() =~= s@.subrange(
            lo as int,
            (hi - 1) as int,
        ));
        hi = hi - 1;
    }
    (lo, hi)
}

/// The code point of the lower case of `c`, as `lower_code`.
fn lower_code_of(c: char) -> (r: u32)
    ensures
        r == lower_code(c),
{
    let x = c as u32;
    if 65 <= x && x <= 90 {
        x + 32
    } else if x == 0x212A {
        107
    } else {
        x
    }
}

/// Whether lower-casing `s[lo..hi]` gives exactly the word `w`.
fn lowercases_to_word(s: &Vec<char>, lo: usize, hi: usize, w: &[char]) -> (r: bool)
    requires
        lo <= hi <= s.len(),
    ensures
        r == lowercases_to(s@.subrange(lo as int, hi as int), w@),
{
    let ghost t = s@.subrange(lo as int, hi as int);
    if hi - lo != w.len() {
        return false;
    }
    let mut i: usize = 0;
    while i < w.len()
        invariant
            hi - lo == w.len(),
            lo <= hi <= s.len(),
            t == s@.subrange(lo as int, hi as int),
            i <= w.len(),
            forall|j: int| 0 <= j < i ==> lower_code(#[trigger] t[j]) == w@[j] as u32,
        decreases w.len() - i,
    {
        assert(t[i as int] == s@[lo + i]);
        if lower_code_of(s[lo + i]) != w[i] as u32 {
            return false;
        }
        i = i + 1;
    }
    true
}

/// The kind of transaction that the `type` value `s` names, as `kind_of_type`.
fn kind_of_type_value(s: &Vec<char>) -> (r: Option<RecordKind>)
    ensures
        r == kind_of_type(s@),
{
    let (lo, hi) = trim_bounds(s);
    let deposit = ['d', 'e', 'p', 'o', 's', 'i', 't'];
    let withdrawal = ['w', 'i', 't', 'h', 'd', 'r', 'a', 'w', 'a', 'l'];
    let dispute = ['d', 'i', 's', 'p', 'u', 't', 'e'];
    let resolve = ['r', 'e', 's', 'o', 'l', 'v', 'e'];
    let chargeback = ['c', 'h', 'a', 'r', 'g', 'e', 'b', 'a', 'c', 'k'];
    assert(deposit@ =~= seq!['d', 'e', 'p', 'o', 's', 'i', 't']);
    assert(withdrawal@ =~= seq!['w', 'i', 't', 'h', 'd', 'r', 'a', 'w', 'a', 'l']);
    assert(dispute@ =~= seq!['d', 'i', 's', 'p', 'u', 't', 'e']);
    assert(resolve@ =~= seq!['r', 'e', 's', 'o', 'l', 'v', 'e']);
    assert(chargeback@ =~= seq!['c', 'h', 'a', 'r', 'g', 'e', 'b', 'a', 'c', 'k']);
    if lowercases_to_word(s, lo, hi, deposit.as_slice()) {
        Some(RecordKind::Deposit)
    } else if lowercases_to_word(s, lo, hi, withdrawal.as_slice()) {
        Some(RecordKind::Withdrawal)
    } else if lowercases_to_word(s, lo, hi, dispute.as_slice()) {
        Some(RecordKind::Dispute)
    } else if lowercases_to_word(s, lo, hi, resolve.as_slice()) {
        Some(RecordKind::Resolve)
    } else if lowercases_to_word(s, lo, hi, chargeback.as_slice()) {
        Some(RecordKind::Chargeback)
    } else {
        None
    }
}

/// Once reading stops at an error, reading more columns reports that error.
pub proof fn lemma_read_columns_stop(headers: Seq<Seq<char>>, fields: Seq<Seq<char>>, n: nat, m: nat)
    requires
        n <= m,
        read_columns(headers, fields, n) is Err,
    ensures
        read_columns(headers, fields, m) == read_columns(headers, fields, n),
    decreases m - n,
{
    if n < m {
        lemma_read_columns_stop(headers, fields, n, (m - 1) as nat);
    }
}

/// The characters of an optional string.
pub open spec fn chars_view(v: Option<Vec<char>>) -> Option<Seq<char>> {
    match v {
        Some(c) => Some(c@),
        None => None,
    }
}

impl InputTransaction {
    /// Reads a transaction from one row `fields` of a table whose header row
    /// is `headers`. Columns are read in order and the first problem found is
    /// reported; columns past the last header are ignored.
    pub fn from_record(headers: &Vec<String>, fields: &Vec<String>) -> (r: Result<
        InputTransaction,
        RecordError,
    >)
        ensures
            r == transaction_from_record(text_of(headers@), text_of(fields@)),
    {
        let ghost hs = text_of(headers@);
        let ghost fs = text_of(fields@);
        let mut tx_type: Option<Vec<char>> = None;
        let mut client: Option<u16> = None;
        let mut tx: Option<u32> = None;
        let mut amount: Option<UnsignedDecimal> = None;
        let mut i: usize = 0;
        while i < headers.len()
            invariant
                i <= headers.len(),
                hs == text_of(headers@),
                fs == text_of(fields@),
                read_columns(hs, fs, i as nat) == Ok::<PartialRecord, RecordError>(
                    PartialRecord { tx_type: chars_view(tx_type), client, tx, amount },
                ),
            decreases headers.len() - i,
        {
            let header = chars_of(headers[i].as_str());
            assert(hs[i as int] == header@);
            let ghost value = value_at(fs, i as int);
            let has_value = i < fields.len();
            proof {
                if has_value {
                    assert(fs[i as int] == fields@[i as int]@);
                }
            }
            let outcome: Result<(), RecordError> = match header_field(&header) {
                None => Err(RecordError::UnknownField),
                Some(Field::Type) => {
                    if tx_type.is_some() {
                        Err(RecordError::DuplicateField(Field::Type))
                    } else if !has_value {
                        Err(RecordError::MissingValue)
                    } else {
                        tx_type = Some(chars_of(fields[i].as_str()));
                        Ok(())
                    }
                },
                Some(Field::Client) => {
                    if client.is_some() {
                        Err(RecordError::DuplicateField(Field::Client))
                    } else if !has_value {
                        Err(RecordError::MissingValue)
                    } else {
                        let text = chars_of(fields[i].as_str());
                        match integer_value_of(&text, 0xffff) {
                            Some(n) => {
                                client = Some(n as u16);
                                Ok(())
                            },
                            None => Err(RecordError::InvalidValue),
                        }
                    }
                },
                Some(Field::Tx) => {
                    if tx.is_some() {
                        Err(RecordError::DuplicateField(Field::Tx))
                    } else if !has_value {
                        Err(RecordError::MissingValue)
                    } else {
                        let text = chars_of(fields[i].as_str());
                        match integer_value_of(&text, 0xffff_ffff) {
                            Some(n) => {
                                tx = Some(n);
                                Ok(())
                            },
                            None => Err(RecordError::InvalidValue),
                        }
                    }
                },
                Some(Field::Amount) => {
                    if !has_value {
                        amount = None;
                        Ok(())
                    } else {
                        let text = chars_of(fields[i].as_str());
                        if text.len() == 0 {
                            amount = None;
                            Ok(())
                        } else {
                            match UnsignedDecimal::parse(fields[i].as_str()) {
                                Some(d) => {
                                    amount = Some(d);
                                    Ok(())
                                },
                                None => Err(RecordError::InvalidValue),
                            }
                        }
                    }
                },
            };
            if let Err(e) = outcome {
                proof {
                    lemma_read_columns_stop(hs, fs, (i + 1) as nat, headers.len() as nat);
                }
                return Err(e);
            }
            i = i + 1;
        }
        let tx_type = match tx_type {
            Some(t) => t,
            None => {
                return Err(RecordError::MissingField(Field::Type));
            },
        };
        let client = match client {
            Some(c) => c,
            None => {
                return Err(RecordError::MissingField(Field::Client));
            },
        };
        let tx = match tx {
            Some(t) => t,
            None => {
                return Err(RecordError::MissingField(Field::Tx));
            },
        };
        match kind_of_type_value(&tx_type) {
            Some(RecordKind::Deposit) => match amount {
                Some(amount) => Ok(InputTransaction::Deposit { client, tx, amount }),
                None => Err(RecordError::MissingField(Field::Amount)),
            },
            Some(RecordKind::Withdrawal) => match amount {
                Some(amount) => Ok(InputTransaction::Withdrawal { client, tx, amount }),
                None => Err(RecordError::MissingField(Field::Amount)),
            },
            Some(RecordKind::Dispute) => Ok(InputTransaction::Dispute { client, tx }),
            Some(RecordKind::Resolve) => Ok(InputTransaction::Resolve { client, tx }),
            Some(RecordKind::Chargeback) => Ok(InputTransaction::Chargeback { client, tx }),
            None => Err(RecordError::UnknownType),
        }
    }
}

} // verus!
