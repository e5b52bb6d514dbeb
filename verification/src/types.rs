//! Decimal amounts.
//!
//! An amount is a sign, a 128-bit coefficient and a scale: the number
//! `coefficient * 10^(-scale)`, negated when the sign is set. A sum or
//! difference is computed exactly when its operands and result fit in 128
//! bits at the larger of the two scales; otherwise fastnum's `D128`
//! computes it, rounding as it does; a result that overflows fastnum's
//! exponent range is refused. Decimal text is read and written with fastnum.

use fastnum::decimal::{Context, Sign};
use fastnum::{D128, U128, UD128};
use vstd::prelude::*;
use vstd::std_specs::cmp::PartialEqSpecImpl;

verus! {

/// `10` raised to `n`.
pub open spec fn pow10(n: nat) -> nat
    decreases n,
{
    if n == 0 {
        1
    } else {
        10 * pow10((n - 1) as nat)
    }
}

/// Every power of ten is positive.
pub proof fn lemma_pow10_positive(n: nat)
    ensures
        pow10(n) >= 1,
    decreases n,
{
    if n > 0 {
        lemma_pow10_positive((n - 1) as nat);
    }
}

/// `10^(a + b) == 10^a * 10^b`.
pub proof fn lemma_pow10_add(a: nat, b: nat)
    ensures
        pow10(a + b) == pow10(a) * pow10(b),
    decreases a,
{
    if a > 0 {
        let a1 = (a - 1) as nat;
        lemma_pow10_add(a1, b);
        assert((a + b - 1) as nat == a1 + b);
        assert(pow10(a + b) == 10 * pow10(a1 + b));
        assert(10 * (pow10(a1) * pow10(b)) == (10 * pow10(a1)) * pow10(b)) by (nonlinear_arith);
    } else {
        assert(pow10(0) == 1);
        assert(a + b == b);
    }
}

/// Multiplying by a larger power of ten moves a number away from zero.
pub proof fn lemma_pow10_grows(x: int, a: nat, b: nat)
    requires
        a <= b,
    ensures
        x >= 0 ==> x * pow10(a) <= x * pow10(b),
        x < 0 ==> x * pow10(b) <= x * pow10(a),
{
    lemma_pow10_add(a, (b - a) as nat);
    lemma_pow10_positive((b - a) as nat);
    lemma_pow10_positive(a);
    let p = pow10(a);
    let q = pow10((b - a) as nat);
    assert(a + (b - a) as nat == b);
    if x >= 0 {
        assert(x * p <= x * (p * q)) by (nonlinear_arith)
            requires
                x >= 0,
                p >= 1,
                q >= 1,
        ;
    } else {
        assert(x * (p * q) <= x * p) by (nonlinear_arith)
            requires
                x < 0,
                p >= 1,
                q >= 1,
        ;
    }
}

/// `x` lies in the range of `u128`.
pub open spec fn fits_u128(x: int) -> bool {
    0 <= x <= u128::MAX
}

/// The factor that turns a number of scale `scale` into a whole multiple of
/// `10^(-32767)`, the finest scale there is.
pub open spec fn magnify(scale: i16) -> nat {
    pow10((32767 - scale) as nat)
}

/// The number of decimal places between two scales.
pub open spec fn scale_gap(from: i16, to: i16) -> nat {
    (to - from) as nat
}

/// A coefficient at scale `from` denotes the same number as that coefficient
/// times `10^(to - from)` at scale `to`.
pub proof fn lemma_rescale_value(c: int, from: i16, to: i16)
    requires
        from <= to,
    ensures
        c * magnify(from) == (c * pow10(scale_gap(from, to))) * magnify(to),
{
    let k = scale_gap(from, to);
    let m = (32767 - to) as nat;
    lemma_pow10_add(k, m);
    assert(k + m == (32767 - from) as nat);
    let p = pow10(k);
    let q = pow10(m);
    assert(c * (p * q) == (c * p) * q) by (nonlinear_arith);
}

/// Two numbers at the same scale compare as their coefficients do.
pub proof fn lemma_same_scale_values(x: int, y: int, s: i16)
    ensures
        (x * magnify(s) == y * magnify(s)) <==> x == y,
        (x * magnify(s) <= y * magnify(s)) <==> x <= y,
        x >= 0 ==> x * magnify(s) >= 0,
{
    lemma_pow10_positive((32767 - s) as nat);
    let m = magnify(s);
    assert((x * m == y * m) <==> x == y) by (nonlinear_arith)
        requires
            m >= 1,
    ;
    assert((x * m <= y * m) <==> x <= y) by (nonlinear_arith)
        requires
            m >= 1,
    ;
    assert(x >= 0 ==> x * m >= 0) by (nonlinear_arith)
        requires
            m >= 1,
    ;
}

/// `c * 10^k` when it lies in the range of `u128`.
pub open spec fn unsigned_times_pow10(c: u128, k: u16) -> Option<u128> {
    if fits_u128(c * pow10(k as nat)) {
        Some((c * pow10(k as nat)) as u128)
    } else {
        None
    }
}

/// Computes `c * 10^k`, or `None` when it leaves the range of `u128`.
pub fn times_pow10_unsigned(c: u128, k: u16) -> (r: Option<u128>)
    ensures
        r == unsigned_times_pow10(c, k),
{
    if c == 0 {
        assert(0 * pow10(k as nat) == 0);
        return Some(0);
    }
    let mut acc: u128 = c;
    let mut i: u16 = 0;
    assert(pow10(0) == 1);
    while i < k
        invariant
            c != 0,
            i <= k,
            acc == c * pow10(i as nat),
        decreases k - i,
    {
        assert(pow10((i + 1) as nat) == 10 * pow10(i as nat));
        assert(c * pow10((i + 1) as nat) == (c * pow10(i as nat)) * 10) by (nonlinear_arith)
            requires
                pow10((i + 1) as nat) == 10 * pow10(i as nat),
        ;
        match acc.checked_mul(10) {
            Some(v) => {
                acc = v;
            },
            None => {
                proof {
                    lemma_pow10_grows(c as int, (i + 1) as nat, k as nat);
                }
                return None;
            },
        }
        i = i + 1;
    }
    Some(acc)
}

/// A signed decimal number: `coefficient * 10^(-scale)`, negated when
/// `negative` is set.
#[derive(Clone, Copy, Debug, Eq)]
pub struct SignedDecimal {
    pub negative: bool,
    pub coefficient: u128,
    /// The number of fractional decimal digits; negative for multiples of a
    /// power of ten.
    pub scale: i16,
}

/// A non-negative decimal number: `coefficient * 10^(-scale)`.
#[derive(Clone, Copy, Debug, Eq)]
pub struct UnsignedDecimal {
    pub coefficient: u128,
    /// The number of fractional decimal digits; negative for multiples of a
    /// power of ten.
    pub scale: i16,
}

/// The text is not a finite decimal number that a 128-bit coefficient holds.
#[derive(Clone, Copy, Debug, PartialEq, Eq, Structural)]
pub struct ParseDecimalError;

/// The view of an amount is the number it denotes times `10^32767`, which is
/// an integer for every amount.
impl View for SignedDecimal {
    type V = int;

    open spec fn view(&self) -> int {
        if self.negative {
            -(self.coefficient * magnify(self.scale))
        } else {
            self.coefficient * magnify(self.scale)
        }
    }
}

/// The view of an amount is the number it denotes times `10^32767`, which is
/// an integer for every amount.
impl View for UnsignedDecimal {
    type V = int;

    open spec fn view(&self) -> int {
        self.coefficient * magnify(self.scale)
    }
}

/// The larger of two scales.
pub open spec fn common_scale(a: i16, b: i16) -> i16 {
    if a >= b {
        a
    } else {
        b
    }
}

/// A non-negative amount as a signed one.
pub open spec fn as_signed(u: UnsignedDecimal) -> SignedDecimal {
    SignedDecimal { negative: false, coefficient: u.coefficient, scale: u.scale }
}

/// `d` with its sign flipped.
pub open spec fn negated(d: SignedDecimal) -> SignedDecimal {
    SignedDecimal { negative: !d.negative, ..d }
}

/// The exact sum of `a` and `b` at the larger of their scales, when both
/// coefficients and the result's coefficient fit in 128 bits there. A zero
/// sum of numbers of opposite signs is positive; one of two negative zeros
/// is negative.
pub open spec fn exact_sum(a: SignedDecimal, b: SignedDecimal) -> Option<SignedDecimal> {
    let s = common_scale(a.scale, b.scale);
    let x = a.coefficient * pow10(scale_gap(a.scale, s));
    let y = b.coefficient * pow10(scale_gap(b.scale, s));
    if !(fits_u128(x) && fits_u128(y)) {
        None
    } else if a.negative == b.negative {
        if fits_u128(x + y) {
            Some(SignedDecimal { negative: a.negative, coefficient: (x + y) as u128, scale: s })
        } else {
            None
        }
    } else if x > y {
        Some(SignedDecimal { negative: a.negative, coefficient: (x - y) as u128, scale: s })
    } else if x < y {
        Some(SignedDecimal { negative: b.negative, coefficient: (y - x) as u128, scale: s })
    } else {
        Some(SignedDecimal { negative: false, coefficient: 0, scale: s })
    }
}

/// An exact sum denotes the sum.
pub broadcast proof fn lemma_exact_sum_value(a: SignedDecimal, b: SignedDecimal)
    ensures
        #[trigger] exact_sum(a, b) matches Some(r) ==> r@ == a@ + b@,
{
    let s = common_scale(a.scale, b.scale);
    lemma_rescale_value(a.coefficient as int, a.scale, s);
    lemma_rescale_value(b.coefficient as int, b.scale, s);
    let x = a.coefficient * pow10(scale_gap(a.scale, s));
    let y = b.coefficient * pow10(scale_gap(b.scale, s));
    let m = magnify(s);
    assert((x + y) * m == x * m + y * m) by (nonlinear_arith);
    assert((x - y) * m == x * m - y * m) by (nonlinear_arith);
    assert((y - x) * m == y * m - x * m) by (nonlinear_arith);
}

/// A non-negative amount has a non-negative view.
pub broadcast proof fn lemma_unsigned_nonnegative(a: UnsignedDecimal)
    ensures
        #[trigger] a@ >= 0,
{
    lemma_same_scale_values(a.coefficient as int, 0, a.scale);
}

/// Undoing an exact sum is exact too: when `a + b` is computed exactly as
/// `r`, so is `r - b`.
pub proof fn lemma_exact_sum_undo(a: SignedDecimal, b: SignedDecimal)
    requires
        exact_sum(a, b) is Some,
    ensures
        exact_sum(exact_sum(a, b)->Some_0, negated(b)) is Some,
{
    let r = exact_sum(a, b)->Some_0;
    let s = common_scale(a.scale, b.scale);
    assert(common_scale(r.scale, b.scale) == s);
    assert(scale_gap(s, s) == 0);
    assert(pow10(0) == 1);
    assert(r.coefficient * pow10(0) == r.coefficient);
}

/// Adding the non-negative `b` to `a` is computed exactly.
pub open spec fn adds_exactly(a: SignedDecimal, b: UnsignedDecimal) -> bool {
    exact_sum(a, as_signed(b)) is Some
}

/// Subtracting the non-negative `b` from `a` is computed exactly.
pub open spec fn subtracts_exactly(a: SignedDecimal, b: UnsignedDecimal) -> bool {
    exact_sum(a, negated(as_signed(b))) is Some
}

/// An exactly computed `a + b` denotes the sum.
pub broadcast proof fn lemma_signed_plus_exact(a: SignedDecimal, b: UnsignedDecimal)
    requires
        adds_exactly(a, b),
    ensures
        #[trigger] signed_plus(a, b) is Some,
        signed_plus(a, b)->Some_0@ == a@ + b@,
{
    lemma_exact_sum_value(a, as_signed(b));
}

/// An exactly computed `a - b` denotes the difference.
pub broadcast proof fn lemma_signed_minus_exact(a: SignedDecimal, b: UnsignedDecimal)
    requires
        subtracts_exactly(a, b),
    ensures
        #[trigger] signed_minus(a, b) is Some,
        signed_minus(a, b)->Some_0@ == a@ - b@,
{
    lemma_exact_sum_value(a, negated(as_signed(b)));
}

/// An exactly computed sum of non-negative amounts denotes the sum.
pub broadcast proof fn lemma_unsigned_plus_exact(a: UnsignedDecimal, b: UnsignedDecimal)
    requires
        adds_exactly(as_signed(a), b),
    ensures
        #[trigger] unsigned_plus(a, b) is Some,
        unsigned_plus(a, b)->Some_0@ == a@ + b@,
{
    lemma_exact_sum_value(as_signed(a), as_signed(b));
}

/// An exactly computed difference of non-negative amounts that is not below
/// zero denotes the difference.
pub broadcast proof fn lemma_unsigned_minus_exact(a: UnsignedDecimal, b: UnsignedDecimal)
    requires
        subtracts_exactly(as_signed(a), b),
        a@ >= b@,
    ensures
        #[trigger] unsigned_minus(a, b) is Some,
        unsigned_minus(a, b)->Some_0@ == a@ - b@,
{
    let r = exact_sum(as_signed(a), negated(as_signed(b)))->Some_0;
    lemma_exact_sum_value(as_signed(a), negated(as_signed(b)));
    lemma_same_scale_values(r.coefficient as int, 0, r.scale);
}

/// An amount as fastnum's `from_parts` takes it: sign, coefficient and
/// exponent, the exponent being the negated scale.
pub open spec fn d128_parts(d: SignedDecimal) -> (bool, u128, i32) {
    (d.negative, d.coefficient, (-(d.scale as int)) as i32)
}

/// What fastnum's `D128::add`, under the default rounding and with no
/// signal trapped, returns for the numbers with parts `a` and `b` (sign,
/// coefficient, exponent), taken apart as (finite, overflowed, negative,
/// coefficient, scale), where "overflowed" is the overflow signal that the
/// default context traps.
pub uninterp spec fn d128_sum(a: (bool, u128, i32), b: (bool, u128, i32)) -> Option<(bool, bool, bool, u128, i16)>;

/// What fastnum's `D128::sub`, under the default rounding and with no
/// signal trapped, returns for the numbers with parts `a` and `b`, taken
/// apart as (finite, overflowed, negative, coefficient, scale).
pub uninterp spec fn d128_difference(a: (bool, u128, i32), b: (bool, u128, i32)) -> Option<
    (bool, bool, bool, u128, i16),
>;

/// A signed amount from fastnum's parts, when the number is finite and the
/// operation did not overflow.
pub open spec fn from_parts(p: Option<(bool, bool, bool, u128, i16)>) -> Option<SignedDecimal> {
    match p {
        Some((finite, overflowed, negative, coefficient, scale)) => if finite && !overflowed {
            Some(SignedDecimal { negative, coefficient, scale })
        } else {
            None
        },
        None => None,
    }
}

/// `a + b`: exact when `exact_sum` gives it, otherwise as fastnum computes it.
pub open spec fn decimal_sum(a: SignedDecimal, b: SignedDecimal) -> Option<SignedDecimal> {
    match exact_sum(a, b) {
        Some(r) => Some(r),
        None => from_parts(d128_sum(d128_parts(a), d128_parts(b))),
    }
}

/// `a - b`: exact when `exact_sum` gives `a + (-b)`, otherwise as fastnum
/// computes it.
pub open spec fn decimal_difference(a: SignedDecimal, b: SignedDecimal) -> Option<SignedDecimal> {
    match exact_sum(a, negated(b)) {
        Some(r) => Some(r),
        None => from_parts(d128_difference(d128_parts(a), d128_parts(b))),
    }
}

/// A signed result as a non-negative amount, when it is not below zero.
pub open spec fn non_negative(r: Option<SignedDecimal>) -> Option<UnsignedDecimal> {
    match r {
        Some(d) => if d.negative && d.coefficient != 0 {
            None
        } else {
            Some(UnsignedDecimal { coefficient: d.coefficient, scale: d.scale })
        },
        None => None,
    }
}

/// `a + b` for a signed and a non-negative amount.
pub open spec fn signed_plus(a: SignedDecimal, b: UnsignedDecimal) -> Option<SignedDecimal> {
    decimal_sum(a, as_signed(b))
}

/// `a - b` for a signed and a non-negative amount.
pub open spec fn signed_minus(a: SignedDecimal, b: UnsignedDecimal) -> Option<SignedDecimal> {
    decimal_difference(a, as_signed(b))
}

/// `a + b` for non-negative amounts.
pub open spec fn unsigned_plus(a: UnsignedDecimal, b: UnsignedDecimal) -> Option<UnsignedDecimal> {
    non_negative(decimal_sum(as_signed(a), as_signed(b)))
}

/// `a - b` for non-negative amounts, when it is not below zero.
pub open spec fn unsigned_minus(a: UnsignedDecimal, b: UnsignedDecimal) -> Option<UnsignedDecimal> {
    non_negative(decimal_difference(as_signed(a), as_signed(b)))
}

/// Calls fastnum's `D128::add` on the numbers with parts `a` and `b` (built
/// with `from_parts` in the default context with no signal trapped) and
/// takes the result apart, with its overflow signal. The contract only names
/// that result.
#[verifier::external_body]
fn fastnum_add(a: (bool, u128, i32), b: (bool, u128, i32)) -> (r: Option<(bool, bool, bool, u128, i16)>)
    ensures
        r == d128_sum(a, b),
{
    let ctx = Context::default().without_traps();
    let sa = if a.0 { Sign::Minus } else { Sign::Plus };
    let sb = if b.0 { Sign::Minus } else { Sign::Plus };
    let d = D128::from_parts(U128::from_u128(a.1).ok()?, a.2, sa, ctx)
        .add(D128::from_parts(U128::from_u128(b.1).ok()?, b.2, sb, ctx));
    Some((d.is_finite(), d.is_op_overflow(), d.is_sign_negative(), d.digits().to_u128().ok()?, d.fractional_digits_count()))
}

/// Calls fastnum's `D128::sub` on the numbers with parts `a` and `b` (built
/// with `from_parts` in the default context with no signal trapped) and
/// takes the result apart, with its overflow signal. The contract only names
/// that result.
#[verifier::external_body]
fn fastnum_sub(a: (bool, u128, i32), b: (bool, u128, i32)) -> (r: Option<(bool, bool, bool, u128, i16)>)
    ensures
        r == d128_difference(a, b),
{
    let ctx = Context::default().without_traps();
    let sa = if a.0 { Sign::Minus } else { Sign::Plus };
    let sb = if b.0 { Sign::Minus } else { Sign::Plus };
    let d = D128::from_parts(U128::from_u128(a.1).ok()?, a.2, sa, ctx)
        .sub(D128::from_parts(U128::from_u128(b.1).ok()?, b.2, sb, ctx));
    Some((d.is_finite(), d.is_op_overflow(), d.is_sign_negative(), d.digits().to_u128().ok()?, d.fractional_digits_count()))
}

/// Both coefficients brought to the larger of the two scales.
fn align(ac: u128, a_scale: i16, bc: u128, b_scale: i16) -> (r: Option<(u128, u128, i16)>)
    ensures
        ({
            let s = common_scale(a_scale, b_scale);
            let x = ac * pow10(scale_gap(a_scale, s));
            let y = bc * pow10(scale_gap(b_scale, s));
            &&& x >= 0 && y >= 0
            &&& r is None <==> !(fits_u128(x) && fits_u128(y))
            &&& r matches Some(t) ==> t.0 == x && t.1 == y && t.2 == s
        }),
{
    let ghost s = common_scale(a_scale, b_scale);
    proof {
        lemma_pow10_positive(scale_gap(a_scale, s));
        lemma_pow10_positive(scale_gap(b_scale, s));
        let pa = pow10(scale_gap(a_scale, s));
        let pb = pow10(scale_gap(b_scale, s));
        let ca = ac as int;
        let cb = bc as int;
        assert(ca * pa >= 0 && cb * pb >= 0) by (nonlinear_arith)
            requires
                ca >= 0,
                cb >= 0,
                pa >= 1,
                pb >= 1,
        ;
        assert(pow10(0) == 1);
    }
    if a_scale >= b_scale {
        assert(scale_gap(a_scale, a_scale) == 0);
        assert(ac * pow10(0) == ac);
        let k: u16 = (a_scale as i32 - b_scale as i32) as u16;
        match times_pow10_unsigned(bc, k) {
            Some(y) => Some((ac, y, a_scale)),
            None => None,
        }
    } else {
        assert(scale_gap(b_scale, b_scale) == 0);
        assert(bc * pow10(0) == bc);
        let k: u16 = (b_scale as i32 - a_scale as i32) as u16;
        match times_pow10_unsigned(ac, k) {
            Some(x) => Some((x, bc, b_scale)),
            None => None,
        }
    }
}

/// The exact sum, as `exact_sum`.
fn exact_sum_of(a: SignedDecimal, b: SignedDecimal) -> (r: Option<SignedDecimal>)
    ensures
        r == exact_sum(a, b),
{
    match align(a.coefficient, a.scale, b.coefficient, b.scale) {
        Some((x, y, s)) => {
            if a.negative == b.negative {
                match x.checked_add(y) {
                    Some(c) => Some(SignedDecimal { negative: a.negative, coefficient: c, scale: s }),
                    None => None,
                }
            } else if x > y {
                Some(SignedDecimal { negative: a.negative, coefficient: x - y, scale: s })
            } else if x < y {
                Some(SignedDecimal { negative: b.negative, coefficient: y - x, scale: s })
            } else {
                Some(SignedDecimal { negative: false, coefficient: 0, scale: s })
            }
        },
        None => None,
    }
}

/// The exponent fastnum takes for an amount: its negated scale.
fn parts_for(d: SignedDecimal) -> (p: (bool, u128, i32))
    ensures
        p == d128_parts(d),
{
    (d.negative, d.coefficient, -(d.scale as i32))
}

/// The amount that fastnum's parts describe, unless it is not finite or
/// overflowed, as `from_parts`.
pub fn finite_of(p: Option<(bool, bool, bool, u128, i16)>) -> (r: Option<SignedDecimal>)
    ensures
        r == from_parts(p),
{
    match p {
        Some((finite, overflowed, negative, coefficient, scale)) => if finite && !overflowed {
            Some(SignedDecimal { negative, coefficient, scale })
        } else {
            None
        },
        None => None,
    }
}

/// `a + b`, as `decimal_sum`.
fn sum_of(a: SignedDecimal, b: SignedDecimal) -> (r: Option<SignedDecimal>)
    ensures
        r == decimal_sum(a, b),
{
    match exact_sum_of(a, b) {
        Some(r) => Some(r),
        None => finite_of(fastnum_add(parts_for(a), parts_for(b))),
    }
}

/// `a - b`, as `decimal_difference`.
fn difference_of(a: SignedDecimal, b: SignedDecimal) -> (r: Option<SignedDecimal>)
    ensures
        r == decimal_difference(a, b),
{
    let minus_b = SignedDecimal { negative: !b.negative, ..b };
    match exact_sum_of(a, minus_b) {
        Some(r) => Some(r),
        None => finite_of(fastnum_sub(parts_for(a), parts_for(b))),
    }
}

/// A signed result as a non-negative amount, as `non_negative`.
fn non_negative_of(r: Option<SignedDecimal>) -> (u: Option<UnsignedDecimal>)
    ensures
        u == non_negative(r),
{
    match r {
        Some(d) => if d.negative && d.coefficient != 0 {
            None
        } else {
            Some(UnsignedDecimal { coefficient: d.coefficient, scale: d.scale })
        },
        None => None,
    }
}

/// Whether `a@ >= b@`, for non-negative amounts.
fn unsigned_at_least(a: UnsignedDecimal, b: UnsignedDecimal) -> (r: bool)
    ensures
        r == (a@ >= b@),
{
    if a.scale <= b.scale {
        proof {
            lemma_rescale_value(a.coefficient as int, a.scale, b.scale);
            lemma_same_scale_values(
                a.coefficient * pow10(scale_gap(a.scale, b.scale)),
                b.coefficient as int,
                b.scale,
            );
        }
        let k: u16 = (b.scale as i32 - a.scale as i32) as u16;
        match times_pow10_unsigned(a.coefficient, k) {
            Some(x) => x >= b.coefficient,
            None => true,
        }
    } else {
        proof {
            lemma_rescale_value(b.coefficient as int, b.scale, a.scale);
            lemma_same_scale_values(
                a.coefficient as int,
                b.coefficient * pow10(scale_gap(b.scale, a.scale)),
                a.scale,
            );
        }
        let k: u16 = (a.scale as i32 - b.scale as i32) as u16;
        match times_pow10_unsigned(b.coefficient, k) {
            Some(y) => a.coefficient >= y,
            None => false,
        }
    }
}

impl SignedDecimal {
    /// Zero.
    pub fn zero() -> (r: SignedDecimal)
        ensures
            r == (SignedDecimal { negative: false, coefficient: 0, scale: 0 }),
            r@ == 0,
    {
        SignedDecimal { negative: false, coefficient: 0, scale: 0 }
    }

    /// `self + amount`; `None` when the sum overflows.
    pub fn checked_add(self, amount: UnsignedDecimal) -> (r: Option<SignedDecimal>)
        ensures
            r == signed_plus(self, amount),
    {
        sum_of(self, SignedDecimal { negative: false, coefficient: amount.coefficient, scale: amount.scale })
    }

    /// `self - amount`; `None` when the difference overflows.
    pub fn checked_sub(self, amount: UnsignedDecimal) -> (r: Option<SignedDecimal>)
        ensures
            r == signed_minus(self, amount),
    {
        difference_of(
            self,
            SignedDecimal { negative: false, coefficient: amount.coefficient, scale: amount.scale },
        )
    }

    /// Whether `self` is at least `amount`.
    pub fn covers(self, amount: UnsignedDecimal) -> (r: bool)
        ensures
            r == (self@ >= amount@),
    {
        proof {
            lemma_unsigned_nonnegative(amount);
            lemma_same_scale_values(self.coefficient as int, 0, self.scale);
            lemma_same_scale_values(amount.coefficient as int, 0, amount.scale);
        }
        if self.negative {
            self.coefficient == 0 && amount.coefficient == 0
        } else {
            unsigned_at_least(
                UnsignedDecimal { coefficient: self.coefficient, scale: self.scale },
                amount,
            )
        }
    }
}

impl UnsignedDecimal {
    /// Zero.
    pub fn zero() -> (r: UnsignedDecimal)
        ensures
            r == (UnsignedDecimal { coefficient: 0, scale: 0 }),
            r@ == 0,
    {
        UnsignedDecimal { coefficient: 0, scale: 0 }
    }

    /// Whether the amount is zero.
    pub fn is_zero(self) -> (r: bool)
        ensures
            r == (self@ == 0),
    {
        proof {
            lemma_same_scale_values(self.coefficient as int, 0, self.scale);
        }
        self.coefficient == 0
    }

    /// `self + amount`; `None` when the sum overflows.
    pub fn checked_add(self, amount: UnsignedDecimal) -> (r: Option<UnsignedDecimal>)
        ensures
            r == unsigned_plus(self, amount),
    {
        non_negative_of(
            sum_of(
                SignedDecimal { negative: false, coefficient: self.coefficient, scale: self.scale },
                SignedDecimal { negative: false, coefficient: amount.coefficient, scale: amount.scale },
            ),
        )
    }

    /// `self - amount`; `None` when the result is below zero or overflows.
    pub fn checked_sub(self, amount: UnsignedDecimal) -> (r: Option<UnsignedDecimal>)
        ensures
            r == unsigned_minus(self, amount),
    {
        non_negative_of(
            difference_of(
                SignedDecimal { negative: false, coefficient: self.coefficient, scale: self.scale },
                SignedDecimal { negative: false, coefficient: amount.coefficient, scale: amount.scale },
            ),
        )
    }

    /// Whether `self` is at least `amount`.
    pub fn covers(self, amount: UnsignedDecimal) -> (r: bool)
        ensures
            r == (self@ >= amount@),
    {
        unsigned_at_least(self, amount)
    }
}

/// Whether two signed amounts denote the same number.
fn signed_same_value(a: SignedDecimal, b: SignedDecimal) -> (r: bool)
    ensures
        r == (a@ == b@),
{
    proof {
        lemma_same_scale_values(a.coefficient as int, 0, a.scale);
        lemma_same_scale_values(b.coefficient as int, 0, b.scale);
    }
    let ma = UnsignedDecimal { coefficient: a.coefficient, scale: a.scale };
    let mb = UnsignedDecimal { coefficient: b.coefficient, scale: b.scale };
    if a.negative == b.negative {
        unsigned_at_least(ma, mb) && unsigned_at_least(mb, ma)
    } else {
        a.coefficient == 0 && b.coefficient == 0
    }
}

impl PartialEq for SignedDecimal {
    fn eq(&self, other: &Self) -> (r: bool) {
        signed_same_value(*self, *other)
    }
}

impl PartialEqSpecImpl for SignedDecimal {
    open spec fn obeys_eq_spec() -> bool {
        true
    }

    open spec fn eq_spec(&self, other: &Self) -> bool {
        self@ == other@
    }
}

impl PartialEq for UnsignedDecimal {
    fn eq(&self, other: &Self) -> (r: bool) {
        unsigned_at_least(*self, *other) && unsigned_at_least(*other, *self)
    }
}

impl PartialEqSpecImpl for UnsignedDecimal {
    open spec fn obeys_eq_spec() -> bool {
        true
    }

    open spec fn eq_spec(&self, other: &Self) -> bool {
        self@ == other@
    }
}

/// The characters of `s`.
pub(crate) fn chars_of(s: &str) -> (v: Vec<char>)
    ensures
        v@ == s@,
{
    let mut v: Vec<char> = Vec::new();
    for c in it: s.chars()
        invariant
            v@ == it.seq().take(it.index() as int),
    {
        v.push(c);
    }
    v
}

/// Whether `c` starts the exponent of decimal text.
pub open spec fn is_exponent_marker(c: char) -> bool {
    c == 'e' || c == 'E'
}

/// Whether `c` is an ASCII digit.
pub open spec fn is_digit(c: char) -> bool {
    '0' <= c <= '9'
}

/// Whether every character of `r` is an ASCII digit.
pub open spec fn all_digits(r: Seq<char>) -> bool {
    forall|i: int| 0 <= i < r.len() ==> is_digit(#[trigger] r[i])
}

/// The number that the ASCII digits `r` denote.
pub open spec fn digits_value(r: Seq<char>) -> int
    decreases r.len(),
{
    if r.len() == 0 {
        0
    } else {
        digits_value(r.drop_last()) * 10 + (r.last() as int - '0' as int)
    }
}

/// The exponent that the text `r` denotes as `i32::from_str_radix` reads it:
/// an optional sign and at least one digit, in the range of `i32`.
pub open spec fn exponent_value(r: Seq<char>) -> Option<int> {
    let negative = r.len() > 0 && r[0] == '-';
    let body = if r.len() > 0 && (r[0] == '-' || r[0] == '+') {
        r.drop_first()
    } else {
        r
    };
    let v = if negative {
        -digits_value(body)
    } else {
        digits_value(body)
    };
    if body.len() > 0 && all_digits(body) && i32::MIN <= v <= i32::MAX {
        Some(v)
    } else {
        None
    }
}

/// Whether `t` holds a `.`.
pub open spec fn has_point(t: Seq<char>) -> bool {
    exists|j: int| 0 <= j < t.len() && t[j] == '.'
}

/// The number of digits of `t` after its first `.`.
pub open spec fn fraction_digits(t: Seq<char>) -> int
    decreases t.len(),
{
    if t.len() == 0 {
        0
    } else if has_point(t.drop_last()) && is_digit(t.last()) {
        fraction_digits(t.drop_last()) + 1
    } else {
        fraction_digits(t.drop_last())
    }
}

/// Whether fastnum's exponent arithmetic stays in range for a number whose
/// text before the exponent marker is `mantissa` and after it `exponent`: the
/// exponent, less the number of fractional digits, is at least `i32::MIN`.
pub open spec fn exponent_fits(mantissa: Seq<char>, exponent: Seq<char>) -> bool {
    match exponent_value(exponent) {
        Some(e) => e - fraction_digits(mantissa) >= i32::MIN,
        None => true,
    }
}

/// Text that fastnum's decimal reader takes without overflowing its exponent
/// arithmetic: at most a billion characters, and, where there is an
/// exponent (the text after the first `e` or `E`), one that
/// `exponent_fits`.
pub open spec fn readable_decimal_text(s: Seq<char>) -> bool {
    &&& s.len() <= 1_000_000_000
    &&& forall|k: int|
        0 <= k < s.len() && is_exponent_marker(#[trigger] s[k]) && (forall|j: int|
            0 <= j < k ==> !is_exponent_marker(s[j])) ==> exponent_fits(s.take(k), s.skip(k + 1))
}

/// The number of digits after the first `.` among the first `k` characters.
fn count_fraction_digits(v: &Vec<char>, k: usize) -> (r: usize)
    requires
        k <= v.len(),
    ensures
        r == fraction_digits(v@.take(k as int)),
        r <= k,
{
    let mut i: usize = 0;
    let mut seen = false;
    let mut count: usize = 0;
    assert(v@.take(0) =~= Seq::<char>::empty());
    while i < k
        invariant
            k <= v.len(),
            i <= k,
            count <= i,
            count == fraction_digits(v@.take(i as int)),
            seen == has_point(v@.take(i as int)),
        decreases k - i,
    {
        let c = v[i];
        assert(v@.take(i + 1).drop_last() =~= v@.take(i as int));
        assert(v@.take(i + 1).last() == c);
        if seen && '0' <= c && c <= '9' {
            count = count + 1;
        }
        if c == '.' {
            seen = true;
            assert(v@.take(i + 1)[i as int] == '.');
        } else {
            proof {
                if seen {
                    let j = choose|j: int| 0 <= j < i && v@.take(i as int)[j] == '.';
                    assert(v@.take(i + 1)[j] == '.');
                } else {
                    assert forall|j: int| 0 <= j < i + 1 implies #[trigger] v@.take(i + 1)[j] != '.' by {
                        if j < i {
                            assert(v@.take(i + 1)[j] == v@.take(i as int)[j]);
                        }
                    }
                }
            }
        }
        i = i + 1;
    }
    count
}

/// The value of the digits `v[start..]`, or `None` when one is not a digit;
/// values above four billion are reported as four billion and one.
fn digits_of(v: &Vec<char>, start: usize) -> (r: Option<u64>)
    requires
        start <= v.len(),
    ensures
        match r {
            Some(x) => all_digits(v@.skip(start as int)) && (digits_value(v@.skip(start as int))
                <= 4_000_000_000 ==> x == digits_value(v@.skip(start as int))) && (digits_value(
                v@.skip(start as int),
            ) > 4_000_000_000 ==> x == 4_000_000_001),
            None => !all_digits(v@.skip(start as int)),
        },
{
    let n = v.len();
    let mut i: usize = start;
    let mut x: u64 = 0;
    assert(v@.subrange(start as int, start as int) =~= Seq::<char>::empty());
    while i < n
        invariant
            n == v.len(),
            start <= i <= n,
            all_digits(v@.subrange(start as int, i as int)),
            digits_value(v@.subrange(start as int, i as int)) >= 0,
            digits_value(v@.subrange(start as int, i as int)) <= 4_000_000_000 ==> x == digits_value(
                v@.subrange(start as int, i as int),
            ),
            digits_value(v@.subrange(start as int, i as int)) > 4_000_000_000 ==> x == 4_000_000_001,
        decreases n - i,
    {
        let c = v[i];
        let ghost prev = v@.subrange(start as int, i as int);
        let ghost next = v@.subrange(start as int, i + 1);
        assert(next.drop_last() =~= prev);
        assert(next.last() == c);
        if !('0' <= c && c <= '9') {
            assert(v@.skip(start as int)[i - start] == c);
            return None;
        }
        assert forall|j: int| 0 <= j < next.len() implies is_digit(#[trigger] next[j]) by {
            if j < prev.len() {
                assert(next[j] == prev[j]);
            }
        }
        let d: u64 = (c as u32 - '0' as u32) as u64;
        assert(d == c as int - '0' as int);
        if x > 4_000_000_000 {
            x = 4_000_000_001;
        } else {
            x = x * 10 + d;
            if x > 4_000_000_000 {
                x = 4_000_000_001;
            }
        }
        i = i + 1;
    }
    assert(v@.subrange(start as int, n as int) =~= v@.skip(start as int));
    Some(x)
}

/// The exponent that `v[start..]` denotes, as `exponent_value`.
fn exponent_of(v: &Vec<char>, start: usize) -> (r: Option<i64>)
    requires
        start <= v.len(),
    ensures
        match r {
            Some(e) => exponent_value(v@.skip(start as int)) == Some(e as int),
            None => exponent_value(v@.skip(start as int)) is None,
        },
{
    let n = v.len();
    let ghost r = v@.skip(start as int);
    let negative = start < n && v[start] == '-';
    let signed = start < n && (v[start] == '-' || v[start] == '+');
    let b: usize = if signed { start + 1 } else { start };
    proof {
        if signed {
            assert(r.drop_first() =~= v@.skip(b as int));
        } else {
            assert(r =~= v@.skip(b as int));
        }
    }
    if b == n {
        return None;
    }
    match digits_of(v, b) {
        Some(x) => {
            if negative {
                if x <= 2147483648 {
                    Some(-(x as i64))
                } else {
                    None
                }
            } else if x <= 2147483647 {
                Some(x as i64)
            } else {
                None
            }
        },
        None => None,
    }
}

/// Whether `s` is text that fastnum's decimal reader takes safely.
fn readable_text(s: &str) -> (r: bool)
    ensures
        r == readable_decimal_text(s@),
{
    let v = chars_of(s);
    let n = v.len();
    if n > 1_000_000_000 {
        return false;
    }
    let mut k: usize = 0;
    while k < n && !(v[k] == 'e' || v[k] == 'E')
        invariant
            n == v.len() == s@.len(),
            v@ == s@,
            k <= n,
            forall|j: int| 0 <= j < k ==> !is_exponent_marker(s@[j]),
        decreases n - k,
    {
        k = k + 1;
    }
    if k == n {
        return true;
    }
    let f = count_fraction_digits(&v, k);
    let ok = match exponent_of(&v, k + 1) {
        Some(e) => e - (f as i64) >= -2147483648,
        None => true,
    };
    proof {
        assert(exponent_fits(s@.take(k as int), s@.skip(k + 1)) == ok);
        if !ok {
            assert(is_exponent_marker(s@[k as int]));
        }
    }
    ok
}

/// What fastnum's `D128::from_str` reads from the text `s` under the default
/// context, taken apart as (finite, negative, coefficient, scale); `None`
/// when fastnum refuses the text.
pub uninterp spec fn d128_text_parts(s: Seq<char>) -> Option<(bool, bool, u128, i16)>;

/// What fastnum's `UD128::from_str` reads from the text `s` under the default
/// context, taken apart as (finite, coefficient, scale); `None` when fastnum
/// refuses the text.
pub uninterp spec fn ud128_text_parts(s: Seq<char>) -> Option<(bool, u128, i16)>;

/// Calls fastnum's `D128::from_str` with the default context and, on success,
/// reads back whether the number is finite, its sign, its 128-bit coefficient
/// and its scale. The contract only names that result. The text must keep
/// fastnum's exponent arithmetic in range, which otherwise overflows.
#[verifier::external_body]
fn read_d128_text(s: &str) -> (r: Option<(bool, bool, u128, i16)>)
    requires
        readable_decimal_text(s@),
    ensures
        r == d128_text_parts(s@),
{
    match D128::from_str(s, Context::default()) {
        Ok(d) => match d.digits().to_u128() {
            Ok(digits) => Some((d.is_finite(), d.is_sign_negative(), digits, d.fractional_digits_count())),
            Err(_) => None,
        },
        Err(_) => None,
    }
}

/// Calls fastnum's `UD128::from_str` with the default context and, on
/// success, reads back whether the number is finite, its 128-bit coefficient
/// and its scale. The contract names that result and states that text
/// beginning with `-` is refused, as `UD128::from_str` refuses every number
/// whose sign is negative, zero and infinity included. The text must keep
/// fastnum's exponent arithmetic in range, which otherwise overflows.
#[verifier::external_body]
fn read_ud128_text(s: &str) -> (r: Option<(bool, u128, i16)>)
    requires
        readable_decimal_text(s@),
    ensures
        r == ud128_text_parts(s@),
        s@.len() > 0 && s@[0] == '-' ==> r is None,
{
    match UD128::from_str(s, Context::default()) {
        Ok(d) => match d.digits().to_u128() {
            Ok(digits) => Some((d.is_finite(), digits, d.fractional_digits_count())),
            Err(_) => None,
        },
        Err(_) => None,
    }
}

/// The signed amount that the text `s` denotes: the finite number fastnum
/// reads from it, with fastnum's sign, coefficient and scale.
pub open spec fn signed_from_text(s: Seq<char>) -> Option<SignedDecimal> {
    if !readable_decimal_text(s) {
        None
    } else {
        match d128_text_parts(s) {
            Some((finite, negative, coefficient, scale)) => if finite {
                Some(SignedDecimal { negative, coefficient, scale })
            } else {
                None
            },
            None => None,
        }
    }
}

/// The non-negative amount that the text `s` denotes: the finite number
/// fastnum reads from it, with fastnum's coefficient and scale; nothing for
/// text beginning with `-`.
pub open spec fn unsigned_from_text(s: Seq<char>) -> Option<UnsignedDecimal> {
    if !readable_decimal_text(s) || (s.len() > 0 && s[0] == '-') {
        None
    } else {
        match ud128_text_parts(s) {
            Some((finite, coefficient, scale)) => if finite {
                Some(UnsignedDecimal { coefficient, scale })
            } else {
                None
            },
            None => None,
        }
    }
}

/// The text that fastnum writes for the number with parts `p` (sign,
/// coefficient, exponent) formatted with four decimal places, `{:.4}`;
/// `None` when fastnum cannot build the number.
pub uninterp spec fn d128_text_four_places(p: (bool, u128, i32)) -> Option<Seq<char>>;

/// Builds the number with parts `p` with fastnum's `D128::from_parts` in the
/// default context with no signal trapped, and formats it with `{:.4}`. The
/// contract only names the text.
#[verifier::external_body]
fn fastnum_text_four_places(p: (bool, u128, i32)) -> (r: Option<String>)
    ensures
        match r {
            Some(t) => d128_text_four_places(p) == Some(t@),
            None => d128_text_four_places(p) is None,
        },
{
    let sign = match p.0 { true => Sign::Minus, false => Sign::Plus };
    let digits = U128::from_u128(p.1).ok()?;
    Some(format!("{:.4}", D128::from_parts(digits, p.2, sign, Context::default().without_traps())))
}

impl SignedDecimal {
    /// Reads a signed decimal from text.
    pub fn parse(s: &str) -> (r: Option<SignedDecimal>)
        ensures
            r == signed_from_text(s@),
    {
        if !readable_text(s) {
            return None;
        }
        match read_d128_text(s) {
            Some((finite, negative, coefficient, scale)) => if finite {
                Some(SignedDecimal { negative, coefficient, scale })
            } else {
                None
            },
            None => None,
        }
    }

    /// The amount written with four decimal places, rounded by fastnum.
    pub fn to_text(&self) -> (r: Option<String>)
        ensures
            match r {
                Some(t) => d128_text_four_places(d128_parts(*self)) == Some(t@),
                None => d128_text_four_places(d128_parts(*self)) is None,
            },
    {
        fastnum_text_four_places(parts_for(*self))
    }
}

impl UnsignedDecimal {
    /// Reads a non-negative decimal from text; text beginning with `-` is
    /// refused.
    pub fn parse(s: &str) -> (r: Option<UnsignedDecimal>)
        ensures
            r == unsigned_from_text(s@),
            s@.len() > 0 && s@[0] == '-' ==> r is None,
    {
        if !readable_text(s) {
            return None;
        }
        match read_ud128_text(s) {
            Some((finite, coefficient, scale)) => if finite {
                Some(UnsignedDecimal { coefficient, scale })
            } else {
                None
            },
            None => None,
        }
    }

    /// The amount written with four decimal places, rounded by fastnum.
    pub fn to_text(&self) -> (r: Option<String>)
        ensures
            match r {
                Some(t) => d128_text_four_places(d128_parts(as_signed(*self))) == Some(t@),
                None => d128_text_four_places(d128_parts(as_signed(*self))) is None,
            },
    {
        fastnum_text_four_places(
            parts_for(SignedDecimal { negative: false, coefficient: self.coefficient, scale: self.scale }),
        )
    }
}

impl core::str::FromStr for SignedDecimal {
    type Err = ParseDecimalError;

    fn from_str(s: &str) -> (r: Result<SignedDecimal, ParseDecimalError>)
        ensures
            r == (match signed_from_text(s@) {
                Some(d) => Ok::<SignedDecimal, ParseDecimalError>(d),
                None => Err(ParseDecimalError),
            }),
    {
        match SignedDecimal::parse(s) {
            Some(d) => Ok(d),
            None => Err(ParseDecimalError),
        }
    }
}

impl core::str::FromStr for UnsignedDecimal {
    type Err = ParseDecimalError;

    fn from_str(s: &str) -> (r: Result<UnsignedDecimal, ParseDecimalError>)
        ensures
            r == (match unsigned_from_text(s@) {
                Some(d) => Ok::<UnsignedDecimal, ParseDecimalError>(d),
                None => Err(ParseDecimalError),
            }),
    {
        match UnsignedDecimal::parse(s) {
            Some(d) => Ok(d),
            None => Err(ParseDecimalError),
        }
    }
}

/// The value facts about decimal arithmetic.
pub broadcast group group_decimal_values {
    lemma_exact_sum_value,
    lemma_unsigned_nonnegative,
    lemma_signed_plus_exact,
    lemma_signed_minus_exact,
    lemma_unsigned_plus_exact,
    lemma_unsigned_minus_exact,
}

} // verus!
