//! Exact decimal numbers.
//!
//! A [`Decimal`] holds an integer of any size and a scale: the number it
//! stands for is the integer divided by ten to the power of the scale. The
//! arithmetic itself is done by the `bigdecimal` crate; this module states
//! what each of its operations returns.

use crate::ast::parser::grammar::digits_end;
use crate::ast::parser::grammar::has_char;
use crate::ast::parser::grammar::number_end;
use bigdecimal::num_bigint::BigInt;
use bigdecimal::BigDecimal;
use bigdecimal::ToPrimitive;
use std::cmp::Ordering;
use std::str::FromStr;
use vstd::prelude::*;

verus! {

/// The largest scale, in either direction, that a well-formed decimal has.
pub const SCALE_LIMIT: i64 = 1_000_000_000;

/// The outcome of comparing two values.
#[derive(Copy, Clone, Debug, PartialEq, Eq, Structural)]
pub enum Order {
    Less,
    Equal,
    Greater,
}

/// How two integers compare.
pub open spec fn int_order(a: int, b: int) -> Order {
    if a < b {
        Order::Less
    } else if a == b {
        Order::Equal
    } else {
        Order::Greater
    }
}

/// Ten to the power of `n`.
pub open spec fn pow10(n: nat) -> nat
    decreases n,
{
    if n == 0 {
        1
    } else {
        10 * pow10((n - 1) as nat)
    }
}

/// 256 to the power of `n`.
pub open spec fn pow256(n: nat) -> nat
    decreases n,
{
    if n == 0 {
        1
    } else {
        256 * pow256((n - 1) as nat)
    }
}

/// The number that `bytes` spell in base 256, least significant byte first.
pub open spec fn bytes_value(bytes: Seq<u8>) -> nat
    decreases bytes.len(),
{
    if bytes.len() == 0 {
        0
    } else {
        bytes[0] as nat + 256 * bytes_value(bytes.drop_first())
    }
}

/// The integer that `bytes` spell in two's complement, least significant byte
/// first. No bytes at all spell zero.
pub open spec fn signed_value(bytes: Seq<u8>) -> int {
    if bytes.len() > 0 && bytes.last() >= 128 {
        bytes_value(bytes) - pow256(bytes.len())
    } else {
        bytes_value(bytes) as int
    }
}

/// The mathematical content of a decimal: it stands for
/// `unscaled / 10^scale`.
pub struct Dec {
    pub unscaled: int,
    pub scale: int,
}

impl Dec {
    /// The integer `n` at scale zero.
    pub open spec fn integer(n: int) -> Dec {
        Dec { unscaled: n, scale: 0 }
    }

    /// The unscaled integer this number has when written at `scale`, which is
    /// at least its own.
    pub open spec fn aligned(self, scale: int) -> int
        recommends
            scale >= self.scale,
    {
        self.unscaled * pow10((scale - self.scale) as nat)
    }

    /// The larger of the two scales.
    pub open spec fn common_scale(self, other: Dec) -> int {
        if self.scale >= other.scale {
            self.scale
        } else {
            other.scale
        }
    }

    /// How the two numbers compare by value, whatever their scales.
    pub open spec fn order(self, other: Dec) -> Order {
        let m = self.common_scale(other);
        int_order(self.aligned(m), other.aligned(m))
    }

    /// Whether the two stand for the same number.
    pub open spec fn same_value(self, other: Dec) -> bool {
        self.order(other) == Order::Equal
    }

    /// The exact sum, written at the larger of the two scales.
    pub open spec fn sum(self, other: Dec) -> Dec {
        let m = self.common_scale(other);
        Dec { unscaled: self.aligned(m) + other.aligned(m), scale: m }
    }

    /// The exact product in its plainest writing.
    pub open spec fn plain_product(self, other: Dec) -> Dec {
        Dec { unscaled: self.unscaled * other.unscaled, scale: self.scale + other.scale }
    }

    /// Whether the number has no fractional part.
    pub open spec fn is_integer(self) -> bool {
        self.scale <= 0 || self.unscaled % (pow10(self.scale as nat) as int) == 0
    }

    /// Whether the scale is one that this library works with.
    pub open spec fn in_range(self) -> bool {
        -SCALE_LIMIT <= self.scale <= SCALE_LIMIT
    }
}

/// What `bigdecimal` returns as the product of two decimals: the writing
/// (integer and scale) that its multiplication chooses.
pub uninterp spec fn decimal_product(a: Dec, b: Dec) -> Dec;

/// The product of two decimals where its scale is in range.
pub open spec fn checked_product(a: Dec, b: Dec) -> Option<Dec> {
    if decimal_product(a, b).in_range() {
        Some(decimal_product(a, b))
    } else {
        None
    }
}

/// The quotient of two decimals where the divisor is not zero and the scale
/// of the quotient is in range.
pub open spec fn checked_quotient(a: Dec, b: Dec) -> Option<Dec> {
    if b.unscaled != 0 && decimal_quotient(a, b).in_range() {
        Some(decimal_quotient(a, b))
    } else {
        None
    }
}

/// What `bigdecimal` returns as the quotient of two decimals: exact where
/// the division ends within the precision that the crate was built with,
/// else rounded to it.
pub uninterp spec fn decimal_quotient(a: Dec, b: Dec) -> Dec;

/// The text that `bigdecimal` displays a decimal as.
pub uninterp spec fn decimal_text(a: Dec) -> Seq<char>;

/// The decimal that `bigdecimal` reads from a text, if it reads one.
pub uninterp spec fn decimal_from_text(text: Seq<char>) -> Option<Dec>;

/// Whether a text is a number as expressions write it: digits, and behind a
/// separator (`.`, `e-` or `e`) more digits where they follow.
pub open spec fn is_number_text(t: Seq<char>) -> bool {
    t.len() > 0 && number_end(t, 0) == t.len()
}

/// The number that a text of digits spells.
pub open spec fn digits_number(t: Seq<char>) -> nat
    decreases t.len(),
{
    if t.len() == 0 {
        0
    } else {
        digits_number(t.drop_last()) * 10 + (t.last() as int - 48) as nat
    }
}

/// The decimal that a number text stands for. Digits alone are an integer;
/// digits behind a point are a fraction, and their count is the scale;
/// digits behind `e` are the power of ten to scale by, upwards, or
/// downwards behind `e-`. There is none where that power is no machine
/// integer.
pub open spec fn number_of_text(t: Seq<char>) -> Option<Dec> {
    let whole = digits_end(t, 0);
    let lead = t.subrange(0, whole);
    if whole >= t.len() {
        Some(Dec { unscaled: digits_number(t) as int, scale: 0 })
    } else if has_char(t, whole, '.') {
        let trail = t.subrange(whole + 1, t.len() as int);
        Some(Dec { unscaled: digits_number(lead + trail) as int, scale: trail.len() as int })
    } else if has_char(t, whole + 1, '-') {
        let power = digits_number(t.subrange(whole + 2, t.len() as int));
        if power <= i64::MAX {
            Some(Dec { unscaled: digits_number(lead) as int, scale: power as int })
        } else {
            None
        }
    } else {
        let power = digits_number(t.subrange(whole + 1, t.len() as int));
        if power <= 0x8000_0000_0000_0000 {
            Some(Dec { unscaled: digits_number(lead) as int, scale: -(power as int) })
        } else {
            None
        }
    }
}

/// A decimal where its scale is in range.
pub open spec fn ranged(d: Option<Dec>) -> Option<Dec> {
    match d {
        Some(x) => if x.in_range() {
            Some(x)
        } else {
            None
        },
        None => None,
    }
}

/// The mathematical content of a decimal that may be missing.
pub open spec fn content(d: Option<Decimal>) -> Option<Dec> {
    match d {
        Some(x) => Some(x@),
        None => None,
    }
}

/// The machine integer that a decimal stands for, if it stands for one.
pub open spec fn machine_integer(a: Dec) -> Option<i64> {
    if exists|n: i64| a.same_value(Dec::integer(n as int)) {
        Some(choose|n: i64| a.same_value(Dec::integer(n as int)))
    } else {
        None
    }
}

/// An exact decimal number. Two decimals are equal where they stand for the
/// same number, whatever their scales.
#[derive(Clone, Debug, Eq)]
pub struct Decimal {
    /// The unscaled integer in two's complement, least significant byte first.
    pub unscaled: Vec<u8>,
    /// The number of digits after the decimal point; may be negative.
    pub scale: i64,
}

impl PartialEq for Decimal {
    fn eq(&self, other: &Decimal) -> (r: bool) {
        if -SCALE_LIMIT <= self.scale && self.scale <= SCALE_LIMIT && -SCALE_LIMIT <= other.scale
            && other.scale <= SCALE_LIMIT {
            match order_of(self, other) {
                Order::Equal => true,
                _ => false,
            }
        } else {
            self.scale == other.scale && same_bytes(&self.unscaled, &other.unscaled)
        }
    }
}

impl vstd::std_specs::cmp::PartialEqSpecImpl for Decimal {
    open spec fn obeys_eq_spec() -> bool {
        true
    }

    open spec fn eq_spec(&self, other: &Decimal) -> bool {
        if self@.in_range() && other@.in_range() {
            self@.same_value(other@)
        } else {
            self.scale == other.scale && self.unscaled@ == other.unscaled@
        }
    }
}

/// Whether two lists of bytes hold the same bytes.
pub fn same_bytes(a: &Vec<u8>, b: &Vec<u8>) -> (r: bool)
    ensures
        r == (a@ == b@),
{
    if a.len() != b.len() {
        return false;
    }
    let mut i: usize = 0;
    while i < a.len()
        invariant
            i <= a@.len(),
            a@.len() == b@.len(),
            forall|j: int| 0 <= j < i ==> a@[j] == b@[j],
        decreases a@.len() - i,
    {
        if a[i] != b[i] {
            return false;
        }
        i = i + 1;
    }
    assert(a@ =~= b@);
    true
}

/// Trusted: hashes as `BigDecimal` does, which gives decimals that stand for
/// the same number the same hash.
#[verifier::external_body]
fn hash_by_value<H: std::hash::Hasher>(d: &Decimal, state: &mut H)
    requires
        d@.in_range(),
{
    std::hash::Hash::hash(&BigDecimal::new(BigInt::from_signed_bytes_le(&d.unscaled), d.scale), state)
}

/// Trusted: hashes the bytes and the scale with std's `Hash` for tuples.
#[verifier::external_body]
fn hash_by_writing<H: std::hash::Hasher>(d: &Decimal, state: &mut H) {
    std::hash::Hash::hash(&(&d.unscaled, d.scale), state)
}

impl std::hash::Hash for Decimal {
    fn hash<H: std::hash::Hasher>(&self, state: &mut H) {
        if -SCALE_LIMIT <= self.scale && self.scale <= SCALE_LIMIT {
            hash_by_value(self, state)
        } else {
            hash_by_writing(self, state)
        }
    }
}

impl View for Decimal {
    type V = Dec;

    open spec fn view(&self) -> Dec {
        Dec { unscaled: signed_value(self.unscaled@), scale: self.scale as int }
    }
}

/// Trusted: builds both operands with `BigInt::from_signed_bytes_le` and
/// `BigDecimal::new`, adds them with `bigdecimal`'s `+` on owned values, and
/// takes the result apart with `into_bigint_and_exponent` and
/// `to_signed_bytes_le`. That addition brings the operand of smaller scale to
/// the larger scale and adds the integers, so the result is the exact sum at
/// the larger scale.
#[verifier::external_body]
fn sum_of(a: &Decimal, b: &Decimal) -> (r: Decimal)
    requires
        a@.in_range(),
        b@.in_range(),
    ensures
        r@ == a@.sum(b@),
{
    let x = BigDecimal::new(BigInt::from_signed_bytes_le(&a.unscaled), a.scale);
    let y = BigDecimal::new(BigInt::from_signed_bytes_le(&b.unscaled), b.scale);
    let (i, s) = (x + y).into_bigint_and_exponent();
    Decimal { unscaled: i.to_signed_bytes_le(), scale: s }
}

/// Trusted: multiplies with `bigdecimal`'s `*` on owned values. The product
/// is exact; which writing of it comes back (a factor that is plainly one hands
/// the other operand back untouched) is `decimal_product`.
#[verifier::external_body]
fn product_of(a: &Decimal, b: &Decimal) -> (r: Decimal)
    requires
        a@.in_range(),
        b@.in_range(),
    ensures
        r@ == decimal_product(a@, b@),
        r@.same_value(a@.plain_product(b@)),
{
    let x = BigDecimal::new(BigInt::from_signed_bytes_le(&a.unscaled), a.scale);
    let y = BigDecimal::new(BigInt::from_signed_bytes_le(&b.unscaled), b.scale);
    let (i, s) = (x * y).into_bigint_and_exponent();
    Decimal { unscaled: i.to_signed_bytes_le(), scale: s }
}

/// Trusted: compares with `BigDecimal`'s `Ord`, which orders decimals by the
/// numbers they stand for, whatever their scales.
#[verifier::external_body]
fn order_of(a: &Decimal, b: &Decimal) -> (r: Order)
    requires
        a@.in_range(),
        b@.in_range(),
    ensures
        r == a@.order(b@),
{
    let x = BigDecimal::new(BigInt::from_signed_bytes_le(&a.unscaled), a.scale);
    let y = BigDecimal::new(BigInt::from_signed_bytes_le(&b.unscaled), b.scale);
    match x.cmp(&y) {
        Ordering::Less => Order::Less,
        Ordering::Equal => Order::Equal,
        Ordering::Greater => Order::Greater,
    }
}

/// Trusted: `BigDecimal::is_integer`, which is true of a scale that is zero or
/// negative, and otherwise where ten to the scale divides the unscaled integer.
#[verifier::external_body]
fn is_integer_of(a: &Decimal) -> (r: bool)
    requires
        a@.in_range(),
    ensures
        r == a@.is_integer(),
{
    BigDecimal::new(BigInt::from_signed_bytes_le(&a.unscaled), a.scale).is_integer()
}

/// Trusted: divides with `bigdecimal`'s `/` on owned values, which panics
/// on a divisor of zero and on nothing else; its result is
/// `decimal_quotient`.
#[verifier::external_body]
fn quotient_of(a: &Decimal, b: &Decimal) -> (r: Decimal)
    requires
        a@.in_range(),
        b@.in_range(),
        b@.unscaled != 0,
    ensures
        r@ == decimal_quotient(a@, b@),
{
    let x = BigDecimal::new(BigInt::from_signed_bytes_le(&a.unscaled), a.scale);
    let y = BigDecimal::new(BigInt::from_signed_bytes_le(&b.unscaled), b.scale);
    let (i, s) = (x / y).into_bigint_and_exponent();
    Decimal { unscaled: i.to_signed_bytes_le(), scale: s }
}

/// Trusted: `BigDecimal`'s `to_i64`, which for a decimal without a
/// fractional part yields the integer it stands for where that fits the
/// machine word, and nothing where it does not.
#[verifier::external_body]
fn to_i64_of(a: &Decimal) -> (r: Option<i64>)
    requires
        a@.in_range(),
        a@.is_integer(),
    ensures
        match r {
            Some(n) => a@.same_value(Dec::integer(n as int)),
            None => forall|n: i64| !a@.same_value(Dec::integer(n as int)),
        },
{
    BigDecimal::new(BigInt::from_signed_bytes_le(&a.unscaled), a.scale).to_i64()
}

/// Trusted: `BigDecimal`'s `Display`, through `to_string`, which writes
/// every decimal, whatever its scale; its result is `decimal_text`.
#[verifier::external_body]
fn text_of(a: &Decimal) -> (r: String)
    ensures
        r@ == decimal_text(a@),
{
    BigDecimal::new(BigInt::from_signed_bytes_le(&a.unscaled), a.scale).to_string()
}

/// Trusted: `BigDecimal::from_str`, which never panics; what it reads, if
/// anything, is `decimal_from_text`. Of a number text it reads the digits
/// before and behind a point as one integer and takes the count of those
/// behind the point as scale; the digits behind `e` or `e-` it reads as the
/// power of ten and takes its negative as scale; it reads nothing where the
/// scale is no machine integer.
#[verifier::external_body]
fn read_from(text: &str) -> (r: Option<Decimal>)
    ensures
        content(r) == decimal_from_text(text@),
        is_number_text(text@) ==> content(r) == number_of_text(text@),
{
    match BigDecimal::from_str(text) {
        Ok(x) => {
            let (i, s) = x.into_bigint_and_exponent();
            Some(Decimal { unscaled: i.to_signed_bytes_le(), scale: s })
        },
        Err(_) => None,
    }
}

/// Ten to any power is positive.
pub proof fn lemma_pow10_positive(n: nat)
    ensures
        pow10(n) > 0,
    decreases n,
{
    if n > 0 {
        lemma_pow10_positive((n - 1) as nat);
    }
}

/// A number compares to zero as its unscaled integer does.
pub proof fn lemma_order_with_zero(a: Dec, zero: Dec)
    requires
        zero.unscaled == 0,
    ensures
        a.order(zero) == int_order(a.unscaled, 0),
{
    let m = a.common_scale(zero);
    let p = pow10((m - a.scale) as nat);
    lemma_pow10_positive((m - a.scale) as nat);
    assert(zero.aligned(m) == 0) by (nonlinear_arith)
        requires
            zero.unscaled == 0,
            zero.aligned(m) == zero.unscaled * pow10((m - zero.scale) as nat),
    ;
    assert(a.unscaled < 0 ==> a.unscaled * p < 0) by (nonlinear_arith)
        requires
            p > 0,
    ;
    assert(a.unscaled > 0 ==> a.unscaled * p > 0) by (nonlinear_arith)
        requires
            p > 0,
    ;
    assert(a.unscaled == 0 ==> a.unscaled * p == 0) by (nonlinear_arith);
}

/// Comparing the other way round gives the mirrored outcome.
pub proof fn lemma_order_mirrored(a: Dec, b: Dec)
    ensures
        a.order(b) == Order::Less <==> b.order(a) == Order::Greater,
        a.order(b) == Order::Equal <==> b.order(a) == Order::Equal,
        a.order(b) == Order::Greater <==> b.order(a) == Order::Less,
        a.order(a) == Order::Equal,
{
}

/// Ten to a sum of powers is the product of ten to each.
pub proof fn lemma_pow10_adds(a: nat, b: nat)
    ensures
        pow10(a + b) == pow10(a) * pow10(b),
    decreases a,
{
    if a == 0 {
        assert(pow10(0 + b) == 1 * pow10(b));
    } else {
        lemma_pow10_adds((a - 1) as nat, b);
        assert(pow10(a + b) == 10 * pow10((a - 1 + b) as nat));
        assert(10 * (pow10((a - 1) as nat) * pow10(b)) == (10 * pow10((a - 1) as nat)) * pow10(b))
            by (nonlinear_arith);
    }
}

/// Two decimals compare at every scale that both can be written at as they
/// compare by value.
pub proof fn lemma_order_at_scale(a: Dec, b: Dec, m: int)
    requires
        m >= a.scale,
        m >= b.scale,
    ensures
        int_order(a.aligned(m), b.aligned(m)) == a.order(b),
{
    let c = a.common_scale(b);
    let up = (m - c) as nat;
    let p = pow10(up) as int;
    lemma_pow10_positive(up);
    lemma_pow10_adds((c - a.scale) as nat, up);
    lemma_pow10_adds((c - b.scale) as nat, up);
    let x = a.aligned(c);
    let y = b.aligned(c);
    assert(a.aligned(m) == x * p) by (nonlinear_arith)
        requires
            a.aligned(m) == a.unscaled * (pow10((c - a.scale) as nat) * pow10(up)),
            x == a.unscaled * pow10((c - a.scale) as nat),
            p == pow10(up),
    ;
    assert(b.aligned(m) == y * p) by (nonlinear_arith)
        requires
            b.aligned(m) == b.unscaled * (pow10((c - b.scale) as nat) * pow10(up)),
            y == b.unscaled * pow10((c - b.scale) as nat),
            p == pow10(up),
    ;
    assert(x < y ==> x * p < y * p) by (nonlinear_arith)
        requires
            p > 0,
    ;
    assert(x > y ==> x * p > y * p) by (nonlinear_arith)
        requires
            p > 0,
    ;
}

/// Whether the outcome `ac` of comparing a first thing with a third fits the
/// outcomes `ab` and `bc` of comparing each with a second: a tie on one side
/// hands the other outcome on, and two like outcomes stay.
pub open spec fn chains(ab: Order, bc: Order, ac: Order) -> bool {
    &&& ab == Order::Equal ==> ac == bc
    &&& bc == Order::Equal ==> ac == ab
    &&& ab == bc ==> ac == ab
}

/// The order on decimals chains.
pub proof fn lemma_dec_order_chains(a: Dec, b: Dec, c: Dec)
    ensures
        chains(a.order(b), b.order(c), a.order(c)),
{
    let m = if a.common_scale(b) >= c.scale {
        a.common_scale(b)
    } else {
        c.scale
    };
    lemma_order_at_scale(a, b, m);
    lemma_order_at_scale(b, c, m);
    lemma_order_at_scale(a, c, m);
}

/// Decimals that stand for the same numbers have products that stand for
/// the same number.
pub proof fn lemma_product_respects_value(a: Dec, a2: Dec, b: Dec, b2: Dec)
    requires
        a.same_value(a2),
        b.same_value(b2),
    ensures
        a.plain_product(b).same_value(a2.plain_product(b2)),
{
    let ma = a.common_scale(a2);
    let mb = b.common_scale(b2);
    let m = ma + mb;
    let p = a.plain_product(b);
    let p2 = a2.plain_product(b2);
    lemma_pow10_adds((ma - a.scale) as nat, (mb - b.scale) as nat);
    lemma_pow10_adds((ma - a2.scale) as nat, (mb - b2.scale) as nat);
    let x = a.aligned(ma);
    let y = b.aligned(mb);
    assert(x == a2.aligned(ma));
    assert(y == b2.aligned(mb));
    assert(p.aligned(m) == x * y) by (nonlinear_arith)
        requires
            p.aligned(m) == (a.unscaled * b.unscaled) * (pow10((ma - a.scale) as nat) * pow10(
                (mb - b.scale) as nat,
            )),
            x == a.unscaled * pow10((ma - a.scale) as nat),
            y == b.unscaled * pow10((mb - b.scale) as nat),
    ;
    assert(p2.aligned(m) == x * y) by (nonlinear_arith)
        requires
            p2.aligned(m) == (a2.unscaled * b2.unscaled) * (pow10((ma - a2.scale) as nat) * pow10(
                (mb - b2.scale) as nat,
            )),
            x == a2.unscaled * pow10((ma - a2.scale) as nat),
            y == b2.unscaled * pow10((mb - b2.scale) as nat),
    ;
    lemma_order_at_scale(p, p2, m);
}

/// Standing for the same number is an equivalence.
pub proof fn lemma_same_value_chains(a: Dec, b: Dec, c: Dec)
    requires
        a.same_value(b),
        b.same_value(c),
    ensures
        a.same_value(c),
        b.same_value(a),
        a.same_value(a),
{
    lemma_dec_order_chains(a, b, c);
    lemma_order_mirrored(a, b);
}

/// The integer `x` to the power of `n`.
pub open spec fn int_pow(x: int, n: nat) -> int
    decreases n,
{
    if n == 0 {
        1
    } else {
        x * int_pow(x, (n - 1) as nat)
    }
}

/// A decimal to the power of `n`, exactly: its integer to that power, at
/// `n` times its scale.
pub open spec fn exact_power(base: Dec, n: nat) -> Dec {
    Dec { unscaled: int_pow(base.unscaled, n), scale: base.scale * n }
}

/// A power to a sum of exponents is the product of the powers.
pub proof fn lemma_int_pow_adds(x: int, m: nat, k: nat)
    ensures
        int_pow(x, m + k) == int_pow(x, m) * int_pow(x, k),
    decreases m,
{
    if m == 0 {
        assert(int_pow(x, 0 + k) == 1 * int_pow(x, k));
    } else {
        lemma_int_pow_adds(x, (m - 1) as nat, k);
        assert(int_pow(x, m + k) == x * int_pow(x, (m - 1 + k) as nat));
        assert(x * (int_pow(x, (m - 1) as nat) * int_pow(x, k)) == (x * int_pow(x, (m - 1) as nat))
            * int_pow(x, k)) by (nonlinear_arith);
    }
}

/// The product of two exact powers of a decimal is its exact power to the
/// sum of the exponents.
pub proof fn lemma_exact_power_adds(base: Dec, m: nat, k: nat)
    ensures
        exact_power(base, m).plain_product(exact_power(base, k)) == exact_power(base, m + k),
        exact_power(base, 1) == base,
        exact_power(base, 0) == Dec::integer(1),
{
    lemma_int_pow_adds(base.unscaled, m, k);
    assert(base.scale * m + base.scale * k == base.scale * (m + k)) by (nonlinear_arith);
    assert(int_pow(base.unscaled, 1) == base.unscaled * int_pow(base.unscaled, 0));
    assert(base.scale * 1 == base.scale);
    assert(base.scale * 0 == 0);
}

/// A decimal stands for one integer at most.
pub proof fn lemma_one_integer(a: Dec, n: int, m: int)
    requires
        a.same_value(Dec::integer(n)),
        a.same_value(Dec::integer(m)),
    ensures
        n == m,
{
    lemma_order_mirrored(a, Dec::integer(n));
    lemma_dec_order_chains(Dec::integer(n), a, Dec::integer(m));
    assert(pow10(0) == 1);
    assert(Dec::integer(n).aligned(0) == n * 1);
    assert(Dec::integer(m).aligned(0) == m * 1);
}

/// A decimal with a fractional part stands for no integer.
pub proof fn lemma_fraction_is_no_integer(a: Dec, n: int)
    requires
        !a.is_integer(),
    ensures
        !a.same_value(Dec::integer(n)),
{
    let p = pow10(a.scale as nat) as int;
    lemma_pow10_positive(a.scale as nat);
    assert(pow10(0) == 1);
    assert(a.aligned(a.scale) == a.unscaled * 1);
    assert(Dec::integer(n).aligned(a.scale) == n * p);
    if a.same_value(Dec::integer(n)) {
        assert(a.unscaled == n * p);
        assert((n * p) % p == 0) by (nonlinear_arith)
            requires
                p > 0,
        ;
    }
}

impl Decimal {
    /// Whether the scale is one that this library works with.
    pub open spec fn wf(&self) -> bool {
        self@.in_range()
    }

    /// A small integer as a decimal of scale zero.
    pub fn from_i8(n: i8) -> (r: Decimal)
        ensures
            r@ == Dec::integer(n as int),
            r.wf(),
    {
        let byte: u8 = n as u8;
        let mut unscaled: Vec<u8> = Vec::new();
        unscaled.push(byte);
        proof {
            assert(unscaled@ =~= seq![byte]);
            assert(unscaled@.drop_first() =~= Seq::<u8>::empty());
            reveal_with_fuel(bytes_value, 2);
            reveal_with_fuel(pow256, 2);
            assert(pow256(1) == 256);
            assert(bytes_value(unscaled@) == byte as nat);
            assert(n >= 0 ==> byte == n) by (bit_vector)
                requires
                    byte == n as u8,
            ;
            assert(n < 0 ==> byte >= 128 && byte as int - 256 == n as int) by (bit_vector)
                requires
                    byte == n as u8,
            ;
        }
        Decimal { unscaled, scale: 0 }
    }

    /// The number zero.
    pub fn zero() -> (r: Decimal)
        ensures
            r@ == Dec::integer(0),
            r.wf(),
    {
        Decimal::from_i8(0)
    }

    /// The number one.
    pub fn one() -> (r: Decimal)
        ensures
            r@ == Dec::integer(1),
            r.wf(),
    {
        Decimal::from_i8(1)
    }

    /// A copy of this decimal.
    pub fn copy(&self) -> (r: Decimal)
        ensures
            r@ == self@,
            r.unscaled@ == self.unscaled@,
            r.scale == self.scale,
    {
        let mut unscaled: Vec<u8> = Vec::new();
        let mut i: usize = 0;
        while i < self.unscaled.len()
            invariant
                i <= self.unscaled@.len(),
                unscaled@ == self.unscaled@.subrange(0, i as int),
            decreases self.unscaled@.len() - i,
        {
            unscaled.push(self.unscaled[i]);
            i = i + 1;
            assert(self.unscaled@.subrange(0, i as int) =~= self.unscaled@.subrange(0, i - 1).push(
                self.unscaled@[i - 1],
            ));
        }
        assert(self.unscaled@.subrange(0, self.unscaled@.len() as int) =~= self.unscaled@);
        Decimal { unscaled, scale: self.scale }
    }

    /// The exact sum of two decimals.
    pub fn add(&self, other: &Decimal) -> (r: Decimal)
        requires
            self.wf(),
            other.wf(),
        ensures
            r@ == self@.sum(other@),
            r.wf(),
    {
        sum_of(self, other)
    }

    /// The product of two decimals, unless its scale leaves the range that
    /// this library works with.
    pub fn checked_mul(&self, other: &Decimal) -> (r: Option<Decimal>)
        requires
            self.wf(),
            other.wf(),
        ensures
            match r {
                Some(p) => checked_product(self@, other@) == Some(p@) && p.wf() && p@.same_value(
                    self@.plain_product(other@),
                ),
                None => checked_product(self@, other@) is None,
            },
    {
        let p = product_of(self, other);
        if -SCALE_LIMIT <= p.scale && p.scale <= SCALE_LIMIT {
            Some(p)
        } else {
            None
        }
    }

    /// The quotient of two decimals, unless the divisor is zero or the scale
    /// of the quotient leaves the range that this library works with.
    pub fn checked_div(&self, other: &Decimal) -> (r: Option<Decimal>)
        requires
            self.wf(),
            other.wf(),
        ensures
            match r {
                Some(p) => checked_quotient(self@, other@) == Some(p@) && p.wf(),
                None => checked_quotient(self@, other@) is None,
            },
    {
        if other.is_zero() {
            return None;
        }
        let p = quotient_of(self, other);
        if -SCALE_LIMIT <= p.scale && p.scale <= SCALE_LIMIT {
            Some(p)
        } else {
            None
        }
    }

    /// How this decimal compares to another by value.
    pub fn order(&self, other: &Decimal) -> (r: Order)
        requires
            self.wf(),
            other.wf(),
        ensures
            r == self@.order(other@),
    {
        order_of(self, other)
    }

    /// Whether this decimal stands for the same number as another.
    pub fn same_value(&self, other: &Decimal) -> (r: bool)
        requires
            self.wf(),
            other.wf(),
        ensures
            r == self@.same_value(other@),
    {
        match order_of(self, other) {
            Order::Equal => true,
            _ => false,
        }
    }

    /// Whether this decimal stands for the integer `n`.
    pub fn is_small(&self, n: i8) -> (r: bool)
        requires
            self.wf(),
        ensures
            r == self@.same_value(Dec::integer(n as int)),
    {
        let m = Decimal::from_i8(n);
        self.same_value(&m)
    }

    /// Whether this decimal is zero.
    pub fn is_zero(&self) -> (r: bool)
        requires
            self.wf(),
        ensures
            r == (self@.unscaled == 0),
            r == self@.same_value(Dec::integer(0)),
    {
        proof {
            lemma_order_with_zero(self@, Dec::integer(0));
        }
        self.is_small(0)
    }

    /// Whether this decimal has no fractional part.
    pub fn is_integer(&self) -> (r: bool)
        requires
            self.wf(),
        ensures
            r == self@.is_integer(),
    {
        is_integer_of(self)
    }

    /// The machine integer that this decimal stands for, if it stands for
    /// one.
    pub fn to_i64(&self) -> (r: Option<i64>)
        requires
            self.wf(),
        ensures
            r == machine_integer(self@),
    {
        if !is_integer_of(self) {
            proof {
                assert forall|n: i64| !self@.same_value(Dec::integer(n as int)) by {
                    lemma_fraction_is_no_integer(self@, n as int);
                }
            }
            return None;
        }
        let r = to_i64_of(self);
        proof {
            match r {
                Some(n) => {
                    let m = choose|m: i64| self@.same_value(Dec::integer(m as int));
                    lemma_one_integer(self@, n as int, m as int);
                },
                None => {},
            }
        }
        r
    }

    /// The text this decimal is displayed as.
    pub fn to_text(&self) -> (r: String)
        ensures
            r@ == decimal_text(self@),
    {
        text_of(self)
    }

    /// Reads a decimal from a text. Yields nothing where the text is no
    /// decimal or its scale is outside the range that this library works with.
    pub fn parse(text: &str) -> (r: Option<Decimal>)
        ensures
            content(r) == ranged(decimal_from_text(text@)),
            is_number_text(text@) ==> content(r) == ranged(number_of_text(text@)),
            r matches Some(d) ==> d.wf(),
    {
        match read_from(text) {
            Some(d) => {
                if -SCALE_LIMIT <= d.scale && d.scale <= SCALE_LIMIT {
                    Some(d)
                } else {
                    None
                }
            },
            None => None,
        }
    }
}

} // verus!
