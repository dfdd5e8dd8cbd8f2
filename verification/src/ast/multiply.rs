//! Canonical products and powers of symbolic values.

use crate::ast::power::exponantiate;
use crate::ast::power::power_spec;
use crate::ast::values::add_spec;
use crate::ast::values::depth;
use crate::ast::values::entries_depth;
use crate::ast::values::entries_size;
use crate::ast::values::insert_entry;
use crate::ast::values::is_one_number;
use crate::ast::values::is_zero_number;
use crate::ast::values::larger;
use crate::ast::values::merge_entries;
use crate::ast::values::size;
use crate::ast::values::term_order;
use crate::ast::values::Term;
use crate::ast::EvaluationError;
use crate::ast::power::repeated_squaring;
use crate::ast::values::add_weighted_spec;
use crate::ast::values::entries_view;
use crate::ast::values::entries_wf;
use crate::ast::values::entry_wf;
use crate::ast::values::insert_entry_into;
use crate::ast::values::irreducible;
use crate::ast::values::lemma_add_wf;
use crate::ast::values::lemma_insert_entry_wf;
use crate::ast::values::lemma_single_entry_wf;
use crate::ast::values::merge_entries_into;
use crate::ast::values::single_entry;
use crate::ast::values::slot;
use crate::ast::values::term_wf;
use crate::ast::values::weighted_key;
use crate::ast::values::Values;
use crate::decimal::checked_product;
use crate::decimal::Dec;
use crate::decimal::Decimal;
use crate::decimal::Order;
use vstd::prelude::*;

verus! {

/// A key of a list is no deeper and no larger than the list.
pub proof fn lemma_key_measures(m: Seq<(Term, Dec)>, i: nat, k: int)
    requires
        i <= k < m.len(),
    ensures
        depth(m[k].0) <= entries_depth(m, i),
        size(m[k].0) <= entries_size(m, i),
    decreases m.len() - i,
{
    if i < k {
        lemma_key_measures(m, i + 1, k);
    }
}

/// A number is one node, and no power is nested in it.
pub proof fn lemma_size_of_number(d: Dec)
    ensures
        size(Term::Number(d)) == 1,
        depth(Term::Number(d)) == 0,
{
}

/// The product of a term and a number.
///
/// Zero annihilates and one is neutral; a number multiplies a number or the
/// constant of a product; anything else becomes a product of one factor.
pub open spec fn scale_spec(t: Term, v: Dec) -> Result<Term, EvaluationError> {
    if is_zero_number(t) || v.same_value(Dec::integer(0)) {
        Ok(Term::Number(Dec::integer(0)))
    } else if is_one_number(t) {
        Ok(Term::Number(v))
    } else if v.same_value(Dec::integer(1)) {
        Ok(t)
    } else {
        match t {
            Term::Product(c, m) => match checked_product(c, v) {
                Some(p) => Ok(Term::Product(p, m)),
                None => Err(EvaluationError::OutOfRange),
            },
            Term::Number(x) => match checked_product(x, v) {
                Some(p) => Ok(Term::Number(p)),
                None => Err(EvaluationError::OutOfRange),
            },
            other => Ok(Term::Product(v, seq![(other, Dec::integer(1))])),
        }
    }
}

/// A base that is no power itself, raised to an exponent.
///
/// Checked in this order: a zero base gives zero; a zero exponent gives one; a
/// base of one gives one; an exponent of one gives the base; a number to a
/// number is computed; anything to a number becomes a product of one factor;
/// what is left stays a power.
pub open spec fn exp_base_spec(base: Term, exponent: Term) -> Result<Term, EvaluationError> {
    if is_zero_number(base) {
        Ok(Term::Number(Dec::integer(0)))
    } else if is_zero_number(exponent) {
        Ok(Term::Number(Dec::integer(1)))
    } else if is_one_number(base) {
        Ok(Term::Number(Dec::integer(1)))
    } else if is_one_number(exponent) {
        Ok(base)
    } else {
        match (base, exponent) {
            (Term::Number(x), Term::Number(y)) => match power_spec(x, y) {
                Ok(p) => Ok(Term::Number(p)),
                Err(e) => Err(e),
            },
            (x, Term::Number(y)) => Ok(Term::Product(Dec::integer(1), seq![(x, y)])),
            _ => Ok(Term::Exponent(Box::new(base), Box::new(exponent))),
        }
    }
}

/// The canonical product of two canonical terms.
///
/// A number scales the other operand. Two powers of one base add their
/// exponents, two powers with one exponent multiply their bases, and a power
/// times its own base counts the base once more. A sum distributes over the
/// other operand, its constant as well as every one of its terms; of two sums
/// each constant and each term of the one meets the constant and every term
/// of the other. Two products merge their factors, adding the exponents of
/// like bases; a product takes any other operand as one more factor.
/// Anything else becomes a new product.
pub open spec fn mul_spec(a: Term, b: Term) -> Result<Term, EvaluationError>
    decreases larger(depth(a), depth(b)), size(a) + size(b), 0nat, 0nat,
{
    let one = Dec::integer(1);
    match (a, b) {
        (_, Term::Number(y)) => scale_spec(a, y),
        (Term::Number(x), _) => scale_spec(b, x),
        (Term::Exponent(xa, xb), Term::Exponent(ya, yb)) => {
            if term_order(*xa, *ya) == Order::Equal {
                exp_base_spec(*xa, add_spec(*xb, *yb))
            } else if term_order(*xb, *yb) == Order::Equal {
                match mul_spec(*xa, *ya) {
                    Err(e) => Err(e),
                    Ok(r) => {
                        // The product of the bases is never deeper than the
                        // bases, as `Values::mul` shows of every product it
                        // returns; the test makes the recursion well-founded.
                        if depth(r) <= larger(depth(a), depth(b)) {
                            exp_spec(r, *yb)
                        } else {
                            Err(EvaluationError::OutOfRange)
                        }
                    },
                }
            } else {
                Ok(Term::Product(one, insert_entry(seq![(a, one)], b, one)))
            }
        },
        (z, Term::Exponent(x, y)) => power_times_spec(*x, *y, z),
        (Term::Exponent(x, y), z) => power_times_spec(*x, *y, z),
        (Term::Sum(cx, x), Term::Sum(cy, y)) => match checked_product(cx, cy) {
            None => Err(EvaluationError::OutOfRange),
            Some(c) => match row_spec(y, Term::Number(cx), None, 0, Term::Number(c)) {
                Err(e) => Err(e),
                Ok(first) => match row_spec(x, Term::Number(cy), None, 0, first) {
                    Err(e) => Err(e),
                    Ok(second) => rows_spec(x, y, 0, second),
                },
            },
        },
        (Term::Sum(cx, x), other) => match scale_spec(other, cx) {
            Err(e) => Err(e),
            Ok(start) => row_spec(x, other, None, 0, start),
        },
        (other, Term::Sum(cx, x)) => match scale_spec(other, cx) {
            Err(e) => Err(e),
            Ok(start) => row_spec(x, other, None, 0, start),
        },
        (Term::Product(cx, x), Term::Product(cy, y)) => match checked_product(cx, cy) {
            None => Err(EvaluationError::OutOfRange),
            Some(c) => Ok(Term::Product(c, merge_entries(x, y, 0))),
        },
        (Term::Product(cx, x), other) => Ok(Term::Product(cx, insert_entry(x, other, one))),
        (other, Term::Product(cx, x)) => Ok(Term::Product(cx, insert_entry(x, other, one))),
        (left, right) => Ok(pair_product_spec(left, right)),
    }
}

/// A power times a value that is neither a number nor a power: the base
/// counted once more where the value is the base, else a product of the two.
pub open spec fn power_times_spec(base: Term, exponent: Term, z: Term) -> Result<
    Term,
    EvaluationError,
> {
    if term_order(base, z) == Order::Equal {
        exp_base_spec(base, add_spec(exponent, Term::Number(Dec::integer(1))))
    } else {
        Ok(
            Term::Product(
                Dec::integer(1),
                insert_entry(
                    seq![(z, Dec::integer(1))],
                    Term::Exponent(Box::new(base), Box::new(exponent)),
                    Dec::integer(1),
                ),
            ),
        )
    }
}

/// The product of two terms that have nothing in common to fold: the one
/// squared where they are equal, else a product of the two.
pub open spec fn pair_product_spec(left: Term, right: Term) -> Term {
    if term_order(left, right) == Order::Equal {
        Term::Product(Dec::integer(1), seq![(left, Dec::integer(2))])
    } else {
        Term::Product(
            Dec::integer(1),
            insert_entry(seq![(left, Dec::integer(1))], right, Dec::integer(1)),
        )
    }
}

/// What one entry of a sum contributes to a product: its key times `other`,
/// scaled by its amount, and by `weight` where one is given.
pub open spec fn entry_product_spec(key: Term, amount: Dec, other: Term, weight: Option<Dec>) -> Result<
    Term,
    EvaluationError,
>
    decreases larger(depth(key), depth(other)), size(key) + size(other), 1nat, 0nat,
{
    match mul_spec(key, other) {
        Err(e) => Err(e),
        Ok(p) => {
            let factor = match weight {
                None => Some(amount),
                Some(w) => checked_product(amount, w),
            };
            match factor {
                None => Err(EvaluationError::OutOfRange),
                Some(f) => scale_spec(p, f),
            }
        },
    }
}

/// The accumulator after, for every entry of `x` from index `i` on, the
/// product of its key with `other`, scaled by its amount (and by `weight`
/// where one is given), was added to it.
pub open spec fn row_spec(
    x: Seq<(Term, Dec)>,
    other: Term,
    weight: Option<Dec>,
    i: nat,
    acc: Term,
) -> Result<Term, EvaluationError>
    decreases larger(entries_depth(x, 0), depth(other)), entries_size(x, 0) + size(other), 2nat, x.len()
        - i,
{
    if i >= x.len() {
        Ok(acc)
    } else {
        proof {
            lemma_key_measures(x, 0, i as int);
        }
        match entry_product_spec(x[i as int].0, x[i as int].1, other, weight) {
            Err(e) => Err(e),
            Ok(t) => row_spec(x, other, weight, i + 1, add_spec(acc, t)),
        }
    }
}

/// The accumulator after, for every entry of `y` from index `j` on, the row
/// of `x` against its key, weighted by its amount, was added to it.
pub open spec fn rows_spec(x: Seq<(Term, Dec)>, y: Seq<(Term, Dec)>, j: nat, acc: Term) -> Result<
    Term,
    EvaluationError,
>
    decreases larger(entries_depth(x, 0), entries_depth(y, 0)), entries_size(x, 0) + entries_size(y, 0)
        + 1, 3nat, y.len() - j,
{
    if j >= y.len() {
        Ok(acc)
    } else {
        proof {
            lemma_key_measures(y, 0, j as int);
        }
        match row_spec(x, y[j as int].0, Some(y[j as int].1), 0, acc) {
            Err(e) => Err(e),
            Ok(next) => rows_spec(x, y, j + 1, next),
        }
    }
}

/// A canonical term raised to a canonical term.
///
/// A power raised to anything but a number multiplies its exponent by the new
/// one; every other case is that of a base that is no power.
pub open spec fn exp_spec(base: Term, exponent: Term) -> Result<Term, EvaluationError>
    decreases larger(depth(base), depth(exponent) + 1), 0nat, 0nat, 0nat,
{
    match base {
        Term::Exponent(a, b) => {
            if exponent is Number {
                exp_base_spec(base, exponent)
            } else {
                match mul_spec(*b, exponent) {
                    Err(e) => Err(e),
                    Ok(e) => exp_base_spec(*a, e),
                }
            }
        },
        _ => exp_base_spec(base, exponent),
    }
}


/// A list is no deeper than a bound on the depth of its keys.
pub proof fn lemma_entries_depth_bound(m: Seq<(Term, Dec)>, i: nat, n: nat)
    requires
        forall|k: int| i <= k < m.len() ==> depth(#[trigger] m[k].0) <= n,
    ensures
        entries_depth(m, i) <= n,
    decreases m.len() - i,
{
    if i < m.len() {
        lemma_entries_depth_bound(m, i + 1, n);
    }
}

/// Putting an entry into a list makes it no deeper than the list and the key.
pub proof fn lemma_insert_depth(m: Seq<(Term, Dec)>, key: Term, amount: Dec, n: nat)
    requires
        entries_depth(m, 0) <= n,
        depth(key) <= n,
    ensures
        entries_depth(insert_entry(m, key, amount), 0) <= n,
{
    let r = insert_entry(m, key, amount);
    let p = slot(m, key, 0) as int;
    crate::ast::values::lemma_slot(m, key, 0);
    assert forall|k: int| 0 <= k < r.len() implies depth(#[trigger] r[k].0) <= n by {
        if p < m.len() && term_order(m[p].0, key) == Order::Equal {
            lemma_key_measures(m, 0, k);
        } else if k < p {
            lemma_key_measures(m, 0, k);
        } else if k > p {
            lemma_key_measures(m, 0, k - 1);
        }
    }
    lemma_entries_depth_bound(r, 0, n);
}

/// Merging two lists makes a list no deeper than both.
pub proof fn lemma_merge_depth(x: Seq<(Term, Dec)>, y: Seq<(Term, Dec)>, i: nat, n: nat)
    requires
        entries_depth(x, 0) <= n,
        entries_depth(y, 0) <= n,
    ensures
        entries_depth(merge_entries(x, y, i), 0) <= n,
    decreases y.len() - i,
{
    if i < y.len() {
        lemma_key_measures(y, 0, i as int);
        lemma_insert_depth(x, y[i as int].0, y[i as int].1, n);
        lemma_merge_depth(insert_entry(x, y[i as int].0, y[i as int].1), y, i + 1, n);
    }
}

/// A list of one entry is as deep as its key.
pub proof fn lemma_single_depth(key: Term, amount: Dec)
    ensures
        entries_depth(seq![(key, amount)], 0) == depth(key),
        entries_depth(Seq::<(Term, Dec)>::empty(), 0) == 0,
{
    let m = seq![(key, amount)];
    assert(m[0].0 == key);
    reveal_with_fuel(entries_depth, 3);
}

/// Adding a weighted product to a sum makes a sum no deeper than both.
pub proof fn lemma_add_weighted_depth(
    constant: Dec,
    terms: Seq<(Term, Dec)>,
    factors: Seq<(Term, Dec)>,
    weight: Dec,
    n: nat,
)
    requires
        entries_depth(terms, 0) <= n,
        entries_depth(factors, 0) <= n,
    ensures
        depth(add_weighted_spec(constant, terms, factors, weight)) <= n,
{
    if factors.len() == 1 {
        lemma_key_measures(factors, 0, 0);
    }
    lemma_insert_depth(terms, weighted_key(factors), weight, n);
}

/// The sum of two terms is no deeper than both.
pub proof fn lemma_add_depth(a: Term, b: Term, n: nat)
    requires
        depth(a) <= n,
        depth(b) <= n,
    ensures
        depth(add_spec(a, b)) <= n,
{
    reveal(add_spec);
    let zero = Dec::integer(0);
    let one = Dec::integer(1);
    if is_zero_number(a) || is_zero_number(b) {
    } else {
        match (a, b) {
            (Term::Number(x), Term::Number(y)) => {},
            (Term::Sum(cx, x), Term::Number(y)) => {},
            (Term::Number(y), Term::Sum(cx, x)) => {},
            (Term::Sum(cx, x), Term::Sum(cy, y)) => {
                lemma_merge_depth(x, y, 0, n);
            },
            (Term::Sum(cx, x), Term::Product(cy, y)) => {
                lemma_add_weighted_depth(cx, x, y, cy, n);
            },
            (Term::Product(cy, y), Term::Sum(cx, x)) => {
                lemma_add_weighted_depth(cx, x, y, cy, n);
            },
            (Term::Sum(cx, x), other) => {
                lemma_insert_depth(x, other, one, n);
            },
            (other, Term::Sum(cx, x)) => {
                lemma_insert_depth(x, other, one, n);
            },
            (Term::Product(cx, x), Term::Product(cy, y)) => {
                lemma_single_depth(Term::Product(one, x), cx.sum(cy));
                lemma_single_depth(Term::Product(one, x), cx);
                lemma_insert_depth(seq![(Term::Product(one, x), cx)], Term::Product(one, y), cy, n);
            },
            (Term::Product(cx, x), Term::Number(m)) => {
                lemma_single_depth(a, one);
                lemma_add_weighted_depth(m, Seq::empty(), x, cx, n);
            },
            (Term::Number(m), Term::Product(cx, x)) => {
                lemma_single_depth(a, one);
                lemma_add_weighted_depth(m, Seq::empty(), x, cx, n);
            },
            (Term::Product(cx, x), other) => {
                lemma_single_depth(other, one);
                lemma_add_weighted_depth(zero, seq![(other, one)], x, cx, n);
            },
            (other, Term::Product(cx, x)) => {
                lemma_single_depth(other, one);
                lemma_add_weighted_depth(zero, seq![(other, one)], x, cx, n);
            },
            (Term::Number(m), other) => {
                lemma_single_depth(other, one);
            },
            (other, Term::Number(m)) => {
                lemma_single_depth(other, one);
            },
            (left, right) => {
                lemma_single_depth(left, Dec::integer(2));
                lemma_single_depth(left, one);
                lemma_insert_depth(seq![(left, one)], right, one, n);
            },
        }
    }
}

/// A canonical term times a number in range is canonical and no deeper.
pub proof fn lemma_scale(t: Term, v: Dec)
    requires
        term_wf(t),
        v.in_range(),
    ensures
        scale_spec(t, v) matches Ok(r) ==> term_wf(r) && depth(r) <= depth(t),
{
    if !(t is Number) {
        lemma_single_entry_wf(t, Dec::integer(1));
    }
    lemma_single_depth(t, Dec::integer(1));
}

/// An integer power of a decimal in range is in range.
pub proof fn lemma_repeated_squaring_in_range(base: Dec, n: nat)
    requires
        base.in_range(),
    ensures
        repeated_squaring(base, n) matches Some(p) ==> p.in_range(),
    decreases n,
{
    if n > 1 {
        lemma_repeated_squaring_in_range(base, n / 2);
    }
}

/// A canonical base that is no power, raised to a canonical exponent, is
/// canonical and at most one level deeper than both.
pub proof fn lemma_exp_base(base: Term, exponent: Term)
    requires
        term_wf(base),
        term_wf(exponent),
        !(base is Exponent) || exponent is Number,
    ensures
        exp_base_spec(base, exponent) matches Ok(r) ==> term_wf(r) && depth(r) <= 1 + larger(
            depth(base),
            depth(exponent),
        ),
{
    if is_zero_number(base) || is_zero_number(exponent) || is_one_number(base) || is_one_number(
        exponent,
    ) {
    } else {
        match (base, exponent) {
            (Term::Number(x), Term::Number(y)) => {
                match crate::decimal::machine_integer(y) {
                    Some(n) => {
                        if n >= 0 {
                            lemma_repeated_squaring_in_range(x, n as nat);
                        } else {
                            match crate::decimal::checked_quotient(Dec::integer(1), x) {
                                Some(inverse) => {
                                    lemma_repeated_squaring_in_range(inverse, (-n) as nat);
                                },
                                None => {},
                            }
                        }
                    },
                    None => {},
                }
            },
            (x, Term::Number(y)) => {
                lemma_single_entry_wf(x, y);
                lemma_single_depth(x, y);
            },
            _ => {},
        }
    }
}


/// The product of a value and a number.
pub fn scale(t: Values, v: Decimal) -> (r: Result<Values, EvaluationError>)
    requires
        t.wf(),
        v.wf(),
    ensures
        match r {
            Ok(x) => scale_spec(t@, v@) == Ok::<Term, EvaluationError>(x@) && x.wf() && depth(x@)
                <= depth(t@),
            Err(e) => scale_spec(t@, v@) == Err::<Term, EvaluationError>(e),
        },
{
    proof {
        lemma_scale(t@, v@);
    }
    if t.is_zero_number() || v.is_zero() {
        return Ok(Values::Number(Decimal::zero()));
    }
    if t.is_one_number() {
        return Ok(Values::Number(v));
    }
    if v.is_small(1) {
        return Ok(t);
    }
    match t {
        Values::Product(c, m) => match c.checked_mul(&v) {
            Some(p) => Ok(Values::Product(p, m)),
            None => Err(EvaluationError::OutOfRange),
        },
        Values::Number(x) => match x.checked_mul(&v) {
            Some(p) => Ok(Values::Number(p)),
            None => Err(EvaluationError::OutOfRange),
        },
        other => Ok(Values::Product(v, single_entry(other, Decimal::one()))),
    }
}

/// Raises a base that is no power itself (or any base, to a number).
pub fn exp_base(base: Values, exponent: Values) -> (r: Result<Values, EvaluationError>)
    requires
        base.wf(),
        exponent.wf(),
        !(base@ is Exponent) || exponent@ is Number,
    ensures
        match r {
            Ok(x) => exp_base_spec(base@, exponent@) == Ok::<Term, EvaluationError>(x@) && x.wf()
                && depth(x@) <= 1 + larger(depth(base@), depth(exponent@)),
            Err(e) => exp_base_spec(base@, exponent@) == Err::<Term, EvaluationError>(e),
        },
{
    proof {
        lemma_exp_base(base@, exponent@);
    }
    if base.is_zero_number() {
        return Ok(Values::Number(Decimal::zero()));
    }
    if exponent.is_zero_number() {
        return Ok(Values::Number(Decimal::one()));
    }
    if base.is_one_number() {
        return Ok(Values::Number(Decimal::one()));
    }
    if exponent.is_one_number() {
        return Ok(base);
    }
    match (base, exponent) {
        (Values::Number(x), Values::Number(y)) => match exponantiate(x, y) {
            Ok(p) => Ok(Values::Number(p)),
            Err(e) => Err(e),
        },
        (x, Values::Number(y)) => Ok(Values::Product(Decimal::one(), single_entry(x, y))),
        (left, right) => Ok(Values::Exponent(Box::new((left, right)))),
    }
}

/// The mathematical content of an optional weight.
pub open spec fn weight_view(w: Option<&Decimal>) -> Option<Dec> {
    match w {
        Some(d) => Some(d@),
        None => None,
    }
}

/// The product of two values that are no numbers and of which at most one
/// is a power, a sum or a product in a way that needs no further
/// multiplication: a new product of the two, or of the one squared.
fn pair_product(left: Values, right: Values) -> (r: Values)
    requires
        left.wf(),
        right.wf(),
        !(left@ is Number),
        !(right@ is Number),
    ensures
        r@ == pair_product_spec(left@, right@),
        r.wf(),
        depth(r@) <= larger(depth(left@), depth(right@)),
{
    let ghost n = larger(depth(left@), depth(right@));
    proof {
        lemma_single_entry_wf(left@, Dec::integer(2));
        lemma_single_entry_wf(left@, Dec::integer(1));
        lemma_single_depth(left@, Dec::integer(2));
        lemma_single_depth(left@, Dec::integer(1));
        lemma_insert_entry_wf(seq![(left@, Dec::integer(1))], right@, Dec::integer(1));
        lemma_insert_depth(seq![(left@, Dec::integer(1))], right@, Dec::integer(1), n);
    }
    if left.equals(&right) {
        Values::Product(Decimal::one(), single_entry(left, Decimal::from_i8(2)))
    } else {
        let mut m = single_entry(left, Decimal::one());
        insert_entry_into(&mut m, right, Decimal::one());
        Values::Product(Decimal::one(), m)
    }
}

/// A product of factors with one more factor.
fn product_with(constant: Decimal, factors: Vec<(Values, Decimal)>, other: Values) -> (r: Values)
    requires
        constant.wf(),
        entries_wf(entries_view(factors@)),
        other.wf(),
        !(other@ is Number),
    ensures
        r@ == Term::Product(
            constant@,
            insert_entry(entries_view(factors@), other@, Dec::integer(1)),
        ),
        r.wf(),
        depth(r@) <= larger(entries_depth(entries_view(factors@), 0), depth(other@)),
{
    let ghost n = larger(entries_depth(entries_view(factors@), 0), depth(other@));
    proof {
        lemma_insert_depth(entries_view(factors@), other@, Dec::integer(1), n);
    }
    let mut factors = factors;
    insert_entry_into(&mut factors, other, Decimal::one());
    Values::Product(constant, factors)
}

/// A power times a value that is neither a number nor a power: the base
/// counted once more where the value is the base, else a product of the two.
fn power_times(base: Values, exponent: Values, z: Values) -> (r: Result<Values, EvaluationError>)
    requires
        base.wf(),
        exponent.wf(),
        irreducible(base@, exponent@),
        z.wf(),
        !(z@ is Number),
        !(z@ is Exponent),
    ensures
        match r {
            Ok(v) => power_times_spec(base@, exponent@, z@) == Ok::<Term, EvaluationError>(v@)
                && v.wf() && depth(v@) <= larger(1 + larger(depth(base@), depth(exponent@)), depth(z@)),
            Err(e) => power_times_spec(base@, exponent@, z@) == Err::<Term, EvaluationError>(e),
        },
{
    let ghost power = Term::Exponent(Box::new(base@), Box::new(exponent@));
    let ghost n = larger(depth(power), depth(z@));
    if base.equals(&z) {
        proof {
            lemma_add_wf(exponent@, Term::Number(Dec::integer(1)));
            lemma_add_depth(exponent@, Term::Number(Dec::integer(1)), depth(exponent@));
        }
        let raised = exponent.add(Values::Number(Decimal::one()));
        exp_base(base, raised)
    } else {
        proof {
            lemma_single_entry_wf(z@, Dec::integer(1));
            lemma_single_depth(z@, Dec::integer(1));
            lemma_insert_entry_wf(seq![(z@, Dec::integer(1))], power, Dec::integer(1));
            lemma_insert_depth(seq![(z@, Dec::integer(1))], power, Dec::integer(1), n);
        }
        let mut m = single_entry(z, Decimal::one());
        insert_entry_into(&mut m, Values::Exponent(Box::new((base, exponent))), Decimal::one());
        Ok(Values::Product(Decimal::one(), m))
    }
}

/// Two powers multiplied: the exponents added where the bases are equal,
/// the bases multiplied where the exponents are equal, else a product of the
/// two.
fn mul_powers(xa: Values, xb: Values, ya: Values, yb: Values) -> (r: Result<
    Values,
    EvaluationError,
>)
    requires
        xa.wf(),
        xb.wf(),
        ya.wf(),
        yb.wf(),
        irreducible(xa@, xb@),
        irreducible(ya@, yb@),
    ensures
        match r {
            Ok(v) => mul_spec(
                Term::Exponent(Box::new(xa@), Box::new(xb@)),
                Term::Exponent(Box::new(ya@), Box::new(yb@)),
            ) == Ok::<Term, EvaluationError>(v@) && v.wf() && depth(v@) <= 1 + larger(
                larger(depth(xa@), depth(xb@)),
                larger(depth(ya@), depth(yb@)),
            ),
            Err(e) => mul_spec(
                Term::Exponent(Box::new(xa@), Box::new(xb@)),
                Term::Exponent(Box::new(ya@), Box::new(yb@)),
            ) == Err::<Term, EvaluationError>(e),
        },
    decreases
        1 + larger(larger(depth(xa@), depth(xb@)), larger(depth(ya@), depth(yb@))),
        2 + size(xa@) + size(xb@) + size(ya@) + size(yb@),
        0nat,
        0nat,
{
    let ghost a0 = Term::Exponent(Box::new(xa@), Box::new(xb@));
    let ghost b0 = Term::Exponent(Box::new(ya@), Box::new(yb@));
    let ghost n = larger(depth(a0), depth(b0));
    if xa.equals(&ya) {
        proof {
            lemma_add_wf(xb@, yb@);
            lemma_add_depth(xb@, yb@, larger(depth(xb@), depth(yb@)));
        }
        let raised = xb.add(yb);
        exp_base(xa, raised)
    } else if xb.equals(&yb) {
        match xa.mul(ya) {
            Err(e) => Err(e),
            Ok(r) => r.exp(yb),
        }
    } else {
        proof {
            lemma_single_entry_wf(a0, Dec::integer(1));
            lemma_single_depth(a0, Dec::integer(1));
            lemma_insert_entry_wf(seq![(a0, Dec::integer(1))], b0, Dec::integer(1));
            lemma_insert_depth(seq![(a0, Dec::integer(1))], b0, Dec::integer(1), n);
        }
        let mut m = single_entry(Values::Exponent(Box::new((xa, xb))), Decimal::one());
        insert_entry_into(&mut m, Values::Exponent(Box::new((ya, yb))), Decimal::one());
        Ok(Values::Product(Decimal::one(), m))
    }
}

impl Values {
    /// The canonical product of two values.
    ///
    /// Fails where a number leaves the range that this library works with,
    /// or where a number is raised to a power that is no integer.
    pub fn mul(self, other: Values) -> (r: Result<Values, EvaluationError>)
        requires
            self.wf(),
            other.wf(),
        ensures
            match r {
                Ok(v) => mul_spec(self@, other@) == Ok::<Term, EvaluationError>(v@) && v.wf()
                    && depth(v@) <= larger(depth(self@), depth(other@)),
                Err(e) => mul_spec(self@, other@) == Err::<Term, EvaluationError>(e),
            },
        decreases larger(depth(self@), depth(other@)), size(self@) + size(other@), 1nat, 0nat,
    {
        let ghost a0 = self@;
        let ghost b0 = other@;
        match (self, other) {
            (a, Values::Number(y)) => scale(a, y),
            (Values::Number(x), b) => scale(b, x),
            (Values::Exponent(p), Values::Exponent(q)) => {
                let (xa, xb) = *p;
                let (ya, yb) = *q;
                mul_powers(xa, xb, ya, yb)
            },
            (z, Values::Exponent(q)) => {
                let (x, y) = *q;
                power_times(x, y, z)
            },
            (Values::Exponent(p), z) => {
                let (x, y) = *p;
                power_times(x, y, z)
            },
            (Values::Sum(cx, x), Values::Sum(cy, y)) => match cx.checked_mul(&cy) {
                None => Err(EvaluationError::OutOfRange),
                Some(c) => {
                    proof {
                        lemma_size_of_number(cx@);
                        lemma_size_of_number(cy@);
                    }
                    let left = Values::Number(cx);
                    let right = Values::Number(cy);
                    match multiply_row(&y, &left, None, Values::Number(c)) {
                        Err(e) => Err(e),
                        Ok(first) => match multiply_row(&x, &right, None, first) {
                            Err(e) => Err(e),
                            Ok(second) => multiply_rows(&x, &y, second),
                        },
                    }
                },
            },
            (Values::Sum(cx, x), other) => match scale(other.copy(), cx) {
                Err(e) => Err(e),
                Ok(start) => multiply_row(&x, &other, None, start),
            },
            (other, Values::Sum(cx, x)) => match scale(other.copy(), cx) {
                Err(e) => Err(e),
                Ok(start) => multiply_row(&x, &other, None, start),
            },
            (Values::Product(cx, x), Values::Product(cy, y)) => match cx.checked_mul(&cy) {
                None => Err(EvaluationError::OutOfRange),
                Some(c) => {
                    proof {
                        lemma_merge_depth(
                            entries_view(x@),
                            entries_view(y@),
                            0,
                            larger(depth(a0), depth(b0)),
                        );
                    }
                    let mut x = x;
                    merge_entries_into(&mut x, &y);
                    Ok(Values::Product(c, x))
                },
            },
            (Values::Product(cx, x), other) => Ok(product_with(cx, x, other)),
            (other, Values::Product(cx, x)) => Ok(product_with(cx, x, other)),
            (left, right) => Ok(pair_product(left, right)),
        }
    }

    /// This value raised to another.
    ///
    /// Fails where a number is raised to a power that is no integer, or where
    /// a number leaves the range that this library works with.
    pub fn exp(self, other: Values) -> (r: Result<Values, EvaluationError>)
        requires
            self.wf(),
            other.wf(),
        ensures
            match r {
                Ok(v) => exp_spec(self@, other@) == Ok::<Term, EvaluationError>(v@) && v.wf()
                    && depth(v@) <= 1 + larger(depth(self@), depth(other@)),
                Err(e) => exp_spec(self@, other@) == Err::<Term, EvaluationError>(e),
            },
        decreases larger(depth(self@), depth(other@) + 1), 0nat, 0nat, 0nat,
    {
        match self {
            Values::Exponent(p) => {
                let numeric = match &other {
                    Values::Number(_) => true,
                    _ => false,
                };
                if numeric {
                    exp_base(Values::Exponent(p), other)
                } else {
                    let (a, b) = *p;
                    match b.mul(other) {
                        Err(e) => Err(e),
                        Ok(e) => exp_base(a, e),
                    }
                }
            },
            base => exp_base(base, other),
        }
    }
}

/// What one entry of a sum contributes to a product.
fn multiply_entry(key: Values, amount: Decimal, other: Values, weight: Option<&Decimal>) -> (r:
    Result<Values, EvaluationError>)
    requires
        key.wf(),
        amount.wf(),
        other.wf(),
        weight matches Some(w) ==> w.wf(),
    ensures
        match r {
            Ok(v) => entry_product_spec(key@, amount@, other@, weight_view(weight)) == Ok::<
                Term,
                EvaluationError,
            >(v@) && v.wf() && depth(v@) <= larger(depth(key@), depth(other@)),
            Err(e) => entry_product_spec(key@, amount@, other@, weight_view(weight)) == Err::<
                Term,
                EvaluationError,
            >(e),
        },
    decreases larger(depth(key@), depth(other@)), size(key@) + size(other@), 2nat, 0nat,
{
    match key.mul(other) {
        Err(e) => Err(e),
        Ok(product) => {
            let factor = match weight {
                None => Some(amount),
                Some(w) => amount.checked_mul(w),
            };
            match factor {
                None => Err(EvaluationError::OutOfRange),
                Some(f) => scale(product, f),
            }
        },
    }
}

/// Adds to `acc`, for every entry of `x`, the product of its key with
/// `other`, scaled by its amount and by `weight` where one is given.
pub fn multiply_row(
    x: &Vec<(Values, Decimal)>,
    other: &Values,
    weight: Option<&Decimal>,
    acc: Values,
) -> (r: Result<Values, EvaluationError>)
    requires
        entries_wf(entries_view(x@)),
        other.wf(),
        weight matches Some(w) ==> w.wf(),
        acc.wf(),
    ensures
        match r {
            Ok(v) => row_spec(entries_view(x@), other@, weight_view(weight), 0, acc@) == Ok::<
                Term,
                EvaluationError,
            >(v@) && v.wf() && depth(v@) <= larger(
                larger(entries_depth(entries_view(x@), 0), depth(other@)),
                depth(acc@),
            ),
            Err(e) => row_spec(entries_view(x@), other@, weight_view(weight), 0, acc@) == Err::<
                Term,
                EvaluationError,
            >(e),
        },
    decreases
        larger(entries_depth(entries_view(x@), 0), depth(other@)),
        entries_size(entries_view(x@), 0) + size(other@),
        3nat,
        x@.len(),
{
    let ghost mx = entries_view(x@);
    let ghost start = acc@;
    let ghost wv = weight_view(weight);
    let ghost bound = larger(larger(entries_depth(mx, 0), depth(other@)), depth(start));
    let mut total = acc;
    let mut i: usize = 0;
    while i < x.len()
        invariant
            i <= x@.len(),
            mx == entries_view(x@),
            wv == weight_view(weight),
            entries_wf(mx),
            other.wf(),
            weight matches Some(w) ==> w.wf(),
            total.wf(),
            start == acc@,
            bound == larger(larger(entries_depth(mx, 0), depth(other@)), depth(start)),
            depth(total@) <= bound,
            row_spec(mx, other@, wv, 0, start) == row_spec(mx, other@, wv, i as nat, total@),
        decreases x@.len() - i,
    {
        proof {
            assert(mx[i as int] == (x@[i as int].0@, x@[i as int].1@));
            assert(entry_wf(mx[i as int]));
            lemma_key_measures(mx, 0, i as int);
        }
        let key = x[i].0.copy();
        let amount = x[i].1.copy();
        match multiply_entry(key, amount, other.copy(), weight) {
            Err(e) => {
                return Err(e);
            },
            Ok(term) => {
                proof {
                    lemma_add_wf(total@, term@);
                    lemma_add_depth(total@, term@, bound);
                }
                total = total.add(term);
            },
        }
        i = i + 1;
    }
    Ok(total)
}

/// Adds to `acc`, for every entry of `y`, the row of `x` against its key,
/// weighted by its amount.
pub fn multiply_rows(x: &Vec<(Values, Decimal)>, y: &Vec<(Values, Decimal)>, acc: Values) -> (r:
    Result<Values, EvaluationError>)
    requires
        entries_wf(entries_view(x@)),
        entries_wf(entries_view(y@)),
        acc.wf(),
    ensures
        match r {
            Ok(v) => rows_spec(entries_view(x@), entries_view(y@), 0, acc@) == Ok::<
                Term,
                EvaluationError,
            >(v@) && v.wf() && depth(v@) <= larger(
                larger(entries_depth(entries_view(x@), 0), entries_depth(entries_view(y@), 0)),
                depth(acc@),
            ),
            Err(e) => rows_spec(entries_view(x@), entries_view(y@), 0, acc@) == Err::<
                Term,
                EvaluationError,
            >(e),
        },
    decreases
        larger(entries_depth(entries_view(x@), 0), entries_depth(entries_view(y@), 0)),
        entries_size(entries_view(x@), 0) + entries_size(entries_view(y@), 0) + 1,
        4nat,
        y@.len(),
{
    let ghost mx = entries_view(x@);
    let ghost my = entries_view(y@);
    let ghost start = acc@;
    let ghost bound = larger(larger(entries_depth(mx, 0), entries_depth(my, 0)), depth(start));
    let mut total = acc;
    let mut j: usize = 0;
    while j < y.len()
        invariant
            j <= y@.len(),
            mx == entries_view(x@),
            my == entries_view(y@),
            entries_wf(mx),
            entries_wf(my),
            total.wf(),
            start == acc@,
            bound == larger(larger(entries_depth(mx, 0), entries_depth(my, 0)), depth(start)),
            depth(total@) <= bound,
            rows_spec(mx, my, 0, start) == rows_spec(mx, my, j as nat, total@),
        decreases y@.len() - j,
    {
        proof {
            assert(my[j as int] == (y@[j as int].0@, y@[j as int].1@));
            assert(entry_wf(my[j as int]));
            lemma_key_measures(my, 0, j as int);
        }
        let weight = Some(&y[j].1);
        assert(weight_view(weight) == Some(my[j as int].1));
        assert(rows_spec(mx, my, j as nat, total@) == match row_spec(
            mx,
            my[j as int].0,
            Some(my[j as int].1),
            0,
            total@,
        ) {
            Err(e) => Err(e),
            Ok(next) => rows_spec(mx, my, j as nat + 1, next),
        });
        total = match multiply_row(x, &y[j].0, weight, total) {
            Err(e) => {
                return Err(e);
            },
            Ok(next) => next,
        };
        j = j + 1;
    }
    Ok(total)
}

} // verus!
