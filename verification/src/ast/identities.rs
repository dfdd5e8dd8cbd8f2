//! Identities of the canonical algebra: the neutral and the annihilating
//! numbers, and the order of two variables, which makes no difference.

use crate::ast::multiply::entry_product_spec;
use crate::ast::multiply::mul_spec;
use crate::ast::multiply::pair_product_spec;
use crate::ast::multiply::row_spec;
use crate::ast::multiply::scale_spec;
use crate::ast::printer::glue_from;
use crate::ast::printer::join_sum;
use crate::ast::printer::sum_entry_part;
use crate::ast::printer::sum_entry_parts;
use crate::ast::printer::sum_parts;
use crate::ast::order::lemma_term_order_reflexive;
use crate::ast::order::lemma_text_order_equal;
use crate::ast::printer::render;
use crate::ast::values::add_spec;
use crate::ast::values::entries_order;
use crate::ast::values::lemma_term_order_mirrored;
use crate::ast::values::lemma_entries_order_mirrored;
use crate::ast::values::term_wf;
use crate::ast::values::insert_entry;
use crate::ast::values::is_one_number;
use crate::ast::values::is_zero_number;
use crate::ast::values::lemma_text_order_mirrored;
use crate::ast::values::slot;
use crate::ast::values::term_order;
use crate::ast::values::Term;
use crate::ast::EvaluationError;
use crate::decimal::lemma_order_mirrored;
use crate::decimal::Dec;
use crate::decimal::Order;
use vstd::prelude::*;

verus! {

/// Zero and one are different numbers, however they are written.
pub proof fn lemma_zero_is_not_one(d: Dec)
    ensures
        !(d.same_value(Dec::integer(0)) && d.same_value(Dec::integer(1))),
{
    crate::decimal::lemma_dec_order_chains(Dec::integer(0), d, Dec::integer(1));
    lemma_order_mirrored(d, Dec::integer(0));
    assert(Dec::integer(0).order(Dec::integer(1)) == Order::Less) by {
        reveal_with_fuel(crate::decimal::pow10, 2);
    }
}

/// Adding a zero leaves a term as it is: on the left always, on the right
/// unless the term is a zero itself, which then gives way to the zero added;
/// in the order on terms the sum ties with the term in every case.
pub proof fn lemma_add_zero(x: Term, zero: Dec)
    requires
        zero.same_value(Dec::integer(0)),
    ensures
        add_spec(Term::Number(zero), x) == x,
        !is_zero_number(x) ==> add_spec(x, Term::Number(zero)) == x,
        term_order(add_spec(x, Term::Number(zero)), x) == Order::Equal,
{
    reveal(add_spec);
    lemma_term_order_reflexive(x);
    if is_zero_number(x) {
        let d = x->Number_0;
        crate::decimal::lemma_dec_order_chains(zero, Dec::integer(0), d);
        lemma_order_mirrored(d, Dec::integer(0));
    }
}

/// Multiplying by one leaves a term as it is, unless the term is a zero or a
/// one itself, which gives the number zero or the one multiplied by; in the
/// order on terms the product ties with the term in every case.
pub proof fn lemma_mul_one(x: Term, one: Dec)
    requires
        one.same_value(Dec::integer(1)),
    ensures
        !is_zero_number(x) && !is_one_number(x) ==> mul_spec(x, Term::Number(one)) == Ok::<
            Term,
            EvaluationError,
        >(x),
        !is_zero_number(x) ==> mul_spec(Term::Number(one), x) == Ok::<Term, EvaluationError>(x),
        mul_spec(x, Term::Number(one)) matches Ok(r) && term_order(r, x) == Order::Equal,
        mul_spec(Term::Number(one), x) matches Ok(r) && term_order(r, x) == Order::Equal,
{
    lemma_zero_is_not_one(one);
    lemma_term_order_reflexive(x);
    if x is Number {
        let d = x->Number_0;
        lemma_zero_is_not_one(d);
        lemma_order_mirrored(d, Dec::integer(0));
        lemma_order_mirrored(d, Dec::integer(1));
        lemma_order_mirrored(one, Dec::integer(1));
        crate::decimal::lemma_dec_order_chains(one, Dec::integer(1), d);
        crate::decimal::lemma_dec_order_chains(Dec::integer(0), Dec::integer(0), d);
    }
}

/// Multiplying by zero gives the number zero.
pub proof fn lemma_mul_zero(x: Term, zero: Dec)
    requires
        zero.same_value(Dec::integer(0)),
    ensures
        mul_spec(x, Term::Number(zero)) == Ok::<Term, EvaluationError>(
            Term::Number(Dec::integer(0)),
        ),
        mul_spec(Term::Number(zero), x) == Ok::<Term, EvaluationError>(
            Term::Number(Dec::integer(0)),
        ),
{
}

/// The sum and the product of two variables do not depend on which of the
/// two is written first, and neither does their text.
pub proof fn lemma_variables_commute(x: Seq<char>, y: Seq<char>)
    ensures
        add_spec(Term::Variable(x), Term::Variable(y)) == add_spec(
            Term::Variable(y),
            Term::Variable(x),
        ),
        mul_spec(Term::Variable(x), Term::Variable(y)) == mul_spec(
            Term::Variable(y),
            Term::Variable(x),
        ),
        render(add_spec(Term::Variable(x), Term::Variable(y))) == render(
            add_spec(Term::Variable(y), Term::Variable(x)),
        ),
{
    reveal(add_spec);
    let a = Term::Variable(x);
    let b = Term::Variable(y);
    let one = Dec::integer(1);
    lemma_text_order_equal(x, y);
    lemma_text_order_equal(y, x);
    lemma_text_order_mirrored(x, y);
    let ab = insert_entry(seq![(a, one)], b, one);
    let ba = insert_entry(seq![(b, one)], a, one);
    reveal_with_fuel(slot, 3);
    if x != y {
        assert(ab =~= ba);
    }
}


/// The sum of two numbers does not depend on which of the two is written
/// first, unless both are zero: then the sum is the one written last, in its
/// own writing.
pub proof fn lemma_numbers_commute(a: Dec, b: Dec)
    requires
        !(a.same_value(Dec::integer(0)) && b.same_value(Dec::integer(0))),
    ensures
        add_spec(Term::Number(a), Term::Number(b)) == add_spec(Term::Number(b), Term::Number(a)),
{
    reveal(add_spec);
    assert(a.sum(b) == b.sum(a));
}


/// A sum that shows nothing but one term of weight minus one is written as a
/// minus sign, a blank and the term; no blank stands in front.
pub proof fn lemma_lone_minus_term(constant: Dec, name: Seq<char>, weight: Dec)
    requires
        constant.same_value(Dec::integer(0)),
        weight.same_value(Dec::integer(-1)),
    ensures
        render(Term::Sum(constant, seq![(Term::Variable(name), weight)])) == seq!['-', ' '] + name,
{
    let m = seq![(Term::Variable(name), weight)];
    crate::decimal::lemma_dec_order_chains(Dec::integer(0), weight, Dec::integer(-1));
    crate::decimal::lemma_dec_order_chains(Dec::integer(1), weight, Dec::integer(-1));
    lemma_order_mirrored(weight, Dec::integer(0));
    lemma_order_mirrored(weight, Dec::integer(1));
    assert(crate::decimal::pow10(0) == 1);
    assert(Dec::integer(0).order(Dec::integer(-1)) == Order::Greater);
    assert(Dec::integer(1).order(Dec::integer(-1)) == Order::Greater);
    let piece = seq!['-', ' '] + name;
    assert(sum_entry_part(m, 0) == seq![piece]);
    assert(sum_entry_parts(m, 1) =~= Seq::<Seq<char>>::empty());
    assert(sum_entry_parts(m, 0) =~= seq![piece]);
    assert(sum_parts(constant, m) == seq![piece]);
    assert(glue_from(seq![piece], 1) =~= Seq::<char>::empty());
    assert(join_sum(seq![piece]) =~= piece);
}

/// The constant of a sum takes part in a product: one plus a variable, times
/// another variable, is that other variable plus the product of the two.
pub proof fn lemma_constant_takes_part(x: Seq<char>, y: Seq<char>)
    ensures
        mul_spec(
            Term::Sum(Dec::integer(1), seq![(Term::Variable(x), Dec::integer(1))]),
            Term::Variable(y),
        ) == Ok::<Term, EvaluationError>(
            add_spec(Term::Variable(y), pair_product_spec(Term::Variable(x), Term::Variable(y))),
        ),
{
    let one = Dec::integer(1);
    let vx = Term::Variable(x);
    let vy = Term::Variable(y);
    let m = seq![(vx, one)];
    lemma_zero_is_not_one(one);
    assert(crate::decimal::pow10(0) == 1);
    assert(one.same_value(one));
    assert(scale_spec(vy, one) == Ok::<Term, EvaluationError>(vy));
    let p = pair_product_spec(vx, vy);
    assert(mul_spec(vx, vy) == Ok::<Term, EvaluationError>(p));
    assert(scale_spec(p, one) == Ok::<Term, EvaluationError>(p));
    assert(entry_product_spec(vx, one, vy, None) == Ok::<Term, EvaluationError>(p));
    assert(row_spec(m, vy, None, 1, add_spec(vy, p)) == Ok::<Term, EvaluationError>(
        add_spec(vy, p),
    ));
    assert(row_spec(m, vy, None, 0, vy) == Ok::<Term, EvaluationError>(add_spec(vy, p)));
}


/// Two entries whose keys do not tie make the same list, whichever of the two
/// is put in first.
pub proof fn lemma_pair_of_entries(l: Term, lw: Dec, r: Term, rw: Dec)
    requires
        term_order(l, r) != Order::Equal,
    ensures
        insert_entry(seq![(l, lw)], r, rw) == insert_entry(seq![(r, rw)], l, lw),
{
    lemma_term_order_mirrored(l, r);
    reveal_with_fuel(slot, 3);
    assert(insert_entry(seq![(l, lw)], r, rw) =~= insert_entry(seq![(r, rw)], l, lw));
}

/// The sum of two canonical terms does not depend on which of the two is
/// written first, but for the writing of numbers that tie: the two sums tie
/// in the order on terms.
pub proof fn lemma_add_commutes(a: Term, b: Term)
    requires
        term_wf(a),
        term_wf(b),
    ensures
        term_order(add_spec(a, b), add_spec(b, a)) == Order::Equal,
{
    reveal(add_spec);
    let zero = Dec::integer(0);
    let one = Dec::integer(1);
    lemma_term_order_reflexive(add_spec(a, b));
    lemma_term_order_reflexive(a);
    lemma_term_order_reflexive(b);
    if is_zero_number(a) && is_zero_number(b) {
        let x = a->Number_0;
        let y = b->Number_0;
        lemma_order_mirrored(x, zero);
        crate::decimal::lemma_dec_order_chains(y, zero, x);
    } else if is_zero_number(a) || is_zero_number(b) {
    } else {
        match (a, b) {
            (Term::Number(x), Term::Number(y)) => {
                assert(x.sum(y) == y.sum(x));
            },
            (Term::Product(cx, x), Term::Product(cy, y)) => {
                let kx = Term::Product(one, x);
                let ky = Term::Product(one, y);
                lemma_entries_order_mirrored(x, y, 0);
                assert(cx.sum(cy) == cy.sum(cx));
                assert(one.order(one) == Order::Equal);
                if entries_order(x, y, 0) == Order::Equal {
                    let p = seq![(kx, cx.sum(cy))];
                    let q = seq![(ky, cy.sum(cx))];
                    assert(term_order(kx, ky) == Order::Equal);
                    lemma_order_mirrored(cx.sum(cy), cx.sum(cy));
                    reveal_with_fuel(entries_order, 3);
                    assert(entries_order(p, q, 0) == Order::Equal);
                    assert(zero.order(zero) == Order::Equal);
                } else {
                    assert(term_order(kx, ky) != Order::Equal);
                    lemma_pair_of_entries(kx, cx, ky, cy);
                }
            },
            (Term::Sum(cx, x), Term::Sum(cy, y)) => {
                crate::ast::merging::lemma_merge_commutes(x, y);
                assert(cx.sum(cy) == cy.sum(cx));
                lemma_order_mirrored(cx.sum(cy), cx.sum(cy));
            },
            (Term::Sum(_, _), _) => {},
            (_, Term::Sum(_, _)) => {},
            (Term::Product(_, _), _) => {},
            (_, Term::Product(_, _)) => {},
            (Term::Number(_), _) => {},
            (_, Term::Number(_)) => {},
            (left, right) => {
                lemma_term_order_mirrored(left, right);
                if term_order(left, right) == Order::Equal {
                    let p = seq![(left, Dec::integer(2))];
                    let q = seq![(right, Dec::integer(2))];
                    reveal_with_fuel(entries_order, 3);
                    assert(Dec::integer(2).order(Dec::integer(2)) == Order::Equal);
                    assert(entries_order(p, q, 0) == Order::Equal);
                    assert(zero.order(zero) == Order::Equal);
                } else {
                    lemma_pair_of_entries(left, one, right, one);
                }
            },
        }
    }
}

} // verus!
