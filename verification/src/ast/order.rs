//! The order on canonical terms is total: it is reflexive, it mirrors, and
//! it is transitive; so the keys of a canonical list are pairwise distinct.

use crate::ast::values::ascending_at;
use crate::ast::values::entries_order;
use crate::ast::values::entries_wf;
use crate::ast::values::term_order;
use crate::ast::values::text_order;
use crate::ast::values::then_order;
use crate::ast::values::Term;
use crate::decimal::chains;
use crate::decimal::lemma_dec_order_chains;
use crate::decimal::Dec;
use crate::decimal::Order;
use vstd::prelude::*;

verus! {

/// Outcomes that chain part by part chain as a whole, the first part
/// deciding before the second.
pub proof fn lemma_then_chains(f1: Order, s1: Order, f2: Order, s2: Order, f3: Order, s3: Order)
    requires
        chains(f1, f2, f3),
        chains(s1, s2, s3),
    ensures
        chains(then_order(f1, s1), then_order(f2, s2), then_order(f3, s3)),
{
}

/// The order on texts chains.
pub proof fn lemma_text_order_chains(a: Seq<char>, b: Seq<char>, c: Seq<char>)
    ensures
        chains(text_order(a, b), text_order(b, c), text_order(a, c)),
    decreases a.len(),
{
    if a.len() > 0 && b.len() > 0 && c.len() > 0 && a[0] == b[0] && b[0] == c[0] {
        lemma_text_order_chains(a.drop_first(), b.drop_first(), c.drop_first());
    }
}

/// Two texts tie only where they are the same text.
pub proof fn lemma_text_order_equal(a: Seq<char>, b: Seq<char>)
    ensures
        text_order(a, b) == Order::Equal <==> a == b,
    decreases a.len(),
{
    if a.len() > 0 && b.len() > 0 {
        lemma_text_order_equal(a.drop_first(), b.drop_first());
        if a[0] == b[0] && a.drop_first() == b.drop_first() {
            assert(a =~= seq![a[0]] + a.drop_first());
            assert(b =~= seq![b[0]] + b.drop_first());
        }
    } else if a.len() == 0 && b.len() == 0 {
        assert(a =~= b);
    }
}

/// The order on terms chains: a tie hands the other outcome on, and what
/// comes before something that comes before a third comes before the third.
pub proof fn lemma_term_order_chains(a: Term, b: Term, c: Term)
    ensures
        chains(term_order(a, b), term_order(b, c), term_order(a, c)),
    decreases a, 0nat,
{
    match (a, b, c) {
        (Term::Number(x), Term::Number(y), Term::Number(z)) => {
            lemma_dec_order_chains(x, y, z);
        },
        (Term::Variable(x), Term::Variable(y), Term::Variable(z)) => {
            lemma_text_order_chains(x, y, z);
        },
        (Term::Sum(cx, x), Term::Sum(cy, y), Term::Sum(cz, z)) => {
            lemma_dec_order_chains(cx, cy, cz);
            lemma_entries_order_chains(x, y, z, 0);
            lemma_then_chains(
                cx.order(cy),
                entries_order(x, y, 0),
                cy.order(cz),
                entries_order(y, z, 0),
                cx.order(cz),
                entries_order(x, z, 0),
            );
        },
        (Term::Product(cx, x), Term::Product(cy, y), Term::Product(cz, z)) => {
            lemma_dec_order_chains(cx, cy, cz);
            lemma_entries_order_chains(x, y, z, 0);
            lemma_then_chains(
                cx.order(cy),
                entries_order(x, y, 0),
                cy.order(cz),
                entries_order(y, z, 0),
                cx.order(cz),
                entries_order(x, z, 0),
            );
        },
        (Term::Exponent(xa, xb), Term::Exponent(ya, yb), Term::Exponent(za, zb)) => {
            lemma_term_order_chains(*xa, *ya, *za);
            lemma_term_order_chains(*xb, *yb, *zb);
            lemma_then_chains(
                term_order(*xa, *ya),
                term_order(*xb, *yb),
                term_order(*ya, *za),
                term_order(*yb, *zb),
                term_order(*xa, *za),
                term_order(*xb, *zb),
            );
        },
        _ => {},
    }
}

/// The order on lists chains.
pub proof fn lemma_entries_order_chains(
    x: Seq<(Term, Dec)>,
    y: Seq<(Term, Dec)>,
    z: Seq<(Term, Dec)>,
    i: nat,
)
    ensures
        chains(entries_order(x, y, i), entries_order(y, z, i), entries_order(x, z, i)),
    decreases x, x.len() - i,
{
    if i < x.len() && i < y.len() && i < z.len() {
        let k = i as int;
        lemma_term_order_chains(x[k].0, y[k].0, z[k].0);
        lemma_dec_order_chains(x[k].1, y[k].1, z[k].1);
        lemma_then_chains(
            term_order(x[k].0, y[k].0),
            x[k].1.order(y[k].1),
            term_order(y[k].0, z[k].0),
            y[k].1.order(z[k].1),
            term_order(x[k].0, z[k].0),
            x[k].1.order(z[k].1),
        );
        lemma_entries_order_chains(x, y, z, (i + 1) as nat);
        lemma_then_chains(
            then_order(term_order(x[k].0, y[k].0), x[k].1.order(y[k].1)),
            entries_order(x, y, (i + 1) as nat),
            then_order(term_order(y[k].0, z[k].0), y[k].1.order(z[k].1)),
            entries_order(y, z, (i + 1) as nat),
            then_order(term_order(x[k].0, z[k].0), x[k].1.order(z[k].1)),
            entries_order(x, z, (i + 1) as nat),
        );
    }
}

/// Every term ties with itself.
pub proof fn lemma_term_order_reflexive(a: Term)
    ensures
        term_order(a, a) == Order::Equal,
    decreases a, 0nat,
{
    match a {
        Term::Number(_) => {},
        Term::Variable(x) => {
            lemma_text_order_equal(x, x);
        },
        Term::Sum(_, x) => {
            lemma_entries_order_reflexive(x, 0);
        },
        Term::Product(_, x) => {
            lemma_entries_order_reflexive(x, 0);
        },
        Term::Exponent(xa, xb) => {
            lemma_term_order_reflexive(*xa);
            lemma_term_order_reflexive(*xb);
        },
    }
}

/// Every list ties with itself.
pub proof fn lemma_entries_order_reflexive(x: Seq<(Term, Dec)>, i: nat)
    ensures
        entries_order(x, x, i) == Order::Equal,
    decreases x, x.len() - i,
{
    if i < x.len() {
        lemma_term_order_reflexive(x[i as int].0);
        lemma_entries_order_reflexive(x, (i + 1) as nat);
    }
}

/// In a canonical list every key comes before every later key: the keys are
/// pairwise distinct in the order on terms.
pub proof fn lemma_keys_distinct(m: Seq<(Term, Dec)>, i: int, j: int)
    requires
        entries_wf(m),
        0 <= i < j < m.len(),
    ensures
        term_order(m[i].0, m[j].0) == Order::Less,
    decreases j - i,
{
    assert(ascending_at(m, j));
    if i + 1 < j {
        lemma_keys_distinct(m, i, j - 1);
        lemma_term_order_chains(m[i].0, m[j - 1].0, m[j].0);
    }
}

} // verus!
