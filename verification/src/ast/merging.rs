//! Merging two canonical lists does not depend on which of the two is merged
//! into the other, but for the writing of keys that tie.

use crate::ast::order::lemma_entries_order_reflexive;
use crate::ast::order::lemma_term_order_chains;
use crate::ast::order::lemma_keys_distinct;
use crate::ast::values::entries_order;
use crate::ast::values::entries_wf;
use crate::ast::values::entry_wf;
use crate::ast::values::insert_entry;
use crate::ast::values::lemma_insert_entry_wf;
use crate::ast::values::lemma_slot;
use crate::ast::values::lemma_term_order_mirrored;
use crate::ast::values::merge_entries;
use crate::ast::values::slot;
use crate::ast::values::term_order;
use crate::ast::values::then_order;
use crate::ast::values::Term;
use crate::decimal::Dec;
use crate::decimal::Order;
use vstd::prelude::*;

verus! {

/// The two lists from the indices `i` and `j` on, woven into one ascending
/// list: of two keys the one that comes first goes first, and keys that tie
/// become one entry under the key of the first list, with the sum of both
/// amounts.
pub open spec fn woven(x: Seq<(Term, Dec)>, i: int, y: Seq<(Term, Dec)>, j: int) -> Seq<(Term, Dec)>
    decreases x.len() - i + y.len() - j,
{
    if i < 0 || j < 0 {
        Seq::empty()
    } else if i >= x.len() {
        y.subrange(j, if j <= y.len() { y.len() as int } else { j })
    } else if j >= y.len() {
        x.subrange(i, x.len() as int)
    } else {
        match term_order(x[i].0, y[j].0) {
            Order::Less => seq![x[i]] + woven(x, i + 1, y, j),
            Order::Greater => seq![y[j]] + woven(x, i, y, j + 1),
            Order::Equal => seq![(x[i].0, x[i].1.sum(y[j].1))] + woven(x, i + 1, y, j + 1),
        }
    }
}

/// Weaving looks at what stands from the index on, and at nothing before.
pub proof fn lemma_woven_from(
    x1: Seq<(Term, Dec)>,
    i1: int,
    x2: Seq<(Term, Dec)>,
    i2: int,
    y: Seq<(Term, Dec)>,
    j: int,
)
    requires
        0 <= i1 <= x1.len(),
        0 <= i2 <= x2.len(),
        0 <= j <= y.len(),
        x1.subrange(i1, x1.len() as int) == x2.subrange(i2, x2.len() as int),
    ensures
        woven(x1, i1, y, j) == woven(x2, i2, y, j),
    decreases x1.len() - i1 + y.len() - j,
{
    let r1 = x1.subrange(i1, x1.len() as int);
    let r2 = x2.subrange(i2, x2.len() as int);
    assert(r1.len() == r2.len());
    if i1 < x1.len() && j < y.len() {
        assert(r1[0] == x1[i1]);
        assert(r2[0] == x2[i2]);
        assert(x1.subrange(i1 + 1, x1.len() as int) =~= r1.subrange(1, r1.len() as int));
        assert(x2.subrange(i2 + 1, x2.len() as int) =~= r2.subrange(1, r2.len() as int));
        lemma_woven_from(x1, i1 + 1, x2, i2 + 1, y, j);
        lemma_woven_from(x1, i1, x2, i2, y, j + 1);
        lemma_woven_from(x1, i1 + 1, x2, i2 + 1, y, j + 1);
    }
}

/// Putting the entry of `y` at index `j` into `x` first and weaving the rest
/// of `y` in is weaving `y` in from index `j` on.
pub proof fn lemma_woven_after_insert(x: Seq<(Term, Dec)>, i: int, y: Seq<(Term, Dec)>, j: int)
    requires
        entries_wf(x),
        entries_wf(y),
        0 <= j < y.len(),
        0 <= i <= slot(x, y[j].0, 0),
    ensures
        woven(insert_entry(x, y[j].0, y[j].1), i, y, j + 1) == woven(x, i, y, j),
    decreases slot(x, y[j].0, 0) - i,
{
    let k = y[j].0;
    let a = y[j].1;
    let p = slot(x, k, 0) as int;
    let x2 = insert_entry(x, k, a);
    lemma_slot(x, k, 0);
    let tie = p < x.len() && term_order(x[p].0, k) == Order::Equal;
    if j + 1 < y.len() {
        lemma_keys_distinct(y, j, j + 1);
    }
    if i < p {
        assert(x2[i] == x[i]);
        assert(term_order(x[i].0, k) == Order::Less);
        lemma_woven_after_insert(x, i + 1, y, j);
        if j + 1 < y.len() {
            lemma_term_order_chains(x[i].0, k, y[j + 1].0);
        } else {
            assert(woven(x2, i, y, j + 1) =~= seq![x2[i]] + woven(x2, i + 1, y, j + 1));
        }
    } else if tie {
        assert(x2 =~= x.update(p, (x[p].0, x[p].1.sum(a))));
        assert(x2.subrange(p + 1, x2.len() as int) =~= x.subrange(p + 1, x.len() as int));
        lemma_woven_from(x2, p + 1, x, p + 1, y, j + 1);
        if j + 1 < y.len() {
            lemma_term_order_chains(x[p].0, k, y[j + 1].0);
        } else {
            assert(woven(x2, p, y, j + 1) =~= seq![x2[p]] + woven(x2, p + 1, y, j + 1));
        }
    } else {
        assert(x2 =~= x.insert(p, (k, a)));
        assert(x2.subrange(p + 1, x2.len() as int) =~= x.subrange(p, x.len() as int));
        lemma_woven_from(x2, p + 1, x, p, y, j + 1);
        if p < x.len() {
            lemma_term_order_mirrored(x[p].0, k);
        }
        if j + 1 >= y.len() {
            assert(woven(x2, p, y, j + 1) =~= seq![x2[p]] + woven(x2, p + 1, y, j + 1));
        }
        if p >= x.len() {
            assert(woven(x, p, y, j) =~= seq![y[j]] + woven(x, p, y, j + 1));
        }
    }
}

/// Merging a canonical list into another is weaving the two.
pub proof fn lemma_merge_is_woven(x: Seq<(Term, Dec)>, y: Seq<(Term, Dec)>, j: int)
    requires
        entries_wf(x),
        entries_wf(y),
        0 <= j <= y.len(),
    ensures
        merge_entries(x, y, j as nat) == woven(x, 0, y, j),
    decreases y.len() - j,
{
    if j < y.len() {
        assert(entry_wf(y[j]));
        lemma_insert_entry_wf(x, y[j].0, y[j].1);
        lemma_merge_is_woven(insert_entry(x, y[j].0, y[j].1), y, j + 1);
        lemma_woven_after_insert(x, 0, y, j);
    } else {
        assert(woven(x, 0, y, j) =~= x);
    }
}

/// Two lists compare behind their first entries as the lists without those
/// entries compare.
pub proof fn lemma_entries_order_behind(p: Seq<(Term, Dec)>, q: Seq<(Term, Dec)>, i: nat)
    requires
        p.len() > 0,
        q.len() > 0,
    ensures
        entries_order(p, q, (i + 1) as nat) == entries_order(p.drop_first(), q.drop_first(), i),
    decreases p.len() - i,
{
    let p0 = p.drop_first();
    let q0 = q.drop_first();
    if i + 1 < p.len() && i + 1 < q.len() {
        assert(p0[i as int] == p[i as int + 1]);
        assert(q0[i as int] == q[i as int + 1]);
        lemma_entries_order_behind(p, q, (i + 1) as nat);
    }
}

/// Weaving two lists gives lists that tie, whichever of the two is the
/// first.
pub proof fn lemma_woven_commutes(x: Seq<(Term, Dec)>, i: int, y: Seq<(Term, Dec)>, j: int)
    requires
        0 <= i <= x.len(),
        0 <= j <= y.len(),
    ensures
        entries_order(woven(x, i, y, j), woven(y, j, x, i), 0) == Order::Equal,
    decreases x.len() - i + y.len() - j,
{
    let p = woven(x, i, y, j);
    let q = woven(y, j, x, i);
    if i >= x.len() || j >= y.len() {
        assert(p =~= q);
        lemma_entries_order_reflexive(p, 0);
    } else {
        lemma_term_order_mirrored(x[i].0, y[j].0);
        assert(p.len() > 0 && q.len() > 0);
        lemma_entries_order_behind(p, q, 0);
        match term_order(x[i].0, y[j].0) {
            Order::Less => {
                lemma_woven_commutes(x, i + 1, y, j);
                assert(p.drop_first() =~= woven(x, i + 1, y, j));
                assert(q.drop_first() =~= woven(y, j, x, i + 1));
                crate::ast::order::lemma_term_order_reflexive(x[i].0);
            },
            Order::Greater => {
                lemma_woven_commutes(x, i, y, j + 1);
                assert(p.drop_first() =~= woven(x, i, y, j + 1));
                assert(q.drop_first() =~= woven(y, j + 1, x, i));
                crate::ast::order::lemma_term_order_reflexive(y[j].0);
            },
            Order::Equal => {
                lemma_woven_commutes(x, i + 1, y, j + 1);
                assert(p.drop_first() =~= woven(x, i + 1, y, j + 1));
                assert(q.drop_first() =~= woven(y, j + 1, x, i + 1));
                assert(x[i].1.sum(y[j].1) == y[j].1.sum(x[i].1));
            },
        }
    }
}

/// Merging two canonical lists gives lists that tie, whichever of the two is
/// merged into the other.
pub proof fn lemma_merge_commutes(x: Seq<(Term, Dec)>, y: Seq<(Term, Dec)>)
    requires
        entries_wf(x),
        entries_wf(y),
    ensures
        entries_order(merge_entries(x, y, 0), merge_entries(y, x, 0), 0) == Order::Equal,
{
    lemma_merge_is_woven(x, y, 0);
    lemma_merge_is_woven(y, x, 0);
    lemma_woven_commutes(x, 0, y, 0);
}

} // verus!
