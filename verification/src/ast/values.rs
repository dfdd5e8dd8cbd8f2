//! The canonical symbolic form that expressions evaluate to.

use crate::decimal::int_order;
use crate::decimal::lemma_order_mirrored;
use crate::decimal::Dec;
use crate::decimal::Decimal;
use crate::decimal::Order;
use vstd::prelude::*;

verus! {

/// The mathematical content of a [`Values`].
///
/// `Sum(c, terms)` stands for `c + Σ coefficient·term` and `Product(c,
/// factors)` for `c · Π base^exponent`; both lists are kept in ascending order
/// of their keys.
pub enum Term {
    Number(Dec),
    Variable(Seq<char>),
    Sum(Dec, Seq<(Term, Dec)>),
    Product(Dec, Seq<(Term, Dec)>),
    Exponent(Box<Term>, Box<Term>),
}

/// How two texts compare: character by character, a proper prefix first.
pub open spec fn text_order(a: Seq<char>, b: Seq<char>) -> Order
    decreases a.len(),
{
    if a.len() == 0 {
        if b.len() == 0 {
            Order::Equal
        } else {
            Order::Less
        }
    } else if b.len() == 0 {
        Order::Greater
    } else if a[0] != b[0] {
        int_order(a[0] as int, b[0] as int)
    } else {
        text_order(a.drop_first(), b.drop_first())
    }
}

/// The first outcome unless it is a tie, then the second.
pub open spec fn then_order(first: Order, second: Order) -> Order {
    if first == Order::Equal {
        second
    } else {
        first
    }
}

/// The place of a variant among the variants.
pub open spec fn rank(t: Term) -> int {
    match t {
        Term::Number(_) => 0,
        Term::Variable(_) => 1,
        Term::Sum(_, _) => 2,
        Term::Product(_, _) => 3,
        Term::Exponent(_, _) => 4,
    }
}

/// The total order on terms: by variant first, then by the parts from left
/// to right; numbers by value, names as texts, lists entry by entry with a
/// proper prefix first.
pub open spec fn term_order(a: Term, b: Term) -> Order
    decreases a, 0nat,
{
    match (a, b) {
        (Term::Number(x), Term::Number(y)) => x.order(y),
        (Term::Variable(x), Term::Variable(y)) => text_order(x, y),
        (Term::Sum(cx, x), Term::Sum(cy, y)) => then_order(cx.order(cy), entries_order(x, y, 0)),
        (Term::Product(cx, x), Term::Product(cy, y)) => then_order(
            cx.order(cy),
            entries_order(x, y, 0),
        ),
        (Term::Exponent(xa, xb), Term::Exponent(ya, yb)) => then_order(
            term_order(*xa, *ya),
            term_order(*xb, *yb),
        ),
        _ => int_order(rank(a), rank(b)),
    }
}

/// How two lists compare from index `i` on.
pub open spec fn entries_order(x: Seq<(Term, Dec)>, y: Seq<(Term, Dec)>, i: nat) -> Order
    decreases x, x.len() - i,
{
    if i >= x.len() {
        if i >= y.len() {
            Order::Equal
        } else {
            Order::Less
        }
    } else if i >= y.len() {
        Order::Greater
    } else {
        then_order(
            then_order(term_order(x[i as int].0, y[i as int].0), x[i as int].1.order(y[i as int].1)),
            entries_order(x, y, i + 1),
        )
    }
}


/// The outcome seen from the other side.
pub open spec fn mirrored(o: Order) -> Order {
    match o {
        Order::Less => Order::Greater,
        Order::Equal => Order::Equal,
        Order::Greater => Order::Less,
    }
}

/// Comparing two texts the other way round gives the mirrored outcome.
pub proof fn lemma_text_order_mirrored(a: Seq<char>, b: Seq<char>)
    ensures
        text_order(b, a) == mirrored(text_order(a, b)),
    decreases a.len(),
{
    if a.len() > 0 && b.len() > 0 && a[0] == b[0] {
        lemma_text_order_mirrored(a.drop_first(), b.drop_first());
    }
}

/// Comparing two terms the other way round gives the mirrored outcome.
pub proof fn lemma_term_order_mirrored(a: Term, b: Term)
    ensures
        term_order(b, a) == mirrored(term_order(a, b)),
    decreases a, 0nat,
{
    match (a, b) {
        (Term::Number(x), Term::Number(y)) => {
            lemma_order_mirrored(x, y);
        },
        (Term::Variable(x), Term::Variable(y)) => {
            lemma_text_order_mirrored(x, y);
        },
        (Term::Sum(cx, x), Term::Sum(cy, y)) => {
            lemma_order_mirrored(cx, cy);
            lemma_entries_order_mirrored(x, y, 0);
        },
        (Term::Product(cx, x), Term::Product(cy, y)) => {
            lemma_order_mirrored(cx, cy);
            lemma_entries_order_mirrored(x, y, 0);
        },
        (Term::Exponent(xa, xb), Term::Exponent(ya, yb)) => {
            lemma_term_order_mirrored(*xa, *ya);
            lemma_term_order_mirrored(*xb, *yb);
        },
        _ => {},
    }
}

/// Comparing two lists the other way round gives the mirrored outcome.
pub proof fn lemma_entries_order_mirrored(x: Seq<(Term, Dec)>, y: Seq<(Term, Dec)>, i: nat)
    ensures
        entries_order(y, x, i) == mirrored(entries_order(x, y, i)),
    decreases x, x.len() - i,
{
    if i < x.len() && i < y.len() {
        lemma_term_order_mirrored(x[i as int].0, y[i as int].0);
        lemma_order_mirrored(x[i as int].1, y[i as int].1);
        lemma_entries_order_mirrored(x, y, i + 1);
    }
}

/// The number of nodes of a term.
pub open spec fn size(t: Term) -> nat
    decreases t, 0nat,
{
    match t {
        Term::Number(_) => 1,
        Term::Variable(_) => 1,
        Term::Sum(_, m) => 1 + entries_size(m, 0),
        Term::Product(_, m) => 1 + entries_size(m, 0),
        Term::Exponent(a, b) => 1 + size(*a) + size(*b),
    }
}

/// The number of nodes of the keys of a list from index `i` on.
pub open spec fn entries_size(m: Seq<(Term, Dec)>, i: nat) -> nat
    decreases m, m.len() - i,
{
    if i >= m.len() {
        0
    } else {
        size(m[i as int].0) + entries_size(m, i + 1)
    }
}

/// How deeply powers are nested in a term.
pub open spec fn depth(t: Term) -> nat
    decreases t, 0nat,
{
    match t {
        Term::Number(_) => 0,
        Term::Variable(_) => 0,
        Term::Sum(_, m) => entries_depth(m, 0),
        Term::Product(_, m) => entries_depth(m, 0),
        Term::Exponent(a, b) => 1 + larger(depth(*a), depth(*b)),
    }
}

/// The larger of two numbers.
pub open spec fn larger(a: nat, b: nat) -> nat {
    if a >= b {
        a
    } else {
        b
    }
}

/// How deeply powers are nested in the keys of a list from index `i` on.
pub open spec fn entries_depth(m: Seq<(Term, Dec)>, i: nat) -> nat
    decreases m, m.len() - i,
{
    if i >= m.len() {
        0
    } else {
        larger(depth(m[i as int].0), entries_depth(m, i + 1))
    }
}

/// Whether a power with this base and exponent cannot be folded any further:
/// the base is no power itself and is neither zero nor one, and the exponent
/// is no number.
pub open spec fn irreducible(base: Term, exponent: Term) -> bool {
    &&& !(base is Exponent)
    &&& !(exponent is Number)
    &&& base matches Term::Number(x) ==> !x.same_value(Dec::integer(0)) && !x.same_value(
        Dec::integer(1),
    )
}

/// Whether a term is in canonical form: every number is in range, every list
/// is strictly ascending in its keys, no key is a bare number, and every power
/// is irreducible.
pub open spec fn term_wf(t: Term) -> bool
    decreases t, 0nat,
{
    match t {
        Term::Number(d) => d.in_range(),
        Term::Variable(_) => true,
        Term::Sum(c, m) => c.in_range() && entries_wf(m),
        Term::Product(c, m) => c.in_range() && entries_wf(m),
        Term::Exponent(a, b) => term_wf(*a) && term_wf(*b) && irreducible(*a, *b),
    }
}

/// Whether an entry of a list is in canonical form: its key is, and is no
/// bare number, and its amount is in range.
pub open spec fn entry_wf(e: (Term, Dec)) -> bool
    decreases e, 0nat,
{
    &&& term_wf(e.0)
    &&& !(e.0 is Number)
    &&& e.1.in_range()
}

/// Whether the key at index `i` comes after the key before it.
pub open spec fn ascending_at(m: Seq<(Term, Dec)>, i: int) -> bool {
    term_order(m[i - 1].0, m[i].0) == Order::Less
}

/// Whether a list is in canonical form.
pub open spec fn entries_wf(m: Seq<(Term, Dec)>) -> bool
    decreases m, 1nat,
{
    &&& forall|i: int| 0 <= i < m.len() ==> entry_wf(#[trigger] m[i])
    &&& forall|i: int| 0 < i < m.len() ==> #[trigger] ascending_at(m, i)
}

/// A symbolic value in canonical form.
#[derive(Debug, PartialEq, Eq, Hash)]
pub enum Values {
    /// A single constant.
    Number(Decimal),
    /// A free symbol.
    Variable(String),
    /// A constant plus weighted terms, ascending by term.
    Sum(Decimal, Vec<(Values, Decimal)>),
    /// A constant times powers of factors, ascending by factor.
    Product(Decimal, Vec<(Values, Decimal)>),
    /// A power that cannot be folded: the base and the exponent.
    Exponent(Box<(Values, Values)>),
}

/// The mathematical content of a list of entries.
pub open spec fn entries_view(m: Seq<(Values, Decimal)>) -> Seq<(Term, Dec)>
    decreases m, 1nat,
{
    Seq::new(
        m.len(),
        |i: int|
            if 0 <= i < m.len() {
                (m[i].0.view(), m[i].1@)
            } else {
                (Term::Number(Dec::integer(0)), Dec::integer(0))
            },
    )
}

impl View for Values {
    type V = Term;

    open spec fn view(&self) -> Term
        decreases self, 0nat,
    {
        match self {
            Values::Number(d) => Term::Number(d@),
            Values::Variable(name) => Term::Variable(name@),
            Values::Sum(c, m) => Term::Sum(c@, entries_view(m@)),
            Values::Product(c, m) => Term::Product(c@, entries_view(m@)),
            Values::Exponent(b) => Term::Exponent(Box::new(b.0.view()), Box::new(b.1.view())),
        }
    }
}

/// Compares two texts character by character, a proper prefix first.
pub fn compare_text(a: &str, b: &str) -> (r: Order)
    ensures
        r == text_order(a@, b@),
{
    let x = crate::text::chars_of(a);
    let y = crate::text::chars_of(b);
    let mut i: usize = 0;
    assert(a@.subrange(0, a@.len() as int) =~= a@);
    assert(b@.subrange(0, b@.len() as int) =~= b@);
    while i < x.len() && i < y.len()
        invariant
            x@ == a@,
            y@ == b@,
            i <= x@.len(),
            i <= y@.len(),
            text_order(a@, b@) == text_order(
                a@.subrange(i as int, a@.len() as int),
                b@.subrange(i as int, b@.len() as int),
            ),
        decreases x@.len() - i,
    {
        let ghost ra = a@.subrange(i as int, a@.len() as int);
        let ghost rb = b@.subrange(i as int, b@.len() as int);
        assert(ra[0] == x@[i as int]);
        assert(rb[0] == y@[i as int]);
        if x[i] < y[i] {
            return Order::Less;
        }
        if x[i] > y[i] {
            return Order::Greater;
        }
        assert(ra.drop_first() =~= a@.subrange(i + 1, a@.len() as int));
        assert(rb.drop_first() =~= b@.subrange(i + 1, b@.len() as int));
        i = i + 1;
    }
    if i < y.len() {
        Order::Less
    } else if i < x.len() {
        Order::Greater
    } else {
        Order::Equal
    }
}

impl Clone for Values {
    fn clone(&self) -> (r: Self)
        ensures
            r@ == self@,
    {
        self.copy()
    }
}

impl Values {
    /// Whether this value is in canonical form.
    pub open spec fn wf(&self) -> bool {
        term_wf(self@)
    }

    /// A copy of this value.
    pub fn copy(&self) -> (r: Values)
        ensures
            r@ == self@,
        decreases self,
    {
        match self {
            Values::Number(d) => Values::Number(d.copy()),
            Values::Variable(name) => Values::Variable(name.clone()),
            Values::Sum(c, m) => Values::Sum(c.copy(), copy_entries(m)),
            Values::Product(c, m) => Values::Product(c.copy(), copy_entries(m)),
            Values::Exponent(b) => {
                let base = b.0.copy();
                let exponent = b.1.copy();
                Values::Exponent(Box::new((base, exponent)))
            },
        }
    }

    /// How this value compares to another in the total order on values.
    pub fn compare(&self, other: &Values) -> (r: Order)
        requires
            self.wf(),
            other.wf(),
        ensures
            r == term_order(self@, other@),
        decreases self,
    {
        match (self, other) {
            (Values::Number(x), Values::Number(y)) => x.order(y),
            (Values::Variable(x), Values::Variable(y)) => compare_text(x.as_str(), y.as_str()),
            (Values::Sum(cx, x), Values::Sum(cy, y)) => {
                match cx.order(cy) {
                    Order::Equal => compare_entries(x, y),
                    o => o,
                }
            },
            (Values::Product(cx, x), Values::Product(cy, y)) => {
                match cx.order(cy) {
                    Order::Equal => compare_entries(x, y),
                    o => o,
                }
            },
            (Values::Exponent(x), Values::Exponent(y)) => {
                match x.0.compare(&y.0) {
                    Order::Equal => x.1.compare(&y.1),
                    o => o,
                }
            },
            _ => {
                let a = self.variant_rank();
                let b = other.variant_rank();
                if a < b {
                    Order::Less
                } else if a == b {
                    Order::Equal
                } else {
                    Order::Greater
                }
            },
        }
    }

    /// Whether this value equals another in the total order on values.
    pub fn equals(&self, other: &Values) -> (r: bool)
        requires
            self.wf(),
            other.wf(),
        ensures
            r == (term_order(self@, other@) == Order::Equal),
    {
        match self.compare(other) {
            Order::Equal => true,
            _ => false,
        }
    }

    fn variant_rank(&self) -> (r: u8)
        ensures
            r as int == rank(self@),
    {
        match self {
            Values::Number(_) => 0,
            Values::Variable(_) => 1,
            Values::Sum(_, _) => 2,
            Values::Product(_, _) => 3,
            Values::Exponent(_) => 4,
        }
    }
}

/// A copy of a list of entries.
pub fn copy_entries(m: &Vec<(Values, Decimal)>) -> (r: Vec<(Values, Decimal)>)
    ensures
        entries_view(r@) == entries_view(m@),
        r@.len() == m@.len(),
    decreases m,
{
    let mut r: Vec<(Values, Decimal)> = Vec::new();
    let mut i: usize = 0;
    while i < m.len()
        invariant
            i <= m@.len(),
            r@.len() == i,
            forall|j: int| 0 <= j < i ==> r@[j].0@ == m@[j].0@ && r@[j].1@ == m@[j].1@,
        decreases m@.len() - i,
    {
        proof {
            assert(decreases_to!(m => m@[i as int]));
        }
        let key = m[i].0.copy();
        let amount = m[i].1.copy();
        r.push((key, amount));
        i = i + 1;
    }
    assert(entries_view(r@) =~= entries_view(m@));
    r
}

/// Compares two canonical lists entry by entry, a proper prefix first.
pub fn compare_entries(x: &Vec<(Values, Decimal)>, y: &Vec<(Values, Decimal)>) -> (r: Order)
    requires
        entries_wf(entries_view(x@)),
        entries_wf(entries_view(y@)),
    ensures
        r == entries_order(entries_view(x@), entries_view(y@), 0),
    decreases x,
{
    let ghost mx = entries_view(x@);
    let ghost my = entries_view(y@);
    let mut i: usize = 0;
    while i < x.len() && i < y.len()
        invariant
            mx == entries_view(x@),
            my == entries_view(y@),
            entries_wf(mx),
            entries_wf(my),
            i <= x@.len(),
            i <= y@.len(),
            entries_order(mx, my, 0) == entries_order(mx, my, i as nat),
        decreases x@.len() - i,
    {
        proof {
            assert(decreases_to!(x => x@[i as int]));
            assert(mx[i as int] == (x@[i as int].0@, x@[i as int].1@));
            assert(my[i as int] == (y@[i as int].0@, y@[i as int].1@));
            assert(entry_wf(mx[i as int]));
            assert(entry_wf(my[i as int]));
        }
        match x[i].0.compare(&y[i].0) {
            Order::Equal => {},
            o => {
                return o;
            },
        }
        match x[i].1.order(&y[i].1) {
            Order::Equal => {},
            o => {
                return o;
            },
        }
        i = i + 1;
    }
    if i < y.len() {
        Order::Less
    } else if i < x.len() {
        Order::Greater
    } else {
        Order::Equal
    }
}


/// The index at which `key` belongs in `m`: the first one, from `i` on, whose
/// key does not come before `key`.
pub open spec fn slot(m: Seq<(Term, Dec)>, key: Term, i: nat) -> nat
    decreases m.len() - i,
{
    if i >= m.len() || term_order(m[i as int].0, key) != Order::Less {
        i
    } else {
        slot(m, key, i + 1)
    }
}

/// The list after `amount` of `key` was put in: added to the amount of an
/// equal key where there is one, else as a new entry at the place that keeps
/// the list ascending.
pub open spec fn insert_entry(m: Seq<(Term, Dec)>, key: Term, amount: Dec) -> Seq<(Term, Dec)> {
    let p = slot(m, key, 0) as int;
    if p < m.len() && term_order(m[p].0, key) == Order::Equal {
        m.update(p, (m[p].0, m[p].1.sum(amount)))
    } else {
        m.insert(p, (key, amount))
    }
}

/// The list after every entry of `y`, from index `i` on, was put into `x`.
pub open spec fn merge_entries(x: Seq<(Term, Dec)>, y: Seq<(Term, Dec)>, i: nat) -> Seq<
    (Term, Dec),
>
    decreases y.len() - i,
{
    if i >= y.len() {
        x
    } else {
        merge_entries(insert_entry(x, y[i as int].0, y[i as int].1), y, i + 1)
    }
}

/// Where `slot` lands: within the list, after every key that comes before
/// `key`, and at a key that does not.
pub proof fn lemma_slot(m: Seq<(Term, Dec)>, key: Term, i: nat)
    requires
        i <= m.len(),
    ensures
        i <= slot(m, key, i) <= m.len(),
        forall|j: int| i <= j < slot(m, key, i) ==> term_order(#[trigger] m[j].0, key) == Order::Less,
        slot(m, key, i) < m.len() ==> term_order(m[slot(m, key, i) as int].0, key) != Order::Less,
    decreases m.len() - i,
{
    if i < m.len() && term_order(m[i as int].0, key) == Order::Less {
        lemma_slot(m, key, i + 1);
    }
}

/// Putting an entry into a canonical list leaves it canonical.
pub proof fn lemma_insert_entry_wf(m: Seq<(Term, Dec)>, key: Term, amount: Dec)
    requires
        entries_wf(m),
        entry_wf((key, amount)),
    ensures
        entries_wf(insert_entry(m, key, amount)),
{
    let p = slot(m, key, 0) as int;
    let r = insert_entry(m, key, amount);
    lemma_slot(m, key, 0);
    if p < m.len() && term_order(m[p].0, key) == Order::Equal {
        assert(entry_wf(m[p]));
        assert forall|i: int| 0 <= i < r.len() implies entry_wf(#[trigger] r[i]) by {
            assert(entry_wf(m[i]));
        }
        assert forall|i: int| 0 < i < r.len() implies #[trigger] ascending_at(r, i) by {
            assert(ascending_at(m, i));
        }
    } else {
        assert forall|i: int| 0 <= i < r.len() implies entry_wf(#[trigger] r[i]) by {
            if i < p {
                assert(entry_wf(m[i]));
            } else if i > p {
                assert(entry_wf(m[i - 1]));
            }
        }
        assert forall|i: int| 0 < i < r.len() implies #[trigger] ascending_at(r, i) by {
            if i < p {
                assert(ascending_at(m, i));
            } else if i == p {
                assert(term_order(m[p - 1].0, key) == Order::Less);
            } else if i == p + 1 {
                lemma_term_order_mirrored(m[p].0, key);
            } else {
                assert(ascending_at(m, i - 1));
            }
        }
    }
}

/// Merging a canonical list into a canonical list leaves it canonical.
pub proof fn lemma_merge_entries_wf(x: Seq<(Term, Dec)>, y: Seq<(Term, Dec)>, i: nat)
    requires
        entries_wf(x),
        entries_wf(y),
    ensures
        entries_wf(merge_entries(x, y, i)),
    decreases y.len() - i,
{
    if i < y.len() {
        assert(entry_wf(y[i as int]));
        lemma_insert_entry_wf(x, y[i as int].0, y[i as int].1);
        lemma_merge_entries_wf(insert_entry(x, y[i as int].0, y[i as int].1), y, i + 1);
    }
}

/// Puts `amount` of `key` into a canonical list.
pub fn insert_entry_into(m: &mut Vec<(Values, Decimal)>, key: Values, amount: Decimal)
    requires
        entries_wf(entries_view(old(m)@)),
        entry_wf((key@, amount@)),
    ensures
        entries_view(final(m)@) == insert_entry(entries_view(old(m)@), key@, amount@),
        entries_wf(entries_view(final(m)@)),
{
    let ghost before = entries_view(m@);
    let mut p: usize = 0;
    let mut found = false;
    proof {
        lemma_slot(before, key@, 0);
        lemma_insert_entry_wf(before, key@, amount@);
    }
    while p < m.len()
        invariant_except_break
            !found,
            slot(before, key@, 0) == slot(before, key@, p as nat),
        invariant
            m@ == old(m)@,
            before == entries_view(m@),
            entries_wf(before),
            term_wf(key@),
            p <= m@.len(),
        ensures
            p <= m@.len(),
            p == slot(before, key@, 0),
            found == (p < m@.len() && term_order(before[p as int].0, key@) == Order::Equal),
        decreases m@.len() - p,
    {
        assert(before[p as int] == (m@[p as int].0@, m@[p as int].1@));
        assert(entry_wf(before[p as int]));
        match m[p].0.compare(&key) {
            Order::Less => {
                p = p + 1;
            },
            Order::Equal => {
                found = true;
                break ;
            },
            Order::Greater => {
                break ;
            },
        }
    }
    if found {
        assert(before[p as int] == (m@[p as int].0@, m@[p as int].1@));
        assert(entry_wf(before[p as int]));
        let (k, a) = m.remove(p);
        let sum = a.add(&amount);
        m.insert(p, (k, sum));
        assert(entries_view(m@) =~= insert_entry(before, key@, amount@));
    } else {
        m.insert(p, (key, amount));
        assert(entries_view(m@) =~= insert_entry(before, key@, amount@));
    }
}

/// Puts a copy of every entry of `y` into the canonical list `x`.
pub fn merge_entries_into(x: &mut Vec<(Values, Decimal)>, y: &Vec<(Values, Decimal)>)
    requires
        entries_wf(entries_view(old(x)@)),
        entries_wf(entries_view(y@)),
    ensures
        entries_view(final(x)@) == merge_entries(entries_view(old(x)@), entries_view(y@), 0),
        entries_wf(entries_view(final(x)@)),
{
    let ghost my = entries_view(y@);
    let mut i: usize = 0;
    while i < y.len()
        invariant
            i <= y@.len(),
            my == entries_view(y@),
            entries_wf(my),
            entries_wf(entries_view(x@)),
            merge_entries(entries_view(old(x)@), my, 0) == merge_entries(entries_view(x@), my, i as nat),
        decreases y@.len() - i,
    {
        assert(my[i as int] == (y@[i as int].0@, y@[i as int].1@));
        assert(entry_wf(my[i as int]));
        let key = y[i].0.copy();
        let amount = y[i].1.copy();
        insert_entry_into(x, key, amount);
        i = i + 1;
    }
}


/// Whether a term is a bare number that stands for zero.
pub open spec fn is_zero_number(t: Term) -> bool {
    t matches Term::Number(x) && x.same_value(Dec::integer(0))
}

/// Whether a term is a bare number that stands for one.
pub open spec fn is_one_number(t: Term) -> bool {
    t matches Term::Number(x) && x.same_value(Dec::integer(1))
}

/// The term that a product of `factors` with constant one is entered under in
/// a sum: a single factor to the power of one is entered as that factor, so
/// that like terms meet.
pub open spec fn weighted_key(factors: Seq<(Term, Dec)>) -> Term {
    if factors.len() == 1 && factors[0].1.same_value(Dec::integer(1)) {
        factors[0].0
    } else {
        Term::Product(Dec::integer(1), factors)
    }
}

/// The sum `constant + Σ terms` after `weight · Π factors` was added to it. A
/// single factor to the power of zero is the number one, which goes to the
/// constant.
pub open spec fn add_weighted_spec(
    constant: Dec,
    terms: Seq<(Term, Dec)>,
    factors: Seq<(Term, Dec)>,
    weight: Dec,
) -> Term {
    if factors.len() == 1 && factors[0].1.same_value(Dec::integer(0)) {
        Term::Sum(constant.sum(weight), terms)
    } else {
        Term::Sum(constant, insert_entry(terms, weighted_key(factors), weight))
    }
}

/// The canonical sum of two canonical terms.
///
/// A zero number is neutral. Numbers fold into one number or into the
/// constant of a sum; a sum takes the other operand into its terms, adding the
/// weights of like terms; two sums merge; a product enters a sum under the
/// term it weighs; anything else becomes a new sum, of the one doubled where
/// the two are equal.
#[verifier::opaque]
pub open spec fn add_spec(a: Term, b: Term) -> Term {
    let zero = Dec::integer(0);
    let one = Dec::integer(1);
    if is_zero_number(a) {
        b
    } else if is_zero_number(b) {
        a
    } else {
        match (a, b) {
            (Term::Number(x), Term::Number(y)) => Term::Number(x.sum(y)),
            (Term::Sum(cx, x), Term::Number(y)) => Term::Sum(cx.sum(y), x),
            (Term::Number(y), Term::Sum(cx, x)) => Term::Sum(cx.sum(y), x),
            (Term::Sum(cx, x), Term::Sum(cy, y)) => Term::Sum(cx.sum(cy), merge_entries(x, y, 0)),
            (Term::Sum(cx, x), Term::Product(cy, y)) => add_weighted_spec(cx, x, y, cy),
            (Term::Product(cy, y), Term::Sum(cx, x)) => add_weighted_spec(cx, x, y, cy),
            (Term::Sum(cx, x), other) => Term::Sum(cx, insert_entry(x, other, one)),
            (other, Term::Sum(cx, x)) => Term::Sum(cx, insert_entry(x, other, one)),
            (Term::Product(cx, x), Term::Product(cy, y)) => {
                if entries_order(x, y, 0) == Order::Equal {
                    Term::Sum(zero, seq![(Term::Product(one, x), cx.sum(cy))])
                } else {
                    Term::Sum(
                        zero,
                        insert_entry(seq![(Term::Product(one, x), cx)], Term::Product(one, y), cy),
                    )
                }
            },
            (Term::Product(cx, x), Term::Number(n)) => add_weighted_spec(n, Seq::empty(), x, cx),
            (Term::Number(n), Term::Product(cx, x)) => add_weighted_spec(n, Seq::empty(), x, cx),
            (Term::Product(cx, x), other) => add_weighted_spec(zero, seq![(other, one)], x, cx),
            (other, Term::Product(cx, x)) => add_weighted_spec(zero, seq![(other, one)], x, cx),
            (Term::Number(n), other) => Term::Sum(n, seq![(other, one)]),
            (other, Term::Number(n)) => Term::Sum(n, seq![(other, one)]),
            (left, right) => {
                if term_order(left, right) == Order::Equal {
                    Term::Sum(zero, seq![(left, Dec::integer(2))])
                } else {
                    Term::Sum(zero, insert_entry(seq![(left, one)], right, one))
                }
            },
        }
    }
}

/// A list of one canonical entry is canonical.
pub proof fn lemma_single_entry_wf(key: Term, amount: Dec)
    requires
        entry_wf((key, amount)),
    ensures
        entries_wf(seq![(key, amount)]),
{
    let m = seq![(key, amount)];
    assert forall|i: int| 0 <= i < m.len() implies entry_wf(#[trigger] m[i]) by {}
}

/// The key that a product is entered under in a sum is canonical.
pub proof fn lemma_weighted_key_wf(factors: Seq<(Term, Dec)>, weight: Dec)
    requires
        entries_wf(factors),
        weight.in_range(),
    ensures
        entry_wf((weighted_key(factors), weight)),
{
    if factors.len() == 1 {
        assert(entry_wf(factors[0]));
    }
}

/// Adding a weighted product to a canonical sum gives a canonical sum.
pub proof fn lemma_add_weighted_wf(
    constant: Dec,
    terms: Seq<(Term, Dec)>,
    factors: Seq<(Term, Dec)>,
    weight: Dec,
)
    requires
        constant.in_range(),
        entries_wf(terms),
        entries_wf(factors),
        weight.in_range(),
    ensures
        term_wf(add_weighted_spec(constant, terms, factors, weight)),
{
    lemma_weighted_key_wf(factors, weight);
    lemma_insert_entry_wf(terms, weighted_key(factors), weight);
}

/// The sum of two canonical terms is canonical.
pub proof fn lemma_add_wf(a: Term, b: Term)
    requires
        term_wf(a),
        term_wf(b),
    ensures
        term_wf(add_spec(a, b)),
{
    reveal(add_spec);
    let zero = Dec::integer(0);
    let one = Dec::integer(1);
    if is_zero_number(a) || is_zero_number(b) {
    } else {
        match (a, b) {
            (Term::Number(x), Term::Number(y)) => {},
            (Term::Sum(cx, x), Term::Number(y)) => {},
            (Term::Number(y), Term::Sum(cx, x)) => {},
            (Term::Sum(cx, x), Term::Sum(cy, y)) => {
                lemma_merge_entries_wf(x, y, 0);
            },
            (Term::Sum(cx, x), Term::Product(cy, y)) => {
                lemma_add_weighted_wf(cx, x, y, cy);
            },
            (Term::Product(cy, y), Term::Sum(cx, x)) => {
                lemma_add_weighted_wf(cx, x, y, cy);
            },
            (Term::Sum(cx, x), other) => {
                lemma_insert_entry_wf(x, other, one);
            },
            (other, Term::Sum(cx, x)) => {
                lemma_insert_entry_wf(x, other, one);
            },
            (Term::Product(cx, x), Term::Product(cy, y)) => {
                lemma_single_entry_wf(Term::Product(one, x), cx.sum(cy));
                lemma_single_entry_wf(Term::Product(one, x), cx);
                lemma_insert_entry_wf(seq![(Term::Product(one, x), cx)], Term::Product(one, y), cy);
            },
            (Term::Product(cx, x), Term::Number(n)) => {
                assert(entries_wf(Seq::<(Term, Dec)>::empty()));
                lemma_add_weighted_wf(n, Seq::empty(), x, cx);
            },
            (Term::Number(n), Term::Product(cx, x)) => {
                assert(entries_wf(Seq::<(Term, Dec)>::empty()));
                lemma_add_weighted_wf(n, Seq::empty(), x, cx);
            },
            (Term::Product(cx, x), other) => {
                lemma_single_entry_wf(other, one);
                lemma_add_weighted_wf(zero, seq![(other, one)], x, cx);
            },
            (other, Term::Product(cx, x)) => {
                lemma_single_entry_wf(other, one);
                lemma_add_weighted_wf(zero, seq![(other, one)], x, cx);
            },
            (Term::Number(n), other) => {
                lemma_single_entry_wf(other, one);
            },
            (other, Term::Number(n)) => {
                lemma_single_entry_wf(other, one);
            },
            (left, right) => {
                lemma_single_entry_wf(left, Dec::integer(2));
                lemma_single_entry_wf(left, one);
                lemma_insert_entry_wf(seq![(left, one)], right, one);
            },
        }
    }
}


/// A list of the one entry given.
pub fn single_entry(key: Values, amount: Decimal) -> (r: Vec<(Values, Decimal)>)
    ensures
        entries_view(r@) == seq![(key@, amount@)],
{
    let mut r: Vec<(Values, Decimal)> = Vec::new();
    r.push((key, amount));
    assert(entries_view(r@) =~= seq![(key@, amount@)]);
    r
}

/// Adds `weight · Π factors` to the sum `constant + Σ terms`.
pub fn add_weighted(
    constant: Decimal,
    terms: Vec<(Values, Decimal)>,
    factors: Vec<(Values, Decimal)>,
    weight: Decimal,
) -> (r: Values)
    requires
        constant.wf(),
        entries_wf(entries_view(terms@)),
        entries_wf(entries_view(factors@)),
        weight.wf(),
    ensures
        r@ == add_weighted_spec(constant@, entries_view(terms@), entries_view(factors@), weight@),
        r.wf(),
{
    let ghost mf = entries_view(factors@);
    proof {
        lemma_add_weighted_wf(constant@, entries_view(terms@), mf, weight@);
        lemma_weighted_key_wf(mf, weight@);
    }
    let mut terms = terms;
    let mut factors = factors;
    if factors.len() == 1 {
        assert(mf[0] == (factors@[0].0@, factors@[0].1@));
        assert(entry_wf(mf[0]));
        if factors[0].1.is_zero() {
            return Values::Sum(constant.add(&weight), terms);
        }
        if factors[0].1.is_small(1) {
            let (key, _) = factors.remove(0);
            insert_entry_into(&mut terms, key, weight);
            return Values::Sum(constant, terms);
        }
    }
    let key = Values::Product(Decimal::one(), factors);
    insert_entry_into(&mut terms, key, weight);
    Values::Sum(constant, terms)
}

impl Values {
    /// Whether this value is a bare number that stands for zero.
    pub fn is_zero_number(&self) -> (r: bool)
        requires
            self.wf(),
        ensures
            r == is_zero_number(self@),
    {
        match self {
            Values::Number(x) => x.is_zero(),
            _ => false,
        }
    }

    /// Whether this value is a bare number that stands for one.
    pub fn is_one_number(&self) -> (r: bool)
        requires
            self.wf(),
        ensures
            r == is_one_number(self@),
    {
        match self {
            Values::Number(x) => x.is_small(1),
            _ => false,
        }
    }

    /// The canonical sum of two values.
    ///
    /// Numbers fold into one number or into the constant of a sum; a sum
    /// takes the other operand into its terms, adding the weights of like
    /// terms; two sums merge; anything else becomes a new sum.
    pub fn add(self, other: Values) -> (r: Values)
        requires
            self.wf(),
            other.wf(),
        ensures
            r@ == add_spec(self@, other@),
            r.wf(),
    {
        proof {
            reveal(add_spec);
            lemma_add_wf(self@, other@);
        }
        if self.is_zero_number() {
            return other;
        }
        if other.is_zero_number() {
            return self;
        }
        match (self, other) {
            (Values::Number(x), Values::Number(y)) => Values::Number(x.add(&y)),
            (Values::Sum(cx, x), Values::Number(y)) => Values::Sum(cx.add(&y), x),
            (Values::Number(y), Values::Sum(cx, x)) => Values::Sum(cx.add(&y), x),
            (Values::Sum(cx, x), Values::Sum(cy, y)) => {
                let mut x = x;
                merge_entries_into(&mut x, &y);
                Values::Sum(cx.add(&cy), x)
            },
            (Values::Sum(cx, x), Values::Product(cy, y)) => add_weighted(cx, x, y, cy),
            (Values::Product(cy, y), Values::Sum(cx, x)) => add_weighted(cx, x, y, cy),
            (Values::Sum(cx, x), other) => {
                let mut x = x;
                insert_entry_into(&mut x, other, Decimal::one());
                Values::Sum(cx, x)
            },
            (other, Values::Sum(cx, x)) => {
                let mut x = x;
                insert_entry_into(&mut x, other, Decimal::one());
                Values::Sum(cx, x)
            },
            (Values::Product(cx, x), Values::Product(cy, y)) => {
                let same = match compare_entries(&x, &y) {
                    Order::Equal => true,
                    _ => false,
                };
                if same {
                    let key = Values::Product(Decimal::one(), x);
                    Values::Sum(Decimal::zero(), single_entry(key, cx.add(&cy)))
                } else {
                    let first = Values::Product(Decimal::one(), x);
                    let second = Values::Product(Decimal::one(), y);
                    proof {
                        lemma_single_entry_wf(first@, cx@);
                    }
                    let mut m = single_entry(first, cx);
                    insert_entry_into(&mut m, second, cy);
                    Values::Sum(Decimal::zero(), m)
                }
            },
            (Values::Product(cx, x), Values::Number(n)) => {
                let terms: Vec<(Values, Decimal)> = Vec::new();
                assert(entries_view(terms@) =~= Seq::<(Term, Dec)>::empty());
                add_weighted(n, terms, x, cx)
            },
            (Values::Number(n), Values::Product(cx, x)) => {
                let terms: Vec<(Values, Decimal)> = Vec::new();
                assert(entries_view(terms@) =~= Seq::<(Term, Dec)>::empty());
                add_weighted(n, terms, x, cx)
            },
            (Values::Product(cx, x), other) => {
                proof {
                    lemma_single_entry_wf(other@, Dec::integer(1));
                }
                let terms = single_entry(other, Decimal::one());
                add_weighted(Decimal::zero(), terms, x, cx)
            },
            (other, Values::Product(cx, x)) => {
                proof {
                    lemma_single_entry_wf(other@, Dec::integer(1));
                }
                let terms = single_entry(other, Decimal::one());
                add_weighted(Decimal::zero(), terms, x, cx)
            },
            (Values::Number(n), other) => Values::Sum(n, single_entry(other, Decimal::one())),
            (other, Values::Number(n)) => Values::Sum(n, single_entry(other, Decimal::one())),
            (left, right) => {
                if left.equals(&right) {
                    Values::Sum(Decimal::zero(), single_entry(left, Decimal::from_i8(2)))
                } else {
                    proof {
                        lemma_single_entry_wf(left@, Dec::integer(1));
                    }
                    let mut m = single_entry(left, Decimal::one());
                    insert_entry_into(&mut m, right, Decimal::one());
                    Values::Sum(Decimal::zero(), m)
                }
            },
        }
    }
}

} // verus!
