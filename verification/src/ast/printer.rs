//! Rendering of canonical values as text.

use crate::ast::values::entries_view;
use crate::ast::values::entries_wf;
use crate::ast::values::entry_wf;
use crate::ast::values::is_zero_number;
use crate::ast::values::Term;
use crate::ast::values::Values;
use crate::decimal::decimal_text;
use crate::decimal::Dec;
use crate::text::chars_of;
use crate::text::push_char;
use vstd::prelude::*;

verus! {

/// The superscript form of a digit or of the minus sign; any other character
/// is left as it is.
pub open spec fn superscript(c: char) -> char {
    if c == '0' {
        '\u{2070}'
    } else if c == '1' {
        '\u{b9}'
    } else if c == '2' {
        '\u{b2}'
    } else if c == '3' {
        '\u{b3}'
    } else if c == '4' {
        '\u{2074}'
    } else if c == '5' {
        '\u{2075}'
    } else if c == '6' {
        '\u{2076}'
    } else if c == '7' {
        '\u{2077}'
    } else if c == '8' {
        '\u{2078}'
    } else if c == '9' {
        '\u{2079}'
    } else if c == '-' {
        '\u{207b}'
    } else {
        c
    }
}

/// A text with every character in superscript form.
pub open spec fn superscripts(s: Seq<char>) -> Seq<char> {
    Seq::new(s.len(), |i: int| superscript(s[i]))
}

/// The text of a canonical term.
///
/// A sum shows its constant unless zero, then its terms; a product shows
/// its constant unless one, then its factors with their exponents in
/// superscript; a power shows base and exponent in brackets.
pub open spec fn render(t: Term) -> Seq<char>
    decreases t, 0nat,
{
    match t {
        Term::Number(d) => decimal_text(d),
        Term::Variable(name) => name,
        Term::Sum(c, m) => join_sum(sum_parts(c, m)),
        Term::Product(c, m) => if c.same_value(Dec::integer(0)) {
            seq!['0']
        } else {
            join_product(product_parts(c, m), 0)
        },
        Term::Exponent(a, b) => seq!['('] + render(*a) + seq![')', ' ', '^', ' ', '('] + render(*b)
            + seq![')'],
    }
}

/// The pieces of a sum: the constant unless zero, then one piece per term.
pub open spec fn sum_parts(c: Dec, m: Seq<(Term, Dec)>) -> Seq<Seq<char>>
    decreases m, 2nat,
{
    if c.same_value(Dec::integer(0)) {
        sum_entry_parts(m, 0)
    } else {
        seq![decimal_text(c)] + sum_entry_parts(m, 0)
    }
}

/// The pieces of the terms of a sum from index `i` on. A term of weight zero
/// has none; weight one shows the term alone; weight minus one shows it
/// behind a minus sign and a blank; any other weight stands before the term.
pub open spec fn sum_entry_parts(m: Seq<(Term, Dec)>, i: nat) -> Seq<Seq<char>>
    decreases m, 1nat, m.len() - i,
{
    if i >= m.len() {
        Seq::empty()
    } else {
        sum_entry_part(m, i as int) + sum_entry_parts(m, i + 1)
    }
}

/// The piece of the term at index `i` of a sum, if it has one.
pub open spec fn sum_entry_part(m: Seq<(Term, Dec)>, i: int) -> Seq<Seq<char>>
    recommends
        0 <= i < m.len(),
    decreases m, 0nat, 0nat,
    when 0 <= i < m.len()
{
    let k = m[i].0;
    let v = m[i].1;
    if v.same_value(Dec::integer(0)) || is_zero_number(k) {
        Seq::empty()
    } else if v.same_value(Dec::integer(1)) {
        seq![render(k)]
    } else if v.same_value(Dec::integer(-1)) {
        seq![seq!['-', ' '] + render(k)]
    } else {
        seq![decimal_text(v) + seq![' '] + render(k)]
    }
}

/// A piece of a sum as it follows another: behind a blank where it starts
/// with a minus sign, else behind a plus sign between blanks.
pub open spec fn glued(part: Seq<char>) -> Seq<char> {
    if part.len() > 0 && part[0] == '-' {
        seq![' '] + part
    } else {
        seq![' ', '+', ' '] + part
    }
}

/// The pieces from index `i` on, each glued to what comes before.
pub open spec fn glue_from(parts: Seq<Seq<char>>, i: nat) -> Seq<char>
    decreases parts.len() - i,
{
    if i >= parts.len() {
        Seq::empty()
    } else {
        glued(parts[i as int]) + glue_from(parts, i + 1)
    }
}

/// The text of a sum with the given pieces; without pieces it is `0`.
pub open spec fn join_sum(parts: Seq<Seq<char>>) -> Seq<char> {
    if parts.len() == 0 {
        seq!['0']
    } else {
        parts[0] + glue_from(parts, 1)
    }
}

/// The pieces of a product: the constant unless one, then one piece per
/// factor.
pub open spec fn product_parts(c: Dec, m: Seq<(Term, Dec)>) -> Seq<Seq<char>>
    decreases m, 2nat,
{
    if c.same_value(Dec::integer(1)) {
        product_entry_parts(m, 0)
    } else {
        seq![decimal_text(c)] + product_entry_parts(m, 0)
    }
}

/// The pieces of the factors of a product from index `i` on. A factor to the
/// power of zero has none; to the power of one it shows alone; else its
/// exponent follows it in superscript.
pub open spec fn product_entry_parts(m: Seq<(Term, Dec)>, i: nat) -> Seq<Seq<char>>
    decreases m, 1nat, m.len() - i,
{
    if i >= m.len() {
        Seq::empty()
    } else {
        product_entry_part(m, i as int) + product_entry_parts(m, i + 1)
    }
}

/// The piece of the factor at index `i` of a product, if it has one.
pub open spec fn product_entry_part(m: Seq<(Term, Dec)>, i: int) -> Seq<Seq<char>>
    recommends
        0 <= i < m.len(),
    decreases m, 0nat, 0nat,
    when 0 <= i < m.len()
{
    let k = m[i].0;
    let v = m[i].1;
    if v.same_value(Dec::integer(0)) {
        Seq::empty()
    } else if v.same_value(Dec::integer(1)) {
        seq![render(k)]
    } else {
        seq![render(k) + superscripts(decimal_text(v))]
    }
}

/// The pieces from index `i` on, with one space between neighbours.
pub open spec fn join_product(parts: Seq<Seq<char>>, i: nat) -> Seq<char>
    decreases parts.len() - i,
{
    if i >= parts.len() {
        Seq::empty()
    } else if i + 1 == parts.len() {
        parts[i as int]
    } else {
        parts[i as int] + seq![' '] + join_product(parts, i + 1)
    }
}


/// The texts that a list of strings holds.
pub open spec fn texts(v: Seq<String>) -> Seq<Seq<char>> {
    Seq::new(v.len(), |i: int| v[i]@)
}

/// The superscript form of a character.
pub fn superscript_of(c: char) -> (r: char)
    ensures
        r == superscript(c),
{
    if c == '0' {
        '\u{2070}'
    } else if c == '1' {
        '\u{b9}'
    } else if c == '2' {
        '\u{b2}'
    } else if c == '3' {
        '\u{b3}'
    } else if c == '4' {
        '\u{2074}'
    } else if c == '5' {
        '\u{2075}'
    } else if c == '6' {
        '\u{2076}'
    } else if c == '7' {
        '\u{2077}'
    } else if c == '8' {
        '\u{2078}'
    } else if c == '9' {
        '\u{2079}'
    } else if c == '-' {
        '\u{207b}'
    } else {
        c
    }
}

/// A text with every character in superscript form.
pub fn superscripts_of(s: &str) -> (r: String)
    ensures
        r@ == superscripts(s@),
{
    let chars = chars_of(s);
    let mut r = String::new();
    let mut i: usize = 0;
    while i < chars.len()
        invariant
            i <= chars@.len(),
            chars@ == s@,
            r@ == superscripts(s@.subrange(0, i as int)),
        decreases chars@.len() - i,
    {
        push_char(&mut r, superscript_of(chars[i]));
        i = i + 1;
        assert(r@ =~= superscripts(s@.subrange(0, i as int)));
    }
    assert(s@.subrange(0, s@.len() as int) =~= s@);
    r
}

/// Joins the pieces of a sum.
pub fn join_sum_parts(parts: &Vec<String>) -> (r: String)
    ensures
        r@ == join_sum(texts(parts@)),
{
    let ghost all = texts(parts@);
    if parts.len() == 0 {
        let mut r = String::new();
        push_char(&mut r, '0');
        assert(r@ =~= seq!['0']);
        return r;
    }
    let mut r = parts[0].clone();
    let mut i: usize = 1;
    assert(all[0] == parts@[0]@);
    while i < parts.len()
        invariant
            1 <= i <= parts@.len(),
            all == texts(parts@),
            r@ + glue_from(all, i as nat) == join_sum(all),
        decreases parts@.len() - i,
    {
        let part = parts[i].as_str();
        assert(all[i as int] == part@);
        let ghost before = r@;
        let negative = part.unicode_len() > 0 && part.get_char(0) == '-';
        if negative {
            r.append(" ");
            proof {
                reveal_strlit(" ");
                assert(" "@ =~= seq![' ']);
            }
        } else {
            r.append(" + ");
            proof {
                reveal_strlit(" + ");
                assert(" + "@ =~= seq![' ', '+', ' ']);
            }
        }
        r.append(part);
        assert(r@ =~= before + glued(part@));
        assert(r@ + glue_from(all, i as nat + 1) =~= before + glue_from(all, i as nat));
        i = i + 1;
    }
    assert(r@ + glue_from(all, i as nat) =~= r@);
    r
}

/// Joins the pieces of a product with one space between neighbours.
pub fn join_product_parts(parts: &Vec<String>) -> (r: String)
    ensures
        r@ == join_product(texts(parts@), 0),
{
    let ghost all = texts(parts@);
    let mut r = String::new();
    let mut i: usize = 0;
    while i < parts.len()
        invariant
            i <= parts@.len(),
            all == texts(parts@),
            r@ + join_product(all, i as nat) == join_product(all, 0),
        decreases parts@.len() - i,
    {
        let part = parts[i].as_str();
        assert(all[i as int] == part@);
        let ghost before = r@;
        r.append(part);
        if i + 1 < parts.len() {
            r.append(" ");
            proof {
                reveal_strlit(" ");
                assert(" "@ =~= seq![' ']);
            }
            assert(r@ =~= before + (part@ + seq![' ']));
            assert(r@ + join_product(all, i as nat + 1) =~= before + join_product(all, i as nat));
        } else {
            assert(join_product(all, i as nat + 1) =~= Seq::<char>::empty());
            assert(r@ + join_product(all, i as nat + 1) =~= before + join_product(all, i as nat));
        }
        i = i + 1;
    }
    assert(r@ + join_product(all, i as nat) =~= r@);
    r
}

impl Values {
    /// The text of this value.
    pub fn to_string(&self) -> (r: String)
        requires
            self.wf(),
        ensures
            r@ == render(self@),
        decreases self,
    {
        match self {
            Values::Number(d) => d.to_text(),
            Values::Variable(name) => name.clone(),
            Values::Sum(c, m) => {
                let ghost mm = entries_view(m@);
                let mut parts: Vec<String> = Vec::new();
                if !c.is_zero() {
                    parts.push(c.to_text());
                }
                assert(texts(parts@) + sum_entry_parts(mm, 0) =~= sum_parts(c@, mm));
                let mut i: usize = 0;
                while i < m.len()
                    invariant
                        i <= m@.len(),
                        mm == entries_view(m@),
                        entries_wf(mm),
                        *self matches Values::Sum(cc, pp) && pp == m,
                        texts(parts@) + sum_entry_parts(mm, i as nat) == sum_parts(c@, mm),
                    decreases m@.len() - i,
                {
                    proof {
                        assert(decreases_to!(self => m));
                        assert(decreases_to!(m => m@[i as int]));
                        assert(mm[i as int] == (m@[i as int].0@, m@[i as int].1@));
                        assert(entry_wf(mm[i as int]));
                    }
                    let ghost before = texts(parts@);
                    let key = &m[i].0;
                    let weight = &m[i].1;
                    if weight.is_zero() || key.is_zero_number() {
                    } else if weight.is_small(1) {
                        parts.push(key.to_string());
                    } else if weight.is_small(-1) {
                        let mut part = String::from_str("- ");
                        proof {
                            reveal_strlit("- ");
                            assert("- "@ =~= seq!['-', ' ']);
                        }
                        part.append(key.to_string().as_str());
                        parts.push(part);
                    } else {
                        let mut part = weight.to_text();
                        part.append(" ");
                        proof {
                            reveal_strlit(" ");
                            assert(" "@ =~= seq![' ']);
                        }
                        part.append(key.to_string().as_str());
                        parts.push(part);
                    }
                    assert(texts(parts@) =~= before + sum_entry_part(mm, i as int));
                    assert(texts(parts@) + sum_entry_parts(mm, i as nat + 1) =~= before
                        + sum_entry_parts(mm, i as nat));
                    i = i + 1;
                }
                assert(texts(parts@) + sum_entry_parts(mm, i as nat) =~= texts(parts@));
                join_sum_parts(&parts)
            },
            Values::Product(c, m) => {
                let ghost mm = entries_view(m@);
                if c.is_zero() {
                    let mut r = String::new();
                    push_char(&mut r, '0');
                    assert(r@ =~= seq!['0']);
                    return r;
                }
                let mut parts: Vec<String> = Vec::new();
                if !c.is_small(1) {
                    parts.push(c.to_text());
                }
                assert(texts(parts@) + product_entry_parts(mm, 0) =~= product_parts(c@, mm));
                let mut i: usize = 0;
                while i < m.len()
                    invariant
                        i <= m@.len(),
                        mm == entries_view(m@),
                        entries_wf(mm),
                        *self matches Values::Product(cc, pp) && pp == m,
                        texts(parts@) + product_entry_parts(mm, i as nat) == product_parts(c@, mm),
                    decreases m@.len() - i,
                {
                    proof {
                        assert(decreases_to!(self => m));
                        assert(decreases_to!(m => m@[i as int]));
                        assert(mm[i as int] == (m@[i as int].0@, m@[i as int].1@));
                        assert(entry_wf(mm[i as int]));
                    }
                    let ghost before = texts(parts@);
                    let key = &m[i].0;
                    let power = &m[i].1;
                    if power.is_zero() {
                    } else if power.is_small(1) {
                        parts.push(key.to_string());
                    } else {
                        let mut part = key.to_string();
                        part.append(superscripts_of(power.to_text().as_str()).as_str());
                        parts.push(part);
                    }
                    assert(texts(parts@) =~= before + product_entry_part(mm, i as int));
                    assert(texts(parts@) + product_entry_parts(mm, i as nat + 1) =~= before
                        + product_entry_parts(mm, i as nat));
                    i = i + 1;
                }
                assert(texts(parts@) + product_entry_parts(mm, i as nat) =~= texts(parts@));
                join_product_parts(&parts)
            },
            Values::Exponent(b) => {
                let mut r = String::new();
                push_char(&mut r, '(');
                r.append(b.0.to_string().as_str());
                r.append(") ^ (");
                proof {
                    reveal_strlit(") ^ (");
                    assert(") ^ ("@ =~= seq![')', ' ', '^', ' ', '(']);
                }
                r.append(b.1.to_string().as_str());
                push_char(&mut r, ')');
                assert(r@ =~= render(self@));
                r
            },
        }
    }
}

} // verus!
