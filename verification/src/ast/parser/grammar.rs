//! The grammar of expressions, as functions on the characters of the source.
//!
//! Every rule takes the text and the index at which to start, and yields the
//! expression it read together with the index behind it (blanks that follow a
//! token are skipped with the token), or the error it found.

use crate::ast::parser::error::ErrorMessage;
use crate::ast::parser::error::Priority;
use crate::ast::Expr;
use crate::ast::Localization;
use crate::ast::Span;
use crate::decimal::is_number_text;
use crate::decimal::number_of_text;
use crate::decimal::ranged;
use vstd::prelude::*;

verus! {

/// The content of a syntax error.
pub struct Failure {
    pub message: Seq<char>,
    pub priority: Priority,
    pub localization: Localization,
}

impl View for ErrorMessage {
    type V = Failure;

    open spec fn view(&self) -> Failure {
        Failure { message: self.message@, priority: self.priority, localization: self.localization }
    }
}

/// What a rule yields: an expression and the index behind it, or an error.
pub type Parsed = Result<(Expr, int), Failure>;

/// Whether a character is white space, as the standard library has it.
pub uninterp spec fn is_blank(c: char) -> bool;

/// Whether a character is white space.
///
/// Trusted: wraps `char::is_whitespace`, which tells whether the character
/// has the Unicode property White_Space; its result is `is_blank`.
#[verifier::external_body]
pub(crate) fn blank(c: char) -> (r: bool)
    ensures
        r == is_blank(c),
{
    c.is_whitespace()
}

/// Whether a character is a decimal digit.
pub open spec fn is_digit(c: char) -> bool {
    '0' <= c <= '9'
}

/// Whether a character is alphabetic, as the standard library has it.
pub uninterp spec fn is_letter(c: char) -> bool;

/// Whether a character is alphabetic.
///
/// Trusted: wraps `char::is_alphabetic`, which tells whether the character
/// has the Unicode property Alphabetic; its result is `is_letter`.
#[verifier::external_body]
pub(crate) fn letter(c: char) -> (r: bool)
    ensures
        r == is_letter(c),
{
    c.is_alphabetic()
}

/// The line of index `i`: the number of line breaks before it.
pub open spec fn line_of(s: Seq<char>, i: int) -> int
    decreases i,
{
    if i <= 0 || i > s.len() {
        0
    } else if s[i - 1] == '\n' {
        line_of(s, i - 1) + 1
    } else {
        line_of(s, i - 1)
    }
}

/// The column of index `i`: the number of characters between the last line
/// break before it, or the start, and itself.
pub open spec fn column_of(s: Seq<char>, i: int) -> int
    decreases i,
{
    if i <= 0 || i > s.len() {
        0
    } else if s[i - 1] == '\n' {
        0
    } else {
        column_of(s, i - 1) + 1
    }
}

/// The position of index `i` in the text.
pub open spec fn position_at(s: Seq<char>, i: int) -> Localization {
    Localization { line: line_of(s, i) as usize, column: column_of(s, i) as usize }
}

/// The stretch from index `i` to index `j`.
pub open spec fn span_of(s: Seq<char>, i: int, j: int) -> Span {
    (position_at(s, i), position_at(s, j))
}

/// The text from index `i` on.
pub open spec fn rest_of(s: Seq<char>, i: int) -> Seq<char> {
    if 0 <= i <= s.len() {
        s.subrange(i, s.len() as int)
    } else {
        Seq::empty()
    }
}

/// Whether the character at index `i` is `c`.
pub open spec fn has_char(s: Seq<char>, i: int, c: char) -> bool {
    0 <= i < s.len() && s[i] == c
}

/// The first index from `i` on that holds no blank.
pub open spec fn skip_blanks(s: Seq<char>, i: int) -> int
    decreases s.len() - i,
{
    if 0 <= i < s.len() && is_blank(s[i]) {
        skip_blanks(s, i + 1)
    } else {
        i
    }
}

/// The first index from `i` on that holds no digit.
pub open spec fn digits_end(s: Seq<char>, i: int) -> int
    decreases s.len() - i,
{
    if 0 <= i < s.len() && is_digit(s[i]) {
        digits_end(s, i + 1)
    } else {
        i
    }
}

/// The first index from `i` on that holds no letter.
pub open spec fn letters_end(s: Seq<char>, i: int) -> int
    decreases s.len() - i,
{
    if 0 <= i < s.len() && is_letter(s[i]) {
        letters_end(s, i + 1)
    } else {
        i
    }
}

/// Skipping runs forward and stays within the text.
pub proof fn lemma_runs(s: Seq<char>, i: int)
    requires
        0 <= i <= s.len(),
    ensures
        i <= skip_blanks(s, i) <= s.len(),
        i <= digits_end(s, i) <= s.len(),
        i <= letters_end(s, i) <= s.len(),
    decreases s.len() - i,
{
    if i < s.len() {
        lemma_runs(s, i + 1);
    }
}

/// Of two candidate errors the one of strictly greater priority; the first
/// where they tie.
pub open spec fn more_important(first: Failure, second: Failure) -> Failure {
    if second.priority > first.priority {
        second
    } else {
        first
    }
}

/// The error of an atom that is none.
pub open spec fn atom_failure(s: Seq<char>, i: int) -> Failure {
    Failure { message: "a number"@, priority: 10, localization: position_at(s, i) }
}

/// The error of a number that cannot be read.
pub open spec fn number_failure(s: Seq<char>, i: int) -> Failure {
    Failure { message: "number failed"@, priority: 1, localization: position_at(s, i) }
}

/// The error of a bracket that is not closed.
pub open spec fn closing_failure(s: Seq<char>, i: int) -> Failure {
    Failure {
        message: "missing closing parenthesis"@,
        priority: 120,
        localization: position_at(s, i),
    }
}

/// The error of an operand that is neither in brackets nor an atom.
pub open spec fn opening_failure(s: Seq<char>, i: int, atom: Failure) -> Failure {
    Failure {
        message: "'(' or "@ + atom.message,
        priority: 40,
        localization: position_at(s, i),
    }
}

/// The error of an operand that is neither signed, nor in brackets, nor an
/// atom.
pub open spec fn sign_failure(s: Seq<char>, i: int, inner: Failure) -> Failure {
    Failure {
        message: "expected '-' or "@ + inner.message + ", got '"@ + rest_of(s, i) + "'"@,
        priority: 70,
        localization: position_at(s, i),
    }
}

/// The error of an expression that is missing.
pub open spec fn empty_failure(s: Seq<char>, i: int) -> Failure {
    Failure {
        message: "expected expression, got ''"@,
        priority: 99,
        localization: position_at(s, i),
    }
}

/// The end of the number that starts at index `i`: behind its digits, and
/// behind a separator (`.`, `e-` or `e`) with more digits where they follow.
/// It is `i` where no digit stands there.
pub open spec fn number_end(s: Seq<char>, i: int) -> int {
    let whole = digits_end(s, i);
    let after = if has_char(s, whole, '.') {
        whole + 1
    } else if has_char(s, whole, 'e') && has_char(s, whole + 1, '-') {
        whole + 2
    } else if has_char(s, whole, 'e') {
        whole + 1
    } else {
        whole
    };
    if whole > i && after > whole && digits_end(s, after) > after {
        digits_end(s, after)
    } else {
        whole
    }
}

/// The digits of a slice end where those of the text end, or with the slice.
pub proof fn lemma_digits_end_of_slice(s: Seq<char>, i: int, e: int, j: int)
    requires
        0 <= i <= e <= s.len(),
        0 <= j <= e - i,
    ensures
        digits_end(s.subrange(i, e), j) == (if digits_end(s, i + j) <= e {
            digits_end(s, i + j)
        } else {
            e
        }) - i,
    decreases e - i - j,
{
    let t = s.subrange(i, e);
    lemma_runs(s, i + j);
    if j < e - i {
        assert(t[j] == s[i + j]);
        if is_digit(s[i + j]) {
            lemma_digits_end_of_slice(s, i, e, j + 1);
        }
    }
}

/// What the rule for numbers cuts out of the text is a number text.
pub proof fn lemma_number_text(s: Seq<char>, i: int)
    requires
        0 <= i <= s.len(),
        number_end(s, i) > i,
    ensures
        number_end(s, i) <= s.len(),
        is_number_text(s.subrange(i, number_end(s, i))),
{
    let e = number_end(s, i);
    let w = digits_end(s, i);
    lemma_runs(s, i);
    let t = s.subrange(i, e);
    if e == w {
        lemma_digits_end_of_slice(s, i, e, 0);
    } else {
        let after = if has_char(s, w, '.') {
            w + 1
        } else if has_char(s, w, 'e') && has_char(s, w + 1, '-') {
            w + 2
        } else {
            w + 1
        };
        lemma_runs(s, after);
        lemma_digits_end_of_slice(s, i, e, 0);
        lemma_digits_end_of_slice(s, i, e, after - i);
        assert(t[w - i] == s[w]);
        if after == w + 2 {
            assert(t[w + 1 - i] == s[w + 1]);
        } else if w + 1 < e {
            assert(t[w + 1 - i] == s[w + 1]);
        }
    }
}

/// The rule for numbers.
pub open spec fn number_rule(s: Seq<char>, i: int) -> Parsed {
    let end = number_end(s, i);
    if end <= i {
        Err(atom_failure(s, i))
    } else {
        match ranged(number_of_text(s.subrange(i, end))) {
            Some(d) => Ok((Expr::Number(d, span_of(s, i, end)), skip_blanks(s, end))),
            None => Err(number_failure(s, i)),
        }
    }
}

/// The rule for variables.
pub open spec fn variable_rule(s: Seq<char>, i: int) -> Parsed {
    let end = letters_end(s, i);
    if end <= i {
        Err(atom_failure(s, i))
    } else {
        Ok((Expr::Variable(s.subrange(i, end), span_of(s, i, end)), skip_blanks(s, end)))
    }
}

/// Whether a name that is followed at once by an opening bracket starts at
/// index `i`.
pub open spec fn starts_function(s: Seq<char>, i: int) -> bool {
    0 <= i < letters_end(s, i) && has_char(s, letters_end(s, i), '(')
}

/// The rule for function applications: a name, at once an opening bracket,
/// the arguments, and a closing bracket.
pub open spec fn function_rule(s: Seq<char>, i: int) -> Parsed
    decreases s.len() - i, 0nat, 0nat,
{
    let name_end = letters_end(s, i);
    if starts_function(s, i) {
        proof {
            lemma_runs(s, i);
            lemma_runs(s, name_end + 1);
        }
        match arguments_rule(s, skip_blanks(s, name_end + 1), Seq::empty()) {
            Err(e) => Err(e),
            Ok((arguments, close)) => {
                if has_char(s, close, ')') {
                    Ok(
                        (
                            Expr::Fun(s.subrange(i, name_end), arguments, span_of(s, i, close + 1)),
                            skip_blanks(s, close + 1),
                        ),
                    )
                } else {
                    Err(closing_failure(s, close))
                }
            },
        }
    } else {
        Err(atom_failure(s, i))
    }
}

/// The rule for atoms: a function application where a name is followed at
/// once by an opening bracket, else a number where a digit stands, else a
/// variable.
pub open spec fn atom_rule(s: Seq<char>, i: int) -> Parsed
    decreases s.len() - i, 1nat, 0nat,
{
    if starts_function(s, i) {
        function_rule(s, i)
    } else if digits_end(s, i) > i {
        number_rule(s, i)
    } else {
        variable_rule(s, i)
    }
}

/// The rule for the arguments of a function: expressions separated by commas,
/// after those already read.
pub open spec fn arguments_rule(s: Seq<char>, i: int, before: Seq<Expr>) -> Result<
    (Seq<Expr>, int),
    Failure,
>
    decreases s.len() - i, 10nat, 0nat,
{
    match expression_rule(s, i) {
        Err(e) => Err(e),
        Ok((argument, next)) => {
            if has_char(s, next, ',') && i <= next {
                proof {
                    lemma_runs(s, next + 1);
                }
                arguments_rule(s, skip_blanks(s, next + 1), before.push(argument))
            } else {
                Ok((before.push(argument), next))
            }
        },
    }
}

/// The rule for operands that may stand in brackets.
pub open spec fn bracketed_rule(s: Seq<char>, i: int) -> Parsed
    decreases s.len() - i, 2nat, 0nat,
{
    if has_char(s, i, '(') {
        proof {
            lemma_runs(s, i + 1);
        }
        match expression_rule(s, skip_blanks(s, i + 1)) {
            Err(e) => Err(e),
            Ok((inner, close)) => {
                if has_char(s, close, ')') {
                    Ok((inner, skip_blanks(s, close + 1)))
                } else {
                    Err(closing_failure(s, close))
                }
            },
        }
    } else {
        match atom_rule(s, i) {
            Ok(found) => Ok(found),
            Err(atom) => Err(more_important(opening_failure(s, i, atom), atom)),
        }
    }
}

/// The rule for signed operands: a minus sign before a signed operand, or an
/// operand that may stand in brackets.
pub open spec fn sign_rule(s: Seq<char>, i: int) -> Parsed
    decreases s.len() - i, 3nat, 0nat,
{
    if has_char(s, i, '-') {
        proof {
            lemma_runs(s, i + 1);
        }
        match sign_rule(s, skip_blanks(s, i + 1)) {
            Err(e) => Err(e),
            Ok((operand, next)) => Ok((Expr::Negation(Box::new(operand), span_of(s, i, i + 1)), next)),
        }
    } else {
        match bracketed_rule(s, i) {
            Ok(found) => Ok(found),
            Err(inner) => Err(more_important(sign_failure(s, i, inner), inner)),
        }
    }
}

/// The rule for powers: a signed operand, raised to a power where `^`
/// follows; powers group to the right.
pub open spec fn exponent_rule(s: Seq<char>, i: int) -> Parsed
    decreases s.len() - i, 4nat, 0nat,
{
    match sign_rule(s, i) {
        Err(e) => Err(e),
        Ok((base, next)) => {
            if has_char(s, next, '^') && i <= next {
                proof {
                    lemma_runs(s, next + 1);
                }
                match exponent_rule(s, skip_blanks(s, next + 1)) {
                    Err(e) => Err(e),
                    Ok((power, end)) => Ok(
                        (
                            Expr::Exponent(
                                Box::new(base),
                                Box::new(power),
                                span_of(s, next, next + 1),
                            ),
                            end,
                        ),
                    ),
                }
            } else {
                Ok((base, next))
            }
        },
    }
}

/// The operations that group to the left.
#[derive(Copy, Clone, Debug, PartialEq, Eq, Structural)]
pub enum Level {
    Division,
    Product,
    Subtraction,
    Sum,
}

/// The two tiers of operations that group to the left: products and
/// quotients bind tighter than sums and differences; within a tier the
/// operations are read from left to right, as in arithmetic.
#[derive(Copy, Clone, Debug, PartialEq, Eq, Structural)]
pub enum Tier {
    Factors,
    Terms,
}

/// The operation whose operator stands at index `i`, if one of the tier
/// stands there.
pub open spec fn operation_at(tier: Tier, s: Seq<char>, i: int) -> Option<Level> {
    match tier {
        Tier::Factors => if has_char(s, i, '*') {
            Some(Level::Product)
        } else if has_char(s, i, '/') {
            Some(Level::Division)
        } else {
            None
        },
        Tier::Terms => if has_char(s, i, '+') {
            Some(Level::Sum)
        } else if has_char(s, i, '-') {
            Some(Level::Subtraction)
        } else {
            None
        },
    }
}

/// The place of a tier among the rules.
pub open spec fn rank_of(tier: Tier) -> nat {
    match tier {
        Tier::Factors => 5,
        Tier::Terms => 6,
    }
}

/// The node that an operation makes of two operands and the stretch of its
/// operator.
pub open spec fn join(level: Level, left: Expr, right: Expr, span: Span) -> Expr {
    match level {
        Level::Division => Expr::Division(Box::new(left), Box::new(right), span),
        Level::Product => Expr::Product(Box::new(left), Box::new(right), span),
        Level::Sum => Expr::Sum(Box::new(left), Box::new(right), span),
        Level::Subtraction => Expr::Subtraction(Box::new(left), Box::new(right), span),
    }
}

/// The rule of the operands of a tier: powers are the operands of products
/// and quotients, which are the operands of sums and differences.
pub open spec fn operand_rule(tier: Tier, s: Seq<char>, i: int) -> Parsed
    decreases s.len() - i, rank_of(tier), 0nat,
{
    match tier {
        Tier::Factors => exponent_rule(s, i),
        Tier::Terms => level_rule(Tier::Factors, s, i),
    }
}

/// The rule of a tier: an operand, then any number of times an operator of
/// the tier and another operand; the nodes group to the left and carry the
/// stretch of their operator.
pub open spec fn level_rule(tier: Tier, s: Seq<char>, i: int) -> Parsed
    decreases s.len() - i, rank_of(tier), 2nat,
{
    match operand_rule(tier, s, i) {
        Err(e) => Err(e),
        Ok((first, next)) => {
            if i <= next <= s.len() {
                level_tail(tier, s, next, first)
            } else {
                Ok((first, next))
            }
        },
    }
}

/// The rest of a tier behind the operands read so far.
pub open spec fn level_tail(tier: Tier, s: Seq<char>, i: int, left: Expr) -> Parsed
    decreases s.len() - i, rank_of(tier), 1nat,
{
    match operation_at(tier, s, i) {
        None => Ok((left, i)),
        Some(level) => {
            proof {
                lemma_runs(s, i + 1);
            }
            match operand_rule(tier, s, skip_blanks(s, i + 1)) {
                Err(e) => Err(e),
                Ok((right, next)) => {
                    if i < next <= s.len() {
                        level_tail(tier, s, next, join(level, left, right, span_of(s, i, i + 1)))
                    } else {
                        Ok((join(level, left, right, span_of(s, i, i + 1)), next))
                    }
                },
            }
        },
    }
}

/// The rule for whole expressions: an error where nothing but blanks is
/// left, else sums and differences behind the blanks.
pub open spec fn expression_rule(s: Seq<char>, i: int) -> Parsed
    decreases s.len() - i, 9nat, 0nat,
{
    if 0 <= i <= s.len() {
        proof {
            lemma_runs(s, i);
        }
        if skip_blanks(s, i) >= s.len() {
            Err(empty_failure(s, i))
        } else {
            level_rule(Tier::Terms, s, skip_blanks(s, i))
        }
    } else {
        Err(empty_failure(s, i))
    }
}

/// The error for input that is left behind an expression.
pub open spec fn leftover_failure(s: Seq<char>, i: int) -> Failure {
    Failure {
        message: crate::ast::parser::error::leftover_text(rest_of(s, i)),
        priority: 0,
        localization: position_at(s, i),
    }
}

/// An error of the grammar as the caller sees it.
pub open spec fn syntax_failure(e: Failure) -> Failure {
    Failure { message: "Syntax Error: "@ + e.message, priority: e.priority, localization: e.localization }
}

/// What a text parses to: its one expression, or the error of the grammar,
/// or the error for what is left behind the expression.
pub open spec fn parse_spec(s: Seq<char>) -> Result<Expr, Failure> {
    match expression_rule(s, 0) {
        Err(e) => Err(syntax_failure(e)),
        Ok((e, next)) => {
            if 0 <= next < s.len() {
                Err(leftover_failure(s, next))
            } else {
                Ok(e)
            }
        },
    }
}


/// Where nothing but blanks stands from an index on, skipping them reaches
/// the end of the text.
pub proof fn lemma_skip_all_blanks(s: Seq<char>, i: int)
    requires
        0 <= i <= s.len(),
        forall|k: int| i <= k < s.len() ==> is_blank(#[trigger] s[k]),
    ensures
        skip_blanks(s, i) == s.len(),
    decreases s.len() - i,
{
    if i < s.len() {
        lemma_skip_all_blanks(s, i + 1);
    }
}

/// A text that is empty or holds nothing but blanks is rejected: the error
/// says that an expression was expected, and stands at the start of the text.
pub proof fn lemma_blank_text_is_rejected(s: Seq<char>)
    requires
        forall|k: int| 0 <= k < s.len() ==> is_blank(#[trigger] s[k]),
    ensures
        parse_spec(s) == Err::<Expr, Failure>(syntax_failure(empty_failure(s, 0))),
        empty_failure(s, 0).localization == (Localization { line: 0, column: 0 }),
{
    lemma_skip_all_blanks(s, 0);
}

/// A text that parses was read to its end: behind the expression nothing is
/// left. What is left behind an expression is an error at the first index
/// that was not read.
pub proof fn lemma_nothing_is_left(s: Seq<char>)
    ensures
        parse_spec(s) is Ok ==> (expression_rule(s, 0) matches Ok((_, next)) && !(0 <= next
            < s.len())),
        expression_rule(s, 0) matches Ok((_, next)) ==> (0 <= next < s.len() ==> parse_spec(s)
            == Err::<Expr, Failure>(leftover_failure(s, next))),
{
}

} // verus!
