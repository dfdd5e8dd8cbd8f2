//! The parser: the rules of the grammar, each as a function from the source
//! and an index to a syntax tree and the index behind it.

use crate::ast::expr_wf;
use crate::ast::lemma_trees_view;
use crate::ast::parser::error::ErrorMessage;
use crate::ast::parser::grammar::arguments_rule;
use crate::ast::parser::grammar::atom_failure;
use crate::ast::parser::grammar::atom_rule;
use crate::ast::parser::grammar::bracketed_rule;
use crate::ast::parser::grammar::closing_failure;
use crate::ast::parser::grammar::empty_failure;
use crate::ast::parser::grammar::exponent_rule;
use crate::ast::parser::grammar::expression_rule;
use crate::ast::parser::grammar::function_rule;
use crate::ast::parser::grammar::join;
use crate::ast::parser::grammar::lemma_number_text;
use crate::ast::parser::grammar::level_rule;
use crate::ast::parser::grammar::level_tail;
use crate::ast::parser::grammar::more_important;
use crate::ast::parser::grammar::number_end;
use crate::ast::parser::grammar::number_failure;
use crate::ast::parser::grammar::number_rule;
use crate::ast::parser::grammar::opening_failure;
use crate::ast::parser::grammar::operand_rule;
use crate::ast::parser::grammar::operation_at;
use crate::ast::parser::grammar::parse_spec;
use crate::ast::parser::grammar::rank_of;
use crate::ast::parser::grammar::sign_failure;
use crate::ast::parser::grammar::sign_rule;
use crate::ast::parser::grammar::skip_blanks;
use crate::ast::parser::grammar::variable_rule;
use crate::ast::parser::grammar::Failure;
use crate::ast::parser::grammar::Level;
use crate::ast::parser::grammar::Tier;
use crate::ast::parser::grammar::Parsed;
use crate::ast::parser::source::Source;
use crate::ast::trees_view;
use crate::ast::EAtom;
use crate::ast::EBracketedExpression;
use crate::ast::EDiv;
use crate::ast::EExp;
use crate::ast::EExpression;
use crate::ast::EFun;
use crate::ast::EMul;
use crate::ast::ENeg;
use crate::ast::ENum;
use crate::ast::ESub;
use crate::ast::ESum;
use crate::ast::EVar;
use crate::ast::Expr;
use crate::ast::ExpressionSyntaxTree;
use crate::ast::Localization;
use crate::ast::SyntaxTree;
use crate::decimal::Decimal;
use vstd::prelude::*;

pub mod error;
pub mod grammar;
pub mod source;

verus! {

/// What a rule returns: a tree and the index behind it, or an error.
pub type ParseResult = Result<(ExpressionSyntaxTree, usize), ErrorMessage>;

/// Whether what a rule returned is what the grammar says.
pub open spec fn agrees(r: ParseResult, p: Parsed) -> bool {
    match r {
        Ok((tree, next)) => p == Ok::<(Expr, int), Failure>((tree@, next as int)),
        Err(e) => p == Err::<(Expr, int), Failure>(e@),
    }
}

/// Whether a rule that succeeded moved forward within the text and read a
/// tree whose numbers are in range.
pub open spec fn advances(r: ParseResult, source: &Source, at: usize) -> bool {
    r matches Ok((tree, next)) ==> at <= next <= source.text().len() && tree.wf()
}

/// Of two candidate errors the one of strictly greater priority; the first
/// where they tie.
pub fn pick(first: ErrorMessage, second: ErrorMessage) -> (r: ErrorMessage)
    ensures
        r@ == more_important(first@, second@),
{
    if second.priority > first.priority {
        second
    } else {
        first
    }
}

fn atom_error(source: &Source, at: usize) -> (r: ErrorMessage)
    requires
        source.wf(),
        at <= source.text().len(),
    ensures
        r@ == atom_failure(source.text(), at as int),
{
    ErrorMessage::atom_failed(String::from_str("a number"), source.place(at))
}

fn opening_error(source: &Source, at: usize, atom: &ErrorMessage) -> (r: ErrorMessage)
    requires
        source.wf(),
        at <= source.text().len(),
    ensures
        r@ == opening_failure(source.text(), at as int, atom@),
{
    let message = String::from_str("'(' or ").concat(atom.message.as_str());
    ErrorMessage::missing_opening_parenthesis(message, source.place(at))
}

fn sign_error(source: &Source, at: usize, inner: &ErrorMessage) -> (r: ErrorMessage)
    requires
        source.wf(),
        at <= source.text().len(),
    ensures
        r@ == sign_failure(source.text(), at as int, inner@),
{
    let message = String::from_str("expected '-' or ").concat(inner.message.as_str()).concat(
        ", got '",
    ).concat(source.rest(at).as_str()).concat("'");
    ErrorMessage::sign_failed(message, source.place(at))
}

fn number_error(source: &Source, at: usize) -> (r: ErrorMessage)
    requires
        source.wf(),
        at <= source.text().len(),
    ensures
        r@ == number_failure(source.text(), at as int),
{
    ErrorMessage::new(String::from_str("number failed"), 1, source.place(at))
}

fn empty_error(source: &Source, at: usize) -> (r: ErrorMessage)
    requires
        source.wf(),
        at <= source.text().len(),
    ensures
        r@ == empty_failure(source.text(), at as int),
{
    ErrorMessage::empty_expression(
        String::from_str("expected expression, got ''"),
        source.place(at),
    )
}

fn closing_error(source: &Source, at: usize) -> (r: ErrorMessage)
    requires
        source.wf(),
        at <= source.text().len(),
    ensures
        r@ == closing_failure(source.text(), at as int),
{
    ErrorMessage::missing_closing_parenthesis(
        String::from_str("missing closing parenthesis"),
        source.place(at),
    )
}

impl ENum {
    /// Reads a number: digits, and behind a separator (`.`, `e-` or `e`)
    /// more digits where they follow.
    pub fn parse(&self, source: &Source, at: usize) -> (r: ParseResult)
        requires
            source.wf(),
            at <= source.text().len(),
        ensures
            agrees(r, number_rule(source.text(), at as int)),
            advances(r, source, at),
    {
        let whole = source.digits_end(at);
        let after = if source.has(whole, '.') {
            whole + 1
        } else if source.has(whole, 'e') && source.has(whole + 1, '-') {
            whole + 2
        } else if source.has(whole, 'e') {
            whole + 1
        } else {
            whole
        };
        let end = if whole > at && after > whole && source.digits_end(after) > after {
            source.digits_end(after)
        } else {
            whole
        };
        assert(end as int == number_end(source.text(), at as int));
        if end <= at {
            return Err(atom_error(source, at));
        }
        let text = source.slice(at, end);
        proof {
            lemma_number_text(source.text(), at as int);
        }
        match Decimal::parse(text.as_str()) {
            Some(d) => {
                let tree = ExpressionSyntaxTree::number(source.place(at), source.place(end), d);
                Ok((tree, source.skip_blanks(end)))
            },
            None => Err(number_error(source, at)),
        }
    }
}

impl EVar {
    /// Reads a variable: one letter or more.
    pub fn parse(&self, source: &Source, at: usize) -> (r: ParseResult)
        requires
            source.wf(),
            at <= source.text().len(),
        ensures
            agrees(r, variable_rule(source.text(), at as int)),
            advances(r, source, at),
    {
        let end = source.letters_end(at);
        if end <= at {
            return Err(atom_error(source, at));
        }
        let name = source.slice(at, end);
        let tree = ExpressionSyntaxTree::variable(source.place(at), source.place(end), name);
        Ok((tree, source.skip_blanks(end)))
    }
}

/// The content of a list with one more tree is the content of the list with
/// the content of the tree.
pub proof fn lemma_trees_view_push(v: Seq<ExpressionSyntaxTree>, t: ExpressionSyntaxTree)
    ensures
        trees_view(v.push(t)) == trees_view(v).push(t@),
{
    lemma_trees_view(v, 0);
    lemma_trees_view(v.push(t), 0);
    assert(trees_view(v.push(t)) =~= trees_view(v).push(t@));
}

/// Every tree of a list that is well-formed tree by tree makes a well-formed
/// argument.
pub open spec fn all_wf(v: Seq<ExpressionSyntaxTree>) -> bool {
    forall|i: int| 0 <= i < v.len() ==> (#[trigger] v[i]).wf()
}

/// Reads the arguments of a function: expressions separated by commas,
/// after those already read.
pub fn parse_arguments(source: &Source, at: usize, before: Vec<ExpressionSyntaxTree>) -> (r: Result<
    (Vec<ExpressionSyntaxTree>, usize),
    ErrorMessage,
>)
    requires
        source.wf(),
        at <= source.text().len(),
        all_wf(before@),
    ensures
        match r {
            Ok((arguments, next)) => arguments_rule(
                source.text(),
                at as int,
                trees_view(before@),
            ) == Ok::<(Seq<Expr>, int), Failure>((trees_view(arguments@), next as int)) && at
                <= next <= source.text().len() && all_wf(arguments@),
            Err(e) => arguments_rule(source.text(), at as int, trees_view(before@)) == Err::<
                (Seq<Expr>, int),
                Failure,
            >(e@),
        },
    decreases source.text().len() - at, 10nat, 0nat,
{
    match EExpression.parse(source, at) {
        Err(e) => Err(e),
        Ok((argument, next)) => {
            proof {
                lemma_trees_view_push(before@, argument);
            }
            let mut arguments = before;
            arguments.push(argument);
            if source.has(next, ',') {
                parse_arguments(source, source.skip_blanks(next + 1), arguments)
            } else {
                Ok((arguments, next))
            }
        },
    }
}

impl EFun {
    /// Reads a function application: a name, at once an opening bracket, the
    /// arguments separated by commas, and a closing bracket.
    pub fn parse(&self, source: &Source, at: usize) -> (r: ParseResult)
        requires
            source.wf(),
            at <= source.text().len(),
        ensures
            agrees(r, function_rule(source.text(), at as int)),
            advances(r, source, at),
        decreases source.text().len() - at, 0nat, 0nat,
    {
        let name_end = source.letters_end(at);
        if !(name_end > at && source.has(name_end, '(')) {
            return Err(atom_error(source, at));
        }
        let start = source.skip_blanks(name_end + 1);
        let none: Vec<ExpressionSyntaxTree> = Vec::new();
        proof {
            lemma_trees_view(none@, 0);
            assert(trees_view(none@) =~= Seq::<Expr>::empty());
        }
        let (arguments, close) = match parse_arguments(source, start, none) {
            Err(e) => {
                return Err(e);
            },
            Ok(found) => found,
        };
        if !source.has(close, ')') {
            return Err(closing_error(source, close));
        }
        let name = source.slice(at, name_end);
        let ghost content = trees_view(arguments@);
        proof {
            lemma_trees_view(arguments@, 0);
            assert forall|j: int| 0 <= j < content.len() implies expr_wf(#[trigger] content[j]) by {
                assert(content[j] == arguments@[0 + j]@);
                assert(arguments@[j].wf());
            }
        }
        let tree = ExpressionSyntaxTree::fun(
            source.place(at),
            source.place(close + 1),
            name,
            arguments,
        );
        Ok((tree, source.skip_blanks(close + 1)))
    }
}

impl EAtom {
    /// Reads an atom: a function application, a number or a variable.
    pub fn parse(&self, source: &Source, at: usize) -> (r: ParseResult)
        requires
            source.wf(),
            at <= source.text().len(),
        ensures
            agrees(r, atom_rule(source.text(), at as int)),
            advances(r, source, at),
        decreases source.text().len() - at, 1nat, 0nat,
    {
        let name_end = source.letters_end(at);
        if name_end > at && source.has(name_end, '(') {
            EFun.parse(source, at)
        } else if source.digits_end(at) > at {
            ENum.parse(source, at)
        } else {
            EVar.parse(source, at)
        }
    }
}

impl EBracketedExpression {
    /// Reads an expression in brackets, or an atom.
    pub fn parse(&self, source: &Source, at: usize) -> (r: ParseResult)
        requires
            source.wf(),
            at <= source.text().len(),
        ensures
            agrees(r, bracketed_rule(source.text(), at as int)),
            advances(r, source, at),
        decreases source.text().len() - at, 2nat, 0nat,
    {
        if source.has(at, '(') {
            match EExpression.parse(source, source.skip_blanks(at + 1)) {
                Err(e) => Err(e),
                Ok((inner, close)) => {
                    if source.has(close, ')') {
                        Ok((inner, source.skip_blanks(close + 1)))
                    } else {
                        Err(closing_error(source, close))
                    }
                },
            }
        } else {
            match EAtom.parse(source, at) {
                Ok(found) => Ok(found),
                Err(atom) => {
                    let opening = opening_error(source, at, &atom);
                    Err(pick(opening, atom))
                },
            }
        }
    }
}

impl ENeg {
    /// Reads a signed operand: a minus sign before a signed operand, or an
    /// operand that may stand in brackets.
    pub fn parse(&self, source: &Source, at: usize) -> (r: ParseResult)
        requires
            source.wf(),
            at <= source.text().len(),
        ensures
            agrees(r, sign_rule(source.text(), at as int)),
            advances(r, source, at),
        decreases source.text().len() - at, 3nat, 0nat,
    {
        if source.has(at, '-') {
            match ENeg.parse(source, source.skip_blanks(at + 1)) {
                Err(e) => Err(e),
                Ok((operand, next)) => {
                    let tree = ExpressionSyntaxTree::neg(
                        source.place(at),
                        source.place(at + 1),
                        operand,
                    );
                    Ok((tree, next))
                },
            }
        } else {
            match EBracketedExpression.parse(source, at) {
                Ok(found) => Ok(found),
                Err(inner) => {
                    let failed = sign_error(source, at, &inner);
                    Err(pick(failed, inner))
                },
            }
        }
    }
}

impl EExp {
    /// Reads a power; powers group to the right.
    pub fn parse(&self, source: &Source, at: usize) -> (r: ParseResult)
        requires
            source.wf(),
            at <= source.text().len(),
        ensures
            agrees(r, exponent_rule(source.text(), at as int)),
            advances(r, source, at),
        decreases source.text().len() - at, 4nat, 0nat,
    {
        match ENeg.parse(source, at) {
            Err(e) => Err(e),
            Ok((base, next)) => {
                if source.has(next, '^') {
                    match EExp.parse(source, source.skip_blanks(next + 1)) {
                        Err(e) => Err(e),
                        Ok((power, end)) => {
                            let tree = ExpressionSyntaxTree::exp(
                                source.place(next),
                                source.place(next + 1),
                                base,
                                power,
                            );
                            Ok((tree, end))
                        },
                    }
                } else {
                    Ok((base, next))
                }
            },
        }
    }
}

/// The operation whose operator stands at an index, if one of the tier
/// stands there.
pub fn operation_here(tier: Tier, source: &Source, at: usize) -> (r: Option<Level>)
    ensures
        r == operation_at(tier, source.text(), at as int),
        r is Some ==> at < source.text().len() && at < usize::MAX,
{
    match tier {
        Tier::Factors => if source.has(at, '*') {
            Some(Level::Product)
        } else if source.has(at, '/') {
            Some(Level::Division)
        } else {
            None
        },
        Tier::Terms => if source.has(at, '+') {
            Some(Level::Sum)
        } else if source.has(at, '-') {
            Some(Level::Subtraction)
        } else {
            None
        },
    }
}

/// The node that an operation makes of two operands.
pub fn join_trees(
    level: Level,
    starts: Localization,
    ends: Localization,
    left: ExpressionSyntaxTree,
    right: ExpressionSyntaxTree,
) -> (r: ExpressionSyntaxTree)
    ensures
        r@ == join(level, left@, right@, (starts, ends)),
{
    match level {
        Level::Division => ExpressionSyntaxTree::div(starts, ends, left, right),
        Level::Product => ExpressionSyntaxTree::mul(starts, ends, left, right),
        Level::Sum => ExpressionSyntaxTree::add(starts, ends, left, right),
        Level::Subtraction => ExpressionSyntaxTree::sub(starts, ends, left, right),
    }
}

/// Reads an operand of a tier.
pub fn parse_operand(tier: Tier, source: &Source, at: usize) -> (r: ParseResult)
    requires
        source.wf(),
        at <= source.text().len(),
    ensures
        agrees(r, operand_rule(tier, source.text(), at as int)),
        advances(r, source, at),
    decreases source.text().len() - at, rank_of(tier), 0nat,
{
    match tier {
        Tier::Factors => EExp.parse(source, at),
        Tier::Terms => parse_level(Tier::Factors, source, at),
    }
}

/// Reads a tier: operands with the operators of the tier between them; the
/// nodes group to the left and carry the stretch of their operator.
pub fn parse_level(tier: Tier, source: &Source, at: usize) -> (r: ParseResult)
    requires
        source.wf(),
        at <= source.text().len(),
    ensures
        agrees(r, level_rule(tier, source.text(), at as int)),
        advances(r, source, at),
    decreases source.text().len() - at, rank_of(tier), 2nat,
{
    let ghost s = source.text();
    let (first, next) = match parse_operand(tier, source, at) {
        Err(e) => {
            return Err(e);
        },
        Ok(found) => found,
    };
    let mut left = first;
    let mut pos = next;
    loop
        invariant_except_break
            level_rule(tier, s, at as int) == level_tail(tier, s, pos as int, left@),
        invariant
            s == source.text(),
            source.wf(),
            at <= pos <= s.len(),
            left.wf(),
        ensures
            level_rule(tier, s, at as int) == Ok::<(Expr, int), Failure>((left@, pos as int)),
        decreases s.len() - pos,
    {
        let level = match operation_here(tier, source, pos) {
            None => {
                break ;
            },
            Some(level) => level,
        };
        let (right, after) = match parse_operand(tier, source, source.skip_blanks(pos + 1)) {
            Err(e) => {
                return Err(e);
            },
            Ok(found) => found,
        };
        left = join_trees(level, source.place(pos), source.place(pos + 1), left, right);
        pos = after;
    }
    Ok((left, pos))
}

impl EDiv {
    /// Reads products and quotients, from left to right.
    pub fn parse(&self, source: &Source, at: usize) -> (r: ParseResult)
        requires
            source.wf(),
            at <= source.text().len(),
        ensures
            agrees(r, level_rule(Tier::Factors, source.text(), at as int)),
            advances(r, source, at),
    {
        parse_level(Tier::Factors, source, at)
    }
}

impl EMul {
    /// Reads products and quotients, from left to right.
    pub fn parse(&self, source: &Source, at: usize) -> (r: ParseResult)
        requires
            source.wf(),
            at <= source.text().len(),
        ensures
            agrees(r, level_rule(Tier::Factors, source.text(), at as int)),
            advances(r, source, at),
    {
        parse_level(Tier::Factors, source, at)
    }
}

impl ESum {
    /// Reads sums and differences, from left to right.
    pub fn parse(&self, source: &Source, at: usize) -> (r: ParseResult)
        requires
            source.wf(),
            at <= source.text().len(),
        ensures
            agrees(r, level_rule(Tier::Terms, source.text(), at as int)),
            advances(r, source, at),
    {
        parse_level(Tier::Terms, source, at)
    }
}

impl ESub {
    /// Reads sums and differences, from left to right.
    pub fn parse(&self, source: &Source, at: usize) -> (r: ParseResult)
        requires
            source.wf(),
            at <= source.text().len(),
        ensures
            agrees(r, level_rule(Tier::Terms, source.text(), at as int)),
            advances(r, source, at),
    {
        parse_level(Tier::Terms, source, at)
    }
}

impl EExpression {
    /// Reads a whole expression; fails at once where nothing but blanks is
    /// left.
    pub fn parse(&self, source: &Source, at: usize) -> (r: ParseResult)
        requires
            source.wf(),
            at <= source.text().len(),
        ensures
            agrees(r, expression_rule(source.text(), at as int)),
            advances(r, source, at),
        decreases source.text().len() - at, 9nat, 0nat,
    {
        let start = source.skip_blanks(at);
        if start >= source.len() {
            Err(empty_error(source, at))
        } else {
            parse_level(Tier::Terms, source, start)
        }
    }
}

/// Marks the message of an error of the grammar as a syntax error.
pub fn as_syntax_error(message: String) -> (r: String)
    ensures
        r@ == "Syntax Error: "@ + message@,
{
    String::from_str("Syntax Error: ").concat(message.as_str())
}

/// Parses a text that holds one expression.
///
/// Fails with the most telling error of the grammar where the text is no
/// expression, and with an error at the first character left over where
/// something follows the expression.
pub fn parse(input: String) -> (r: Result<Vec<SyntaxTree>, ErrorMessage>)
    ensures
        match r {
            Ok(trees) => trees@.len() == 1 && parse_spec(input@) == Ok::<Expr, Failure>(
                trees@[0].expression(),
            ) && expr_wf(trees@[0].expression()),
            Err(e) => parse_spec(input@) == Err::<Expr, Failure>(e@),
        },
{
    let source = Source::new(input.as_str());
    match EExpression.parse(&source, 0) {
        Err(e) => {
            let ErrorMessage { message, localization, priority } = e;
            Err(ErrorMessage::new(as_syntax_error(message), priority, localization))
        },
        Ok((tree, next)) => {
            if next < source.len() {
                Err(ErrorMessage::leftover(source.rest(next), source.place(next)))
            } else {
                let mut trees: Vec<SyntaxTree> = Vec::new();
                trees.push(SyntaxTree::Expression(tree));
                Ok(trees)
            }
        },
    }
}

} // verus!
