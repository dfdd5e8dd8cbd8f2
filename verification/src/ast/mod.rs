//! Source positions and the syntax tree.

use crate::decimal::decimal_text;
use crate::decimal::Dec;
use crate::decimal::Decimal;
use crate::text::push_char;
use vstd::prelude::*;

pub mod parser;
pub mod eval;
pub mod identities;
pub mod merging;
pub mod multiply;
pub mod order;
pub mod power;
pub mod printer;
pub mod values;

verus! {

/// A position in the source text: a line and a column, both counted from zero.
#[derive(Copy, Clone, Debug, PartialEq, Eq, Structural)]
pub struct Localization {
    pub line: usize,
    pub column: usize,
}

impl Localization {
    /// The start of the text.
    pub fn new() -> (r: Localization)
        ensures
            r == (Localization { line: 0, column: 0 }),
    {
        Localization { line: 0, column: 0 }
    }

    /// The position at the given line and column.
    pub fn at(line: usize, column: usize) -> (r: Localization)
        ensures
            r == (Localization { line, column }),
    {
        Localization { line, column }
    }
}

impl Default for Localization {
    fn default() -> (r: Localization)
        ensures
            r == (Localization { line: 0, column: 0 }),
    {
        Localization { line: 0, column: 0 }
    }
}


/// Why an expression could not be evaluated.
#[derive(Copy, Clone, Debug, PartialEq, Eq, Structural)]
pub enum EvaluationError {
    /// A function was applied that the context does not define; the position
    /// is where the application starts.
    UnboundFunction(Localization),
    /// A number was raised to a power that is no integer.
    NonIntegerExponent,
    /// Zero was raised to a negative power.
    DivisionByZero,
    /// A number left the range that this library works with: a scale beyond
    /// the limit, or an exponent that is no machine integer.
    OutOfRange,
}


/// A value together with the stretch of source text it was read from.
#[derive(Debug, PartialEq, Eq)]
pub struct Node<T> {
    pub value: T,
    /// Where the stretch starts and where it ends.
    pub location: (Localization, Localization),
}

impl<T: Clone> Clone for Node<T> {
    fn clone(&self) -> (r: Self)
        ensures
            r.location == self.location,
    {
        Node { value: self.value.clone(), location: (self.location.0, self.location.1) }
    }
}

impl<T> Node<T> {
    /// A node for `tree` that stretches from `starts` to `ends`.
    pub fn new(starts: Localization, ends: Localization, tree: T) -> (r: Self)
        ensures
            r.value == tree,
            r.location == (starts, ends),
    {
        Node { value: tree, location: (starts, ends) }
    }

    /// Moves the start of the stretch.
    pub fn starts_at(&mut self, pos: Localization)
        ensures
            final(self).value == old(self).value,
            final(self).location == (pos, old(self).location.1),
    {
        self.location.0 = pos;
    }

    /// Moves the end of the stretch.
    pub fn ends_at(&mut self, pos: Localization)
        ensures
            final(self).value == old(self).value,
            final(self).location == (old(self).location.0, pos),
    {
        self.location.1 = pos;
    }

    /// Moves both ends of the stretch.
    pub fn at(&mut self, start: Localization, end: Localization)
        ensures
            final(self).value == old(self).value,
            final(self).location == (start, end),
    {
        self.location = (start, end);
    }
}

/// The grammar rule for names of variables.
#[derive(Clone, Debug, PartialEq, Eq)]
pub struct EVar;

/// The grammar rule for numbers.
#[derive(Clone, Debug, PartialEq, Eq)]
pub struct ENum;

/// The grammar rule for function applications.
#[derive(Clone, Debug, PartialEq, Eq)]
pub struct EFun;

/// The grammar rule for sums.
#[derive(Clone, Debug, PartialEq, Eq)]
pub struct ESum;

/// The grammar rule for products.
#[derive(Clone, Debug, PartialEq, Eq)]
pub struct EMul;

/// The grammar rule for differences.
#[derive(Clone, Debug, PartialEq, Eq)]
pub struct ESub;

/// The grammar rule for powers.
#[derive(Clone, Debug, PartialEq, Eq)]
pub struct EExp;

/// The grammar rule for quotients.
#[derive(Clone, Debug, PartialEq, Eq)]
pub struct EDiv;

/// The grammar rule for signed operands.
#[derive(Clone, Debug, PartialEq, Eq)]
pub struct ENeg;

/// The grammar rule for whole expressions.
#[derive(Clone, Debug, PartialEq, Eq)]
pub struct EExpression;

/// The grammar rule for atoms: function applications, numbers and variables.
#[derive(Clone, Debug, PartialEq, Eq)]
pub struct EAtom;

/// The grammar rule for operands that may stand in brackets.
#[derive(Clone, Debug, PartialEq, Eq)]
pub struct EBracketedExpression;

/// The syntax tree of an expression; every node knows where it was read.
#[derive(Debug, PartialEq, Eq)]
pub enum ExpressionSyntaxTree {
    Variable(Node<String>),
    Number(Node<Decimal>),
    Fun(Node<(String, Vec<ExpressionSyntaxTree>)>),
    Sum(Box<Node<(ExpressionSyntaxTree, ExpressionSyntaxTree)>>),
    Product(Box<Node<(ExpressionSyntaxTree, ExpressionSyntaxTree)>>),
    Exponent(Box<Node<(ExpressionSyntaxTree, ExpressionSyntaxTree)>>),
    Subtraction(Box<Node<(ExpressionSyntaxTree, ExpressionSyntaxTree)>>),
    Division(Box<Node<(ExpressionSyntaxTree, ExpressionSyntaxTree)>>),
    Negation(Box<Node<ExpressionSyntaxTree>>),
}

/// A stretch of source text: its start and its end.
pub type Span = (Localization, Localization);

/// The mathematical content of a syntax tree.
pub enum Expr {
    Variable(Seq<char>, Span),
    Number(Dec, Span),
    Fun(Seq<char>, Seq<Expr>, Span),
    Sum(Box<Expr>, Box<Expr>, Span),
    Product(Box<Expr>, Box<Expr>, Span),
    Exponent(Box<Expr>, Box<Expr>, Span),
    Subtraction(Box<Expr>, Box<Expr>, Span),
    Division(Box<Expr>, Box<Expr>, Span),
    Negation(Box<Expr>, Span),
}

/// The mathematical content of the syntax trees of a list from index `i` on.
pub open spec fn trees_view_from(v: Seq<ExpressionSyntaxTree>, i: nat) -> Seq<Expr>
    decreases v, v.len() - i,
{
    if i >= v.len() {
        Seq::empty()
    } else {
        seq![v[i as int].view()] + trees_view_from(v, i + 1)
    }
}

/// The mathematical content of a list of syntax trees.
pub open spec fn trees_view(v: Seq<ExpressionSyntaxTree>) -> Seq<Expr>
    decreases v, v.len() + 1,
{
    trees_view_from(v, 0)
}

/// The content of a list of trees is the list of their contents.
pub proof fn lemma_trees_view(v: Seq<ExpressionSyntaxTree>, i: nat)
    requires
        i <= v.len(),
    ensures
        trees_view_from(v, i).len() == v.len() - i,
        forall|j: int| 0 <= j < v.len() - i ==> (#[trigger] trees_view_from(v, i)[j]) == v[i + j]@,
    decreases v.len() - i,
{
    if i < v.len() {
        let rest = trees_view_from(v, (i + 1) as nat);
        lemma_trees_view(v, (i + 1) as nat);
        assert(trees_view_from(v, i) == seq![v[i as int].view()] + rest);
        assert forall|j: int| 0 <= j < v.len() - i implies (#[trigger] trees_view_from(v, i)[j])
            == v[i + j]@ by {
            if j > 0 {
                assert(trees_view_from(v, i)[j] == rest[j - 1]);
            }
        }
    }
}

impl View for ExpressionSyntaxTree {
    type V = Expr;

    open spec fn view(&self) -> Expr
        decreases self, 0nat,
    {
        match self {
            ExpressionSyntaxTree::Variable(n) => Expr::Variable(n.value@, n.location),
            ExpressionSyntaxTree::Number(n) => Expr::Number(n.value@, n.location),
            ExpressionSyntaxTree::Fun(n) => Expr::Fun(n.value.0@, trees_view(n.value.1@), n.location),
            ExpressionSyntaxTree::Sum(n) => Expr::Sum(
                Box::new(n.value.0.view()),
                Box::new(n.value.1.view()),
                n.location,
            ),
            ExpressionSyntaxTree::Product(n) => Expr::Product(
                Box::new(n.value.0.view()),
                Box::new(n.value.1.view()),
                n.location,
            ),
            ExpressionSyntaxTree::Exponent(n) => Expr::Exponent(
                Box::new(n.value.0.view()),
                Box::new(n.value.1.view()),
                n.location,
            ),
            ExpressionSyntaxTree::Subtraction(n) => Expr::Subtraction(
                Box::new(n.value.0.view()),
                Box::new(n.value.1.view()),
                n.location,
            ),
            ExpressionSyntaxTree::Division(n) => Expr::Division(
                Box::new(n.value.0.view()),
                Box::new(n.value.1.view()),
                n.location,
            ),
            ExpressionSyntaxTree::Negation(n) => Expr::Negation(Box::new(n.value.view()), n.location),
        }
    }
}

/// Whether every number of an expression is in the range that this library
/// works with.
pub open spec fn expr_wf(e: Expr) -> bool
    decreases e,
{
    match e {
        Expr::Variable(_, _) => true,
        Expr::Number(d, _) => d.in_range(),
        Expr::Fun(_, args, _) => forall|i: int| 0 <= i < args.len() ==> expr_wf(#[trigger] args[i]),
        Expr::Sum(l, r, _) => expr_wf(*l) && expr_wf(*r),
        Expr::Product(l, r, _) => expr_wf(*l) && expr_wf(*r),
        Expr::Exponent(l, r, _) => expr_wf(*l) && expr_wf(*r),
        Expr::Subtraction(l, r, _) => expr_wf(*l) && expr_wf(*r),
        Expr::Division(l, r, _) => expr_wf(*l) && expr_wf(*r),
        Expr::Negation(v, _) => expr_wf(*v),
    }
}

/// The text of an expression: every binary operation in brackets, the
/// arguments of a function separated by commas.
pub open spec fn show(e: Expr) -> Seq<char>
    decreases e, 0nat,
{
    match e {
        Expr::Variable(name, _) => name,
        Expr::Number(d, _) => decimal_text(d),
        Expr::Fun(name, args, _) => name + seq!['('] + show_list(args, 0) + seq![')'],
        Expr::Sum(l, r, _) => show_binary(show(*l), '+', show(*r)),
        Expr::Product(l, r, _) => show_binary(show(*l), '*', show(*r)),
        Expr::Exponent(l, r, _) => show_binary(show(*l), '^', show(*r)),
        Expr::Subtraction(l, r, _) => show_binary(show(*l), '-', show(*r)),
        Expr::Division(l, r, _) => show_binary(show(*l), '/', show(*r)),
        Expr::Negation(v, _) => seq!['-'] + show(*v),
    }
}

/// Two operands around an operator, in brackets.
pub open spec fn show_binary(left: Seq<char>, operator: char, right: Seq<char>) -> Seq<char> {
    seq!['('] + left + seq![' ', operator, ' '] + right + seq![')']
}

/// The texts of the expressions from index `i` on, separated by commas.
pub open spec fn show_list(args: Seq<Expr>, i: nat) -> Seq<char>
    decreases args, args.len() - i,
{
    if i >= args.len() {
        Seq::empty()
    } else if i + 1 == args.len() {
        show(args[i as int])
    } else {
        show(args[i as int]) + seq![','] + show_list(args, i + 1)
    }
}

impl Clone for ExpressionSyntaxTree {
    fn clone(&self) -> (r: Self)
        ensures
            r@ == self@,
    {
        self.copy()
    }
}

/// A copy of a list of trees.
pub fn copy_trees(v: &Vec<ExpressionSyntaxTree>) -> (r: Vec<ExpressionSyntaxTree>)
    ensures
        trees_view(r@) == trees_view(v@),
    decreases v,
{
    let mut r: Vec<ExpressionSyntaxTree> = Vec::new();
    let mut i: usize = 0;
    while i < v.len()
        invariant
            i <= v@.len(),
            r@.len() == i,
            forall|j: int| 0 <= j < i ==> (#[trigger] r@[j])@ == v@[j]@,
        decreases v@.len() - i,
    {
        proof {
            assert(decreases_to!(v => v@[i as int]));
        }
        let tree = v[i].copy();
        r.push(tree);
        i = i + 1;
    }
    proof {
        lemma_trees_view(r@, 0);
        lemma_trees_view(v@, 0);
        assert(trees_view(r@) =~= trees_view(v@)) by {
            assert forall|j: int| 0 <= j < v@.len() implies trees_view(r@)[j] == trees_view(v@)[j] by {
                assert(trees_view_from(r@, 0)[j] == r@[0 + j]@);
                assert(trees_view_from(v@, 0)[j] == v@[0 + j]@);
            }
        }
    }
    r
}

impl ExpressionSyntaxTree {
    /// A copy of this tree.
    pub fn copy(&self) -> (r: Self)
        ensures
            r@ == self@,
        decreases self,
    {
        match self {
            ExpressionSyntaxTree::Variable(n) => ExpressionSyntaxTree::Variable(
                Node::new(n.location.0, n.location.1, n.value.clone()),
            ),
            ExpressionSyntaxTree::Number(n) => ExpressionSyntaxTree::Number(
                Node::new(n.location.0, n.location.1, n.value.copy()),
            ),
            ExpressionSyntaxTree::Fun(n) => {
                proof {
                    assert(decreases_to!(self => n));
                }
                let arguments = copy_trees(&n.value.1);
                ExpressionSyntaxTree::Fun(
                    Node::new(n.location.0, n.location.1, (n.value.0.clone(), arguments)),
                )
            },
            ExpressionSyntaxTree::Sum(n) => {
                let left = n.value.0.copy();
                let right = n.value.1.copy();
                ExpressionSyntaxTree::add(n.location.0, n.location.1, left, right)
            },
            ExpressionSyntaxTree::Product(n) => {
                let left = n.value.0.copy();
                let right = n.value.1.copy();
                ExpressionSyntaxTree::mul(n.location.0, n.location.1, left, right)
            },
            ExpressionSyntaxTree::Exponent(n) => {
                let left = n.value.0.copy();
                let right = n.value.1.copy();
                ExpressionSyntaxTree::exp(n.location.0, n.location.1, left, right)
            },
            ExpressionSyntaxTree::Subtraction(n) => {
                let left = n.value.0.copy();
                let right = n.value.1.copy();
                ExpressionSyntaxTree::sub(n.location.0, n.location.1, left, right)
            },
            ExpressionSyntaxTree::Division(n) => {
                let left = n.value.0.copy();
                let right = n.value.1.copy();
                ExpressionSyntaxTree::div(n.location.0, n.location.1, left, right)
            },
            ExpressionSyntaxTree::Negation(n) => {
                let inner = n.value.copy();
                ExpressionSyntaxTree::neg(n.location.0, n.location.1, inner)
            },
        }
    }

    /// Whether every number of this tree is in range.
    pub open spec fn wf(&self) -> bool {
        expr_wf(self@)
    }

    pub fn number(starts: Localization, ends: Localization, num: Decimal) -> (r: Self)
        ensures
            r@ == Expr::Number(num@, (starts, ends)),
    {
        ExpressionSyntaxTree::Number(Node::new(starts, ends, num))
    }

    pub fn variable(starts: Localization, ends: Localization, name: String) -> (r: Self)
        ensures
            r@ == Expr::Variable(name@, (starts, ends)),
    {
        ExpressionSyntaxTree::Variable(Node::new(starts, ends, name))
    }

    pub fn add(starts: Localization, ends: Localization, left: Self, right: Self) -> (r: Self)
        ensures
            r@ == Expr::Sum(Box::new(left@), Box::new(right@), (starts, ends)),
    {
        ExpressionSyntaxTree::Sum(Box::new(Node::new(starts, ends, (left, right))))
    }

    pub fn mul(starts: Localization, ends: Localization, left: Self, right: Self) -> (r: Self)
        ensures
            r@ == Expr::Product(Box::new(left@), Box::new(right@), (starts, ends)),
    {
        ExpressionSyntaxTree::Product(Box::new(Node::new(starts, ends, (left, right))))
    }

    pub fn sub(starts: Localization, ends: Localization, left: Self, right: Self) -> (r: Self)
        ensures
            r@ == Expr::Subtraction(Box::new(left@), Box::new(right@), (starts, ends)),
    {
        ExpressionSyntaxTree::Subtraction(Box::new(Node::new(starts, ends, (left, right))))
    }

    pub fn div(starts: Localization, ends: Localization, left: Self, right: Self) -> (r: Self)
        ensures
            r@ == Expr::Division(Box::new(left@), Box::new(right@), (starts, ends)),
    {
        ExpressionSyntaxTree::Division(Box::new(Node::new(starts, ends, (left, right))))
    }

    pub fn exp(starts: Localization, ends: Localization, left: Self, right: Self) -> (r: Self)
        ensures
            r@ == Expr::Exponent(Box::new(left@), Box::new(right@), (starts, ends)),
    {
        ExpressionSyntaxTree::Exponent(Box::new(Node::new(starts, ends, (left, right))))
    }

    pub fn neg(starts: Localization, ends: Localization, value: Self) -> (r: Self)
        ensures
            r@ == Expr::Negation(Box::new(value@), (starts, ends)),
    {
        ExpressionSyntaxTree::Negation(Box::new(Node::new(starts, ends, value)))
    }

    pub fn fun(starts: Localization, ends: Localization, name: String, vec: Vec<Self>) -> (r: Self)
        ensures
            r@ == Expr::Fun(name@, trees_view(vec@), (starts, ends)),
    {
        ExpressionSyntaxTree::Fun(Node::new(starts, ends, (name, vec)))
    }

    /// The text of this tree.
    pub fn to_string(&self) -> (r: String)
        ensures
            r@ == show(self@),
        decreases self,
    {
        match self {
            ExpressionSyntaxTree::Variable(n) => n.value.clone(),
            ExpressionSyntaxTree::Number(n) => n.value.to_text(),
            ExpressionSyntaxTree::Fun(n) => {
                let ghost args = trees_view(n.value.1@);
                let mut r = n.value.0.clone();
                push_char(&mut r, '(');
                let ghost head = r@;
                let mut i: usize = 0;
                proof {
                    lemma_trees_view(n.value.1@, 0);
                    assert forall|j: int| 0 <= j < args.len() implies args[j] == (
                    #[trigger] n.value.1@[j])@ by {
                        assert(trees_view_from(n.value.1@, 0)[j] == n.value.1@[0 + j]@);
                    }
                }
                while i < n.value.1.len()
                    invariant
                        i <= n.value.1@.len(),
                        args == trees_view(n.value.1@),
                        args.len() == n.value.1@.len(),
                        *self matches ExpressionSyntaxTree::Fun(nn) && nn == n,
                        forall|j: int| 0 <= j < args.len() ==> args[j] == (#[trigger] n.value.1@[j])@,
                        r@ + show_list(args, i as nat) == head + show_list(args, 0),
                    decreases n.value.1@.len() - i,
                {
                    proof {
                        assert(decreases_to!(self => n));
                        assert(decreases_to!(n.value.1 => n.value.1@[i as int]));
                        assert(args[i as int] == n.value.1@[i as int]@);
                    }
                    let ghost before = r@;
                    r.append(n.value.1[i].to_string().as_str());
                    if i + 1 < n.value.1.len() {
                        push_char(&mut r, ',');
                        assert(r@ + show_list(args, i as nat + 1) =~= before + show_list(
                            args,
                            i as nat,
                        ));
                    } else {
                        assert(show_list(args, i as nat + 1) =~= Seq::<char>::empty());
                        assert(r@ + show_list(args, i as nat + 1) =~= before + show_list(
                            args,
                            i as nat,
                        ));
                    }
                    i = i + 1;
                }
                assert(r@ + show_list(args, i as nat) =~= r@);
                push_char(&mut r, ')');
                assert(r@ =~= show(self@));
                r
            },
            ExpressionSyntaxTree::Sum(n) => binary_text(
                n.value.0.to_string(),
                '+',
                n.value.1.to_string(),
            ),
            ExpressionSyntaxTree::Product(n) => binary_text(
                n.value.0.to_string(),
                '*',
                n.value.1.to_string(),
            ),
            ExpressionSyntaxTree::Exponent(n) => binary_text(
                n.value.0.to_string(),
                '^',
                n.value.1.to_string(),
            ),
            ExpressionSyntaxTree::Subtraction(n) => binary_text(
                n.value.0.to_string(),
                '-',
                n.value.1.to_string(),
            ),
            ExpressionSyntaxTree::Division(n) => binary_text(
                n.value.0.to_string(),
                '/',
                n.value.1.to_string(),
            ),
            ExpressionSyntaxTree::Negation(n) => {
                let mut r = String::new();
                push_char(&mut r, '-');
                r.append(n.value.to_string().as_str());
                assert(r@ =~= show(self@));
                r
            },
        }
    }
}

/// Two operands around an operator, in brackets.
pub fn binary_text(left: String, operator: char, right: String) -> (r: String)
    ensures
        r@ == show_binary(left@, operator, right@),
{
    let mut r = String::new();
    push_char(&mut r, '(');
    r.append(left.as_str());
    push_char(&mut r, ' ');
    push_char(&mut r, operator);
    push_char(&mut r, ' ');
    r.append(right.as_str());
    push_char(&mut r, ')');
    assert(r@ =~= show_binary(left@, operator, right@));
    r
}

/// What a source text is parsed into.
#[derive(Clone, Debug, PartialEq, Eq)]
pub enum SyntaxTree {
    Expression(ExpressionSyntaxTree),
}

impl SyntaxTree {
    /// The expression that this tree holds.
    pub open spec fn expression(&self) -> Expr {
        match self {
            SyntaxTree::Expression(e) => e@,
        }
    }

    /// The text of this tree.
    pub fn to_string(&self) -> (r: String)
        ensures
            r@ == show(self.expression()),
    {
        match self {
            SyntaxTree::Expression(e) => e.to_string(),
        }
    }
}

} // verus!
