//! Evaluation of syntax trees into canonical values.

use crate::ast::multiply::exp_spec;
use crate::ast::multiply::mul_spec;
use crate::ast::values::add_spec;
use crate::ast::values::Term;
use crate::ast::values::Values;
use crate::ast::EvaluationError;
use crate::ast::Expr;
use crate::ast::ExpressionSyntaxTree;
use crate::ast::Localization;
use crate::ast::SyntaxTree;
use crate::decimal::Dec;
use crate::decimal::Decimal;
use crate::decimal::SCALE_LIMIT;
use vstd::prelude::*;

verus! {

/// The names that an evaluation knows: variables and functions, each bound
/// to a definition and to the place where it was given.
pub struct Context {
    variable_dict: Vec<(String, (ExpressionSyntaxTree, Localization))>,
    fun_dict: Vec<(String, (ExpressionSyntaxTree, Localization))>,
}

/// The mathematical content of a dictionary: names and their definitions,
/// in the order in which they were bound.
pub open spec fn dict_view(d: Seq<(String, (ExpressionSyntaxTree, Localization))>) -> Seq<
    (Seq<char>, (Expr, Localization)),
> {
    Seq::new(d.len(), |i: int| (d[i].0@, (d[i].1.0@, d[i].1.1)))
}

/// The definition bound to `name` in `dict` and the place where it was
/// given, looking from index `i` on: those of the first entry of this name.
pub open spec fn find(dict: Seq<(Seq<char>, (Expr, Localization))>, name: Seq<char>, i: nat) -> Option<
    (Expr, Localization),
>
    decreases dict.len() - i,
{
    if i >= dict.len() {
        None
    } else if dict[i as int].0 == name {
        Some(dict[i as int].1)
    } else {
        find(dict, name, (i + 1) as nat)
    }
}

/// The number minus one.
pub open spec fn minus_one() -> Term {
    Term::Number(Dec::integer(-1))
}

/// The difference of two terms: the first plus minus one times the second.
pub open spec fn subtract_spec(a: Term, b: Term) -> Result<Term, EvaluationError> {
    match mul_spec(b, minus_one()) {
        Err(e) => Err(e),
        Ok(negated) => Ok(add_spec(a, negated)),
    }
}

/// The quotient of two terms: the first times the second to the power of
/// minus one.
pub open spec fn divide_spec(a: Term, b: Term) -> Result<Term, EvaluationError> {
    match exp_spec(b, minus_one()) {
        Err(e) => Err(e),
        Ok(inverse) => mul_spec(a, inverse),
    }
}

/// What an expression evaluates to where `variables` and `functions` are
/// bound.
///
/// A number is itself, unless out of range. A variable is what its
/// definition evaluates to, and a free symbol where it has none. The
/// arithmetic nodes combine what their operands evaluate to, the left one
/// first. A function that is bound is what its definition evaluates to;
/// applying one that is not is an error. Definitions are evaluated with
/// nothing bound.
pub open spec fn evaluate_spec(
    e: Expr,
    variables: Seq<(Seq<char>, (Expr, Localization))>,
    functions: Seq<(Seq<char>, (Expr, Localization))>,
) -> Result<Term, EvaluationError>
    decreases variables.len() + functions.len(), e,
{
    match e {
        Expr::Number(d, _) => if d.in_range() {
            Ok(Term::Number(d))
        } else {
            Err(EvaluationError::OutOfRange)
        },
        Expr::Variable(name, _) => match find(variables, name, 0) {
            None => Ok(Term::Variable(name)),
            Some(definition) => evaluate_spec(definition.0, Seq::empty(), Seq::empty()),
        },
        Expr::Fun(name, _, location) => match find(functions, name, 0) {
            None => Err(EvaluationError::UnboundFunction(location.0)),
            Some(definition) => evaluate_spec(definition.0, Seq::empty(), Seq::empty()),
        },
        Expr::Sum(l, r, _) => match evaluate_spec(*l, variables, functions) {
            Err(e) => Err(e),
            Ok(a) => match evaluate_spec(*r, variables, functions) {
                Err(e) => Err(e),
                Ok(b) => Ok(add_spec(a, b)),
            },
        },
        Expr::Product(l, r, _) => match evaluate_spec(*l, variables, functions) {
            Err(e) => Err(e),
            Ok(a) => match evaluate_spec(*r, variables, functions) {
                Err(e) => Err(e),
                Ok(b) => mul_spec(a, b),
            },
        },
        Expr::Exponent(l, r, _) => match evaluate_spec(*l, variables, functions) {
            Err(e) => Err(e),
            Ok(a) => match evaluate_spec(*r, variables, functions) {
                Err(e) => Err(e),
                Ok(b) => exp_spec(a, b),
            },
        },
        Expr::Subtraction(l, r, _) => match evaluate_spec(*l, variables, functions) {
            Err(e) => Err(e),
            Ok(a) => match evaluate_spec(*r, variables, functions) {
                Err(e) => Err(e),
                Ok(b) => subtract_spec(a, b),
            },
        },
        Expr::Division(l, r, _) => match evaluate_spec(*l, variables, functions) {
            Err(e) => Err(e),
            Ok(a) => match evaluate_spec(*r, variables, functions) {
                Err(e) => Err(e),
                Ok(b) => divide_spec(a, b),
            },
        },
        Expr::Negation(v, _) => match evaluate_spec(*v, variables, functions) {
            Err(e) => Err(e),
            Ok(a) => mul_spec(a, minus_one()),
        },
    }
}

/// Looks a name up in a dictionary.
fn lookup<'a>(dict: &'a Vec<(String, (ExpressionSyntaxTree, Localization))>, name: &str) -> (r:
    Option<&'a (ExpressionSyntaxTree, Localization)>)
    ensures
        match r {
            Some(found) => find(dict_view(dict@), name@, 0) == Some((found.0@, found.1)),
            None => find(dict_view(dict@), name@, 0) is None,
        },
{
    let ghost d = dict_view(dict@);
    let wanted = String::from_str(name);
    let mut i: usize = 0;
    while i < dict.len()
        invariant
            i <= dict@.len(),
            wanted@ == name@,
            d == dict_view(dict@),
            find(d, name@, 0) == find(d, name@, i as nat),
        decreases dict@.len() - i,
    {
        assert(d[i as int] == (dict@[i as int].0@, (dict@[i as int].1.0@, dict@[i as int].1.1)));
        if dict[i].0 == wanted {
            return Some(&dict[i].1);
        }
        i = i + 1;
    }
    None
}

impl Context {
    /// The variables that are bound, with their definitions.
    pub closed spec fn variables(&self) -> Seq<(Seq<char>, (Expr, Localization))> {
        dict_view(self.variable_dict@)
    }

    /// The functions that are bound, with their definitions.
    pub closed spec fn functions(&self) -> Seq<(Seq<char>, (Expr, Localization))> {
        dict_view(self.fun_dict@)
    }

    /// A context in which nothing is bound.
    pub fn new() -> (r: Context)
        ensures
            r.variables() == Seq::<(Seq<char>, (Expr, Localization))>::empty(),
            r.functions() == Seq::<(Seq<char>, (Expr, Localization))>::empty(),
    {
        let r = Context { variable_dict: Vec::new(), fun_dict: Vec::new() };
        assert(r.variables() =~= Seq::<(Seq<char>, (Expr, Localization))>::empty());
        assert(r.functions() =~= Seq::<(Seq<char>, (Expr, Localization))>::empty());
        r
    }

    /// Binds a variable; an earlier binding of the name stays in force.
    pub fn define_variable(&mut self, name: String, definition: ExpressionSyntaxTree, at: Localization)
        ensures
            final(self).variables() == old(self).variables().push((name@, (definition@, at))),
            final(self).functions() == old(self).functions(),
    {
        self.variable_dict.push((name, (definition, at)));
        assert(self.variables() =~= old(self).variables().push((name@, (definition@, at))));
    }

    /// Binds a function; an earlier binding of the name stays in force.
    pub fn define_function(&mut self, name: String, definition: ExpressionSyntaxTree, at: Localization)
        ensures
            final(self).functions() == old(self).functions().push((name@, (definition@, at))),
            final(self).variables() == old(self).variables(),
    {
        self.fun_dict.push((name, (definition, at)));
        assert(self.functions() =~= old(self).functions().push((name@, (definition@, at))));
    }

    /// The definition of a variable and where it was given, if it is bound.
    pub fn lookup_variable(&self, name: &str) -> (r: Option<&(ExpressionSyntaxTree, Localization)>)
        ensures
            match r {
                Some(found) => find(self.variables(), name@, 0) == Some((found.0@, found.1)),
                None => find(self.variables(), name@, 0) is None,
            },
    {
        lookup(&self.variable_dict, name)
    }

    /// The definition of a function and where it was given, if it is bound.
    pub fn lookup_function(&self, name: &str) -> (r: Option<&(ExpressionSyntaxTree, Localization)>)
        ensures
            match r {
                Some(found) => find(self.functions(), name@, 0) == Some((found.0@, found.1)),
                None => find(self.functions(), name@, 0) is None,
            },
    {
        lookup(&self.fun_dict, name)
    }
}

/// The value minus one.
fn minus_one_value() -> (r: Values)
    ensures
        r@ == minus_one(),
        r.wf(),
{
    Values::Number(Decimal::from_i8(-1))
}

impl ExpressionSyntaxTree {
    /// Evaluates this tree to its canonical value.
    ///
    /// Fails where a function is applied that the context does not define,
    /// where a number is raised to a power that is no integer, and where a
    /// number leaves the range that this library works with.
    pub fn eval(&self, ctx: &Context) -> (r: Result<Values, EvaluationError>)
        ensures
            match r {
                Ok(v) => evaluate_spec(self@, ctx.variables(), ctx.functions()) == Ok::<
                    Term,
                    EvaluationError,
                >(v@) && v.wf(),
                Err(e) => evaluate_spec(self@, ctx.variables(), ctx.functions()) == Err::<
                    Term,
                    EvaluationError,
                >(e),
            },
        decreases ctx.variables().len() + ctx.functions().len(), self,
    {
        match self {
            ExpressionSyntaxTree::Number(n) => {
                if -SCALE_LIMIT <= n.value.scale && n.value.scale <= SCALE_LIMIT {
                    Ok(Values::Number(n.value.copy()))
                } else {
                    Err(EvaluationError::OutOfRange)
                }
            },
            ExpressionSyntaxTree::Variable(n) => match ctx.lookup_variable(n.value.as_str()) {
                None => Ok(Values::Variable(n.value.clone())),
                Some(found) => {
                    let empty = Context::new();
                    found.0.eval(&empty)
                },
            },
            ExpressionSyntaxTree::Fun(n) => match ctx.lookup_function(n.value.0.as_str()) {
                None => Err(EvaluationError::UnboundFunction(n.location.0)),
                Some(found) => {
                    let empty = Context::new();
                    found.0.eval(&empty)
                },
            },
            ExpressionSyntaxTree::Sum(n) => {
                let a = match n.value.0.eval(ctx) {
                    Err(e) => { return Err(e); },
                    Ok(a) => a,
                };
                let b = match n.value.1.eval(ctx) {
                    Err(e) => { return Err(e); },
                    Ok(b) => b,
                };
                Ok(a.add(b))
            },
            ExpressionSyntaxTree::Product(n) => {
                let a = match n.value.0.eval(ctx) {
                    Err(e) => { return Err(e); },
                    Ok(a) => a,
                };
                let b = match n.value.1.eval(ctx) {
                    Err(e) => { return Err(e); },
                    Ok(b) => b,
                };
                a.mul(b)
            },
            ExpressionSyntaxTree::Exponent(n) => {
                let a = match n.value.0.eval(ctx) {
                    Err(e) => { return Err(e); },
                    Ok(a) => a,
                };
                let b = match n.value.1.eval(ctx) {
                    Err(e) => { return Err(e); },
                    Ok(b) => b,
                };
                a.exp(b)
            },
            ExpressionSyntaxTree::Subtraction(n) => {
                let a = match n.value.0.eval(ctx) {
                    Err(e) => { return Err(e); },
                    Ok(a) => a,
                };
                let b = match n.value.1.eval(ctx) {
                    Err(e) => { return Err(e); },
                    Ok(b) => b,
                };
                match b.mul(minus_one_value()) {
                    Err(e) => Err(e),
                    Ok(negated) => Ok(a.add(negated)),
                }
            },
            ExpressionSyntaxTree::Division(n) => {
                let a = match n.value.0.eval(ctx) {
                    Err(e) => { return Err(e); },
                    Ok(a) => a,
                };
                let b = match n.value.1.eval(ctx) {
                    Err(e) => { return Err(e); },
                    Ok(b) => b,
                };
                match b.exp(minus_one_value()) {
                    Err(e) => Err(e),
                    Ok(inverse) => a.mul(inverse),
                }
            },
            ExpressionSyntaxTree::Negation(n) => {
                match n.value.eval(ctx) {
                    Err(e) => Err(e),
                    Ok(a) => a.mul(minus_one_value()),
                }
            },
        }
    }
}

impl SyntaxTree {
    /// Evaluates the expression of this tree to its canonical value.
    pub fn eval(&self, ctx: &mut Context) -> (r: Result<Values, EvaluationError>)
        ensures
            final(ctx).variables() == old(ctx).variables(),
            final(ctx).functions() == old(ctx).functions(),
            match r {
                Ok(v) => evaluate_spec(
                    self.expression(),
                    old(ctx).variables(),
                    old(ctx).functions(),
                ) == Ok::<Term, EvaluationError>(v@) && v.wf(),
                Err(e) => evaluate_spec(
                    self.expression(),
                    old(ctx).variables(),
                    old(ctx).functions(),
                ) == Err::<Term, EvaluationError>(e),
            },
    {
        match self {
            SyntaxTree::Expression(e) => e.eval(ctx),
        }
    }
}

} // verus!
