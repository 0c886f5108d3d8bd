//! Resolved expressions: the parts of the tree that the checks here build
//! and read.

use vstd::prelude::*;
use crate::diagnostics::{DiagnosticView, Loc};
use crate::number::{Number, Rational, lowest_terms};
use crate::types::{Type, TypeView, copy_types, view_types};

verus! {

/// How an argument of a format string is printed.
#[derive(Clone, Copy, Debug, PartialEq, Eq, Structural)]
pub enum FormatArg {
    StringLiteral,
    Default,
    Binary,
    Hex,
}

/// A resolved expression.
#[derive(Debug)]
#[allow(inconsistent_fields)]
pub enum Expression {
    BoolLiteral { loc: Loc, value: bool },
    BytesLiteral { loc: Loc, ty: Type, value: Vec<u8> },
    NumberLiteral { loc: Loc, ty: Type, value: Number },
    RationalNumberLiteral { loc: Loc, ty: Type, value: Rational },
    AllocDynamicBytes { loc: Loc, ty: Type, length: Box<Expression>, init: Option<Vec<u8>> },
    ZeroExt { loc: Loc, to: Type, expr: Box<Expression> },
    SignExt { loc: Loc, to: Type, expr: Box<Expression> },
    Trunc { loc: Loc, to: Type, expr: Box<Expression> },
    Variable { loc: Loc, ty: Type, var_no: usize },
    FormatString { loc: Loc, format: Vec<(FormatArg, Expression)> },
    InternalFunction { loc: Loc, ty: Type, function_no: usize, signature: Option<String> },
    InternalFunctionCall { loc: Loc, results: Vec<Type>, function: Box<Expression>, args: Vec<Expression> },
}

/// The accounts argument of an external call or constructor call.
pub enum ExternalCallAccounts {
    /// The call takes no accounts.
    NoAccount,
    /// The accounts were given.
    Present(Box<Expression>),
    /// The accounts were not given.
    AbsentArgument,
}

impl ExternalCallAccounts {
    /// Whether the accounts argument was left out.
    pub fn is_absent(&self) -> (res: bool)
        ensures
            res == (*self is AbsentArgument),
    {
        match self {
            ExternalCallAccounts::AbsentArgument => true,
            _ => false,
        }
    }
}

/// The call arguments, in braces, that the checks here read.
pub struct CallArgs {
    pub accounts: ExternalCallAccounts,
}

/// A resolved expression as contracts speak of it.
#[allow(inconsistent_fields)]
pub enum ExpressionView {
    BoolLiteral { loc: Loc, value: bool },
    BytesLiteral { loc: Loc, ty: TypeView, value: Seq<u8> },
    NumberLiteral { loc: Loc, ty: TypeView, value: int },
    RationalNumberLiteral { loc: Loc, ty: TypeView, numer: int, denom: int },
    AllocDynamicBytes { loc: Loc, ty: TypeView, length: Box<ExpressionView>, init: Option<Seq<u8>> },
    ZeroExt { loc: Loc, to: TypeView, expr: Box<ExpressionView> },
    SignExt { loc: Loc, to: TypeView, expr: Box<ExpressionView> },
    Trunc { loc: Loc, to: TypeView, expr: Box<ExpressionView> },
    Variable { loc: Loc, ty: TypeView, var_no: usize },
    FormatString { loc: Loc, format: Seq<(FormatArg, ExpressionView)> },
    InternalFunction { loc: Loc, ty: TypeView, function_no: usize, signature: Option<Seq<char>> },
    InternalFunctionCall { loc: Loc, results: Seq<TypeView>, function: Box<ExpressionView>, args: Seq<ExpressionView> },
}

/// The view of an expression.
pub open spec fn view_expr(e: Expression) -> ExpressionView
    decreases e, 1int,
{
    match e {
        Expression::BoolLiteral { loc, value } => ExpressionView::BoolLiteral { loc, value },
        Expression::BytesLiteral { loc, ty, value } => ExpressionView::BytesLiteral { loc, ty: ty@, value: value@ },
        Expression::NumberLiteral { loc, ty, value } => ExpressionView::NumberLiteral { loc, ty: ty@, value: value.value() },
        Expression::RationalNumberLiteral { loc, ty, value } => ExpressionView::RationalNumberLiteral {
            loc,
            ty: ty@,
            numer: value.numer.value(),
            denom: value.denom.value(),
        },
        Expression::AllocDynamicBytes { loc, ty, length, init } => ExpressionView::AllocDynamicBytes {
            loc,
            ty: ty@,
            length: Box::new(view_expr(*length)),
            init: match init {
                Some(v) => Some(v@),
                None => None,
            },
        },
        Expression::ZeroExt { loc, to, expr } => ExpressionView::ZeroExt { loc, to: to@, expr: Box::new(view_expr(*expr)) },
        Expression::SignExt { loc, to, expr } => ExpressionView::SignExt { loc, to: to@, expr: Box::new(view_expr(*expr)) },
        Expression::Trunc { loc, to, expr } => ExpressionView::Trunc { loc, to: to@, expr: Box::new(view_expr(*expr)) },
        Expression::Variable { loc, ty, var_no } => ExpressionView::Variable { loc, ty: ty@, var_no },
        Expression::FormatString { loc, format } => ExpressionView::FormatString { loc, format: view_format(format@) },
        Expression::InternalFunction { loc, ty, function_no, signature } => ExpressionView::InternalFunction {
            loc,
            ty: ty@,
            function_no,
            signature: match signature {
                Some(s) => Some(s@),
                None => None,
            },
        },
        Expression::InternalFunctionCall { loc, results, function, args } => ExpressionView::InternalFunctionCall {
            loc,
            results: view_types(results@),
            function: Box::new(view_expr(*function)),
            args: view_list(args@),
        },
    }
}

/// The views of a list of expressions.
pub open spec fn view_list(s: Seq<Expression>) -> Seq<ExpressionView>
    decreases s, 0int,
{
    if s.len() == 0 {
        Seq::empty()
    } else {
        view_list(s.drop_last()).push(view_expr(s.last()))
    }
}

/// The views of the parts of a format string.
pub open spec fn view_format(s: Seq<(FormatArg, Expression)>) -> Seq<(FormatArg, ExpressionView)>
    decreases s, 0int,
{
    if s.len() == 0 {
        Seq::empty()
    } else {
        view_format(s.drop_last()).push((s.last().0, view_expr(s.last().1)))
    }
}

impl View for Expression {
    type V = ExpressionView;

    open spec fn view(&self) -> ExpressionView {
        view_expr(*self)
    }
}

impl ExpressionView {
    /// The location of an expression.
    pub open spec fn loc(self) -> Loc {
        match self {
            ExpressionView::BoolLiteral { loc, .. } => loc,
            ExpressionView::BytesLiteral { loc, .. } => loc,
            ExpressionView::NumberLiteral { loc, .. } => loc,
            ExpressionView::RationalNumberLiteral { loc, .. } => loc,
            ExpressionView::AllocDynamicBytes { loc, .. } => loc,
            ExpressionView::ZeroExt { loc, .. } => loc,
            ExpressionView::SignExt { loc, .. } => loc,
            ExpressionView::Trunc { loc, .. } => loc,
            ExpressionView::Variable { loc, .. } => loc,
            ExpressionView::FormatString { loc, .. } => loc,
            ExpressionView::InternalFunction { loc, .. } => loc,
            ExpressionView::InternalFunctionCall { loc, .. } => loc,
        }
    }

    /// Whether the expression has one type: a call gives as many values as
    /// the function returns.
    pub open spec fn has_one_type(self) -> bool {
        self is InternalFunctionCall ==> self->InternalFunctionCall_results.len() == 1
    }

    /// The type of an expression.
    pub open spec fn ty(self) -> TypeView {
        match self {
            ExpressionView::BoolLiteral { .. } => TypeView::Bool,
            ExpressionView::BytesLiteral { ty, .. } => ty,
            ExpressionView::NumberLiteral { ty, .. } => ty,
            ExpressionView::RationalNumberLiteral { ty, .. } => ty,
            ExpressionView::AllocDynamicBytes { ty, .. } => ty,
            ExpressionView::ZeroExt { to, .. } => to,
            ExpressionView::SignExt { to, .. } => to,
            ExpressionView::Trunc { to, .. } => to,
            ExpressionView::Variable { ty, .. } => ty,
            ExpressionView::FormatString { .. } => TypeView::String,
            ExpressionView::InternalFunction { ty, .. } => ty,
            ExpressionView::InternalFunctionCall { results, .. } => results[0],
        }
    }
}

impl Expression {
    /// The location of this expression.
    pub fn loc(&self) -> (res: Loc)
        ensures
            res == self@.loc(),
    {
        match self {
            Expression::BoolLiteral { loc, .. } => *loc,
            Expression::BytesLiteral { loc, .. } => *loc,
            Expression::NumberLiteral { loc, .. } => *loc,
            Expression::RationalNumberLiteral { loc, .. } => *loc,
            Expression::AllocDynamicBytes { loc, .. } => *loc,
            Expression::ZeroExt { loc, .. } => *loc,
            Expression::SignExt { loc, .. } => *loc,
            Expression::Trunc { loc, .. } => *loc,
            Expression::Variable { loc, .. } => *loc,
            Expression::FormatString { loc, .. } => *loc,
            Expression::InternalFunction { loc, .. } => *loc,
            Expression::InternalFunctionCall { loc, .. } => *loc,
        }
    }

    /// The type of this expression.
    pub fn ty(&self) -> (res: Type)
        requires
            self@.has_one_type(),
        ensures
            res@ == self@.ty(),
    {
        match self {
            Expression::BoolLiteral { .. } => Type::Bool,
            Expression::BytesLiteral { ty, .. } => ty.copy(),
            Expression::NumberLiteral { ty, .. } => ty.copy(),
            Expression::RationalNumberLiteral { ty, .. } => ty.copy(),
            Expression::AllocDynamicBytes { ty, .. } => ty.copy(),
            Expression::ZeroExt { to, .. } => to.copy(),
            Expression::SignExt { to, .. } => to.copy(),
            Expression::Trunc { to, .. } => to.copy(),
            Expression::Variable { ty, .. } => ty.copy(),
            Expression::FormatString { .. } => Type::String,
            Expression::InternalFunction { ty, .. } => ty.copy(),
            Expression::InternalFunctionCall { results, .. } => {
                proof {
                    crate::types::lemma_view_types(results@);
                }
                results[0].copy()
            },
        }
    }
}

impl Expression {
    /// The types of the values of this expression: those that a function
    /// call returns, or the one type of any other expression.
    pub fn tys(&self) -> (res: Vec<Type>)
        ensures
            view_types(res@) == (match self@ {
                ExpressionView::InternalFunctionCall { results, .. } => results,
                _ => seq![self@.ty()],
            }),
    {
        match self {
            Expression::InternalFunctionCall { results, .. } => copy_types(results),
            _ => {
                let res = vec![self.ty()];
                proof {
                    crate::types::lemma_view_types(res@);
                }
                assert(view_types(res@) =~= seq![self@.ty()]);
                res
            },
        }
    }
}

/// The views of a list of format parts are those of its elements.
pub proof fn lemma_view_format(s: Seq<(FormatArg, Expression)>)
    ensures
        view_format(s).len() == s.len(),
        forall|i: int| 0 <= i < s.len() ==> #[trigger] view_format(s)[i] == (s[i].0, s[i].1@),
    decreases s.len(),
{
    if s.len() > 0 {
        lemma_view_format(s.drop_last());
    }
}

/// What resolving a literal comes to: an expression; a fraction, which is
/// kept in lowest terms; or diagnostics and failure.
pub enum LiteralOutcome {
    Value(ExpressionView),
    Fraction { loc: Loc, n: int, d: int },
    Failure(Seq<DiagnosticView>),
}

/// The result `res`, with the diagnostics going from `before` to `after`,
/// is `outcome`: a fraction comes as a rational number literal of type
/// `rational` holding it in lowest terms, and a failure as an error with
/// its diagnostics added.
pub open spec fn resolved_as(
    res: Result<Expression, ()>,
    before: Seq<DiagnosticView>,
    after: Seq<DiagnosticView>,
    outcome: LiteralOutcome,
) -> bool {
    match outcome {
        LiteralOutcome::Value(e) => res matches Ok(r) && r@ == e && after == before,
        LiteralOutcome::Fraction { loc, n, d } => {
            &&& res matches Ok(r) && r@ matches ExpressionView::RationalNumberLiteral { loc: l, ty, numer, denom }
                && l == loc && ty == TypeView::Rational && lowest_terms(numer, denom, n, d)
            &&& after == before
        },
        LiteralOutcome::Failure(ds) => res is Err && after == before + ds,
    }
}

} // verus!
