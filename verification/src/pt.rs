//! The parts of the parse tree that the checks here read.

use vstd::prelude::*;
use vstd::utf8::*;
use crate::diagnostics::Loc;

verus! {

/// A string literal of the source: where it is, whether it was written
/// `unicode"..."`, and its text between the quotes.
pub struct StringLiteral {
    pub loc: Loc,
    pub unicode: bool,
    pub string: String,
}

impl StringLiteral {
    /// No location of a character of this literal overflows.
    pub open spec fn offsets_fit(&self) -> bool {
        self.loc matches Loc::File(_, start, _) ==> start + encode_utf8(self.string@).len() <= usize::MAX
    }
}

/// A hex string literal of the source: where it is, and its digits between
/// the quotes.
pub struct HexLiteral {
    pub loc: Loc,
    pub hex: String,
}

/// The kind of a function.
#[derive(Clone, Copy, Debug, PartialEq, Eq, Structural)]
pub enum FunctionTy {
    Constructor,
    Function,
    Fallback,
    Receive,
    Modifier,
}

impl FunctionTy {
    /// The name of the kind.
    pub open spec fn spec_name(self) -> Seq<char> {
        match self {
            FunctionTy::Constructor => "constructor"@,
            FunctionTy::Function => "function"@,
            FunctionTy::Fallback => "fallback"@,
            FunctionTy::Receive => "receive"@,
            FunctionTy::Modifier => "modifier"@,
        }
    }

    /// The name of the kind.
    pub fn name(&self) -> (res: &'static str)
        ensures
            res@ == self.spec_name(),
    {
        match self {
            FunctionTy::Constructor => "constructor",
            FunctionTy::Function => "function",
            FunctionTy::Fallback => "fallback",
            FunctionTy::Receive => "receive",
            FunctionTy::Modifier => "modifier",
        }
    }
}

/// The kind of a contract, with where it is written.
#[derive(Clone, Copy, Debug, PartialEq, Eq, Structural)]
pub enum ContractTy {
    Abstract(Loc),
    Contract(Loc),
    Interface(Loc),
    Library(Loc),
}

impl ContractTy {
    /// The name of the kind.
    pub open spec fn spec_name(self) -> Seq<char> {
        match self {
            ContractTy::Abstract(_) => "abstract contract"@,
            ContractTy::Contract(_) => "contract"@,
            ContractTy::Interface(_) => "interface"@,
            ContractTy::Library(_) => "library"@,
        }
    }

    /// The name of the kind.
    pub fn name(&self) -> (res: &'static str)
        ensures
            res@ == self.spec_name(),
    {
        match self {
            ContractTy::Abstract(_) => "abstract contract",
            ContractTy::Contract(_) => "contract",
            ContractTy::Interface(_) => "interface",
            ContractTy::Library(_) => "library",
        }
    }
}

/// The visibility of a function, with where it is written, if it is.
#[derive(Clone, Copy, Debug, PartialEq, Eq, Structural)]
pub enum Visibility {
    External(Option<Loc>),
    Public(Option<Loc>),
    Internal(Option<Loc>),
    Private(Option<Loc>),
}

/// A name in the source, and where it is.
pub struct Identifier {
    pub loc: Loc,
    pub name: String,
}

/// A named argument `name: expr`.
pub struct NamedArgument {
    pub loc: Loc,
    pub name: Identifier,
    pub expr: Expression,
}

/// The forms of a parse tree statement that the checks here tell apart: a
/// block, a list of named arguments in braces; every other form is `Other`,
/// with its location.
pub enum Statement {
    Block { loc: Loc, unchecked: bool, statements: Vec<Statement> },
    Args(Loc, Vec<NamedArgument>),
    Other(Loc),
}

impl Statement {
    /// The location of the statement.
    pub open spec fn spec_loc(&self) -> Loc {
        match self {
            Statement::Block { loc, .. } => *loc,
            Statement::Args(loc, _) => *loc,
            Statement::Other(loc) => *loc,
        }
    }

    /// The location of the statement.
    pub fn loc(&self) -> (res: Loc)
        ensures
            res == self.spec_loc(),
    {
        match self {
            Statement::Block { loc, .. } => *loc,
            Statement::Args(loc, _) => *loc,
            Statement::Other(loc) => *loc,
        }
    }
}

/// The forms of a parse tree expression that the checks here tell apart:
/// a call, a call with arguments in braces, a member access, a `new`, an
/// expression in parentheses, an array literal; every other form is
/// `Other`, with its location.
pub enum Expression {
    FunctionCall(Loc, Box<Expression>, Vec<Expression>),
    FunctionCallBlock(Loc, Box<Expression>, Box<Statement>),
    MemberAccess(Loc, Box<Expression>, Identifier),
    New(Loc, Box<Expression>),
    Parenthesis(Loc, Box<Expression>),
    ArrayLiteral(Loc, Vec<Expression>),
    Other(Loc),
}

impl Expression {
    /// The location of the expression.
    pub open spec fn spec_loc(&self) -> Loc {
        match self {
            Expression::FunctionCall(loc, ..) => *loc,
            Expression::FunctionCallBlock(loc, ..) => *loc,
            Expression::MemberAccess(loc, ..) => *loc,
            Expression::New(loc, _) => *loc,
            Expression::Parenthesis(loc, _) => *loc,
            Expression::ArrayLiteral(loc, _) => *loc,
            Expression::Other(loc) => *loc,
        }
    }

    /// The location of the expression.
    pub fn loc(&self) -> (res: Loc)
        ensures
            res == self.spec_loc(),
    {
        match self {
            Expression::FunctionCall(loc, ..) => *loc,
            Expression::FunctionCallBlock(loc, ..) => *loc,
            Expression::MemberAccess(loc, ..) => *loc,
            Expression::New(loc, _) => *loc,
            Expression::Parenthesis(loc, _) => *loc,
            Expression::ArrayLiteral(loc, _) => *loc,
            Expression::Other(loc) => *loc,
        }
    }

    /// The expression inside one pair of parentheses, or the expression
    /// itself.
    pub open spec fn spec_remove_parenthesis(&self) -> &Expression {
        match self {
            Expression::Parenthesis(_, e) => &**e,
            _ => self,
        }
    }

    /// The expression inside one pair of parentheses, or the expression
    /// itself.
    pub fn remove_parenthesis(&self) -> (res: &Expression)
        ensures
            res == self.spec_remove_parenthesis(),
    {
        match self {
            Expression::Parenthesis(_, e) => &**e,
            _ => self,
        }
    }
}

} // verus!
