//! The context in which expressions are resolved.

use vstd::prelude::*;
use std::collections::HashMap;
use crate::diagnostics::Loc;
use crate::types::{Mutability, Type, TypeView};

verus! {

/// Whether a value of type `ty` can be cast to a slice of bytes.
pub open spec fn castable_to_slice(ty: TypeView) -> bool {
    ty is Address || ty is Bytes || ty is DynamicBytes || ty is String
}

/// Can this type be cast to a bytes slice.
pub fn can_cast_to_slice(ty: &Type) -> (res: bool)
    ensures
        res == castable_to_slice(ty@),
{
    match ty {
        Type::Address(_) | Type::Bytes(_) | Type::DynamicBytes | Type::String => true,
        _ => false,
    }
}

/// How strict a mutability is: pure, view, nonpayable, payable.
pub open spec fn mutability_rank(m: Mutability) -> int {
    match m {
        Mutability::Pure(_) => 0,
        Mutability::View(_) => 1,
        Mutability::Nonpayable(_) => 2,
        Mutability::Payable(_) => 3,
    }
}

/// Compare two mutability levels: whether a function of mutability `left`
/// may stand where `right` is expected. Only payable is compatible with
/// payable; default (nonpayable) with anything but pure and view; view with
/// anything but pure; pure with anything.
pub fn compatible_mutability(left: &Mutability, right: &Mutability) -> (res: bool)
    ensures
        res == (mutability_rank(*left) <= mutability_rank(*right)),
{
    match (left, right) {
        (Mutability::Payable(_), Mutability::Payable(_)) => true,
        (Mutability::Nonpayable(_), Mutability::Nonpayable(_)) => true,
        (Mutability::Nonpayable(_), Mutability::Payable(_)) => true,
        (Mutability::View(_), Mutability::View(_)) => true,
        (Mutability::View(_), Mutability::Nonpayable(_)) => true,
        (Mutability::View(_), Mutability::Payable(_)) => true,
        (Mutability::Pure(_), _) => true,
        _ => false,
    }
}

/// Every mutability is compatible with itself.
pub proof fn law_compatible_mutability_reflexive(m: Mutability)
    ensures
        mutability_rank(m) <= mutability_rank(m),
{
}

/// Compatibility of mutabilities is transitive.
pub proof fn law_compatible_mutability_transitive(a: Mutability, b: Mutability, c: Mutability)
    requires
        mutability_rank(a) <= mutability_rank(b),
        mutability_rank(b) <= mutability_rank(c),
    ensures
        mutability_rank(a) <= mutability_rank(c),
{
}

/// Pure is compatible with everything, and only payable with payable.
pub proof fn law_compatible_mutability_extremes(m: Mutability, loc: Loc)
    ensures
        mutability_rank(Mutability::Pure(loc)) <= mutability_rank(m),
        mutability_rank(m) <= mutability_rank(Mutability::Payable(loc)),
        mutability_rank(Mutability::Payable(loc)) <= mutability_rank(m) ==> m is Payable,
{
}

/// When resolving an expression, what type are we looking for.
#[derive(Clone, Copy, Debug)]
pub enum ResolveTo<'a> {
    /// We don't know what we're looking for, best effort.
    Unknown,
    /// Try to resolve to an integer type value (signed or unsigned, any bit width).
    Integer,
    /// We won't be using the result. For example, an expression as a statement.
    Discard,
    /// We will be wanting this type please, e.g. `int64 x = 1;`.
    Type(&'a Type),
}

/// The variables declared in one scope: where it ends and the variable
/// number of each name.
pub struct VarScope {
    pub loc: Option<Loc>,
    pub names: HashMap<String, usize>,
}

/// The scopes of variables that a function body has finished.
pub struct Symtable {
    pub scopes: Vec<VarScope>,
}

/// The breaks and continues of one loop.
pub struct LoopScope {
    pub no_breaks: usize,
    pub no_continues: usize,
}

/// The loops that enclose the code being resolved, innermost last.
pub struct LoopScopes {
    pub scopes: Vec<LoopScope>,
}

impl LoopScopes {
    /// No enclosing loop.
    pub fn new() -> (res: LoopScopes)
        ensures
            res.scopes@.len() == 0,
    {
        LoopScopes { scopes: Vec::new() }
    }

    /// Whether the code is in a loop.
    pub fn in_a_loop(&self) -> (res: bool)
        ensures
            res == (self.scopes@.len() > 0),
    {
        self.scopes.len() > 0
    }
}

/// What resolving an expression needs to know of where it stands.
pub struct ExprContext {
    /// What source file are we in
    pub file_no: usize,
    /// Are we resolving a contract, and if so, which one
    pub contract_no: Option<usize>,
    /// Are resolving the body of a function, and if so, which one
    pub function_no: Option<usize>,
    /// Are we currently in an unchecked block
    pub unchecked: bool,
    /// Are we evaluating a constant expression
    pub constant: bool,
    /// Are we resolving an l-value
    pub lvalue: bool,
    /// Are we resolving a yul function (it cannot have external dependencies)
    pub yul_function: bool,
    /// Loops nesting
    pub loops: LoopScopes,
    /// Stack of currently active variable scopes
    pub active_scopes: Vec<VarScope>,
    /// Solidity v0.5 and earlier don't complain about emit resolving to multiple events
    pub ambiguous_emit: bool,
}

impl Default for ExprContext {
    fn default() -> (res: ExprContext)
        ensures
            res.file_no == 0,
            res.contract_no is None,
            res.function_no is None,
            !res.unchecked,
            !res.constant,
            !res.lvalue,
            !res.yul_function,
            res.loops.scopes@.len() == 0,
            res.active_scopes@.len() == 0,
            !res.ambiguous_emit,
    {
        ExprContext {
            file_no: 0,
            contract_no: None,
            function_no: None,
            unchecked: false,
            constant: false,
            lvalue: false,
            yul_function: false,
            loops: LoopScopes::new(),
            active_scopes: Vec::new(),
            ambiguous_emit: false,
        }
    }
}

impl ExprContext {
    /// Open a new, empty scope of variables.
    pub fn enter_scope(&mut self)
        ensures
            final(self).active_scopes@.len() == old(self).active_scopes@.len() + 1,
            final(self).active_scopes@.drop_last() == old(self).active_scopes@,
            final(self).active_scopes@.last().loc is None,
            final(self).active_scopes@.last().names@ == Map::<String, usize>::empty(),
            final(self).file_no == old(self).file_no,
            final(self).contract_no == old(self).contract_no,
            final(self).function_no == old(self).function_no,
            final(self).unchecked == old(self).unchecked,
            final(self).constant == old(self).constant,
            final(self).lvalue == old(self).lvalue,
            final(self).yul_function == old(self).yul_function,
            final(self).loops == old(self).loops,
            final(self).ambiguous_emit == old(self).ambiguous_emit,
    {
        self.active_scopes.push(VarScope { loc: None, names: HashMap::new() });
        assert(self.active_scopes@.drop_last() =~= old(self).active_scopes@);
    }

    /// Close the innermost scope of variables, if any: it ends at `loc` and
    /// moves to the finished scopes of `symtable`.
    pub fn leave_scope(&mut self, symtable: &mut Symtable, loc: Loc)
        ensures
            old(self).active_scopes@.len() == 0 ==> {
                &&& final(self).active_scopes@ == old(self).active_scopes@
                &&& final(symtable).scopes@ == old(symtable).scopes@
            },
            old(self).active_scopes@.len() > 0 ==> {
                &&& final(self).active_scopes@ == old(self).active_scopes@.drop_last()
                &&& final(symtable).scopes@.len() == old(symtable).scopes@.len() + 1
                &&& final(symtable).scopes@.drop_last() == old(symtable).scopes@
                &&& final(symtable).scopes@.last().loc == Some(loc)
                &&& final(symtable).scopes@.last().names == old(self).active_scopes@.last().names
            },
            final(self).file_no == old(self).file_no,
            final(self).contract_no == old(self).contract_no,
            final(self).function_no == old(self).function_no,
            final(self).unchecked == old(self).unchecked,
            final(self).constant == old(self).constant,
            final(self).lvalue == old(self).lvalue,
            final(self).yul_function == old(self).yul_function,
            final(self).loops == old(self).loops,
            final(self).ambiguous_emit == old(self).ambiguous_emit,
    {
        if let Some(mut curr_scope) = self.active_scopes.pop() {
            curr_scope.loc = Some(loc);
            symtable.scopes.push(curr_scope);
            assert(symtable.scopes@.drop_last() =~= old(symtable).scopes@);
        }
    }
}

/// Entering a scope and leaving it again leaves the active scopes as they
/// were, and finishes one empty scope that ends at the given location.
pub proof fn law_enter_leave_scope(
    before: Seq<VarScope>,
    entered: Seq<VarScope>,
    left: Seq<VarScope>,
    finished_before: Seq<VarScope>,
    finished_after: Seq<VarScope>,
    loc: Loc,
)
    requires
        entered.len() == before.len() + 1,
        entered.drop_last() == before,
        entered.last().loc is None,
        entered.last().names@ == Map::<String, usize>::empty(),
        left == entered.drop_last(),
        finished_after.len() == finished_before.len() + 1,
        finished_after.drop_last() == finished_before,
        finished_after.last().loc == Some(loc),
        finished_after.last().names == entered.last().names,
    ensures
        left == before,
        finished_after.last().names@ == Map::<String, usize>::empty(),
{
}

} // verus!
