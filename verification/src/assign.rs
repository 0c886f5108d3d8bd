//! Checks on assignments.

use vstd::prelude::*;
use crate::diagnostics::{Diagnostic, Diagnostics, Loc, error_view};
use crate::expression::ExprContext;
use crate::namespace::Namespace;
use crate::pt::FunctionTy;

verus! {

/// Whether assigning to a variable that is `immutable` is refused in
/// `context`: only a constructor may assign to an immutable variable.
pub open spec fn immutable_refused(context: ExprContext, ns: &Namespace, immutable: bool) -> bool {
    immutable && (context.function_no matches Some(f) && ns.functions@[f as int].ty != FunctionTy::Constructor)
}

/// Check that an assignment at `loc` to a variable that is `immutable`
/// stands in a constructor, or outside any function.
pub fn check_immutable(
    context: &ExprContext,
    ns: &Namespace,
    loc: &Loc,
    immutable: &bool,
    diagnostics: &mut Diagnostics,
) -> (res: Result<(), ()>)
    requires
        context.function_no matches Some(f) ==> f < ns.functions@.len(),
    ensures
        immutable_refused(*context, ns, *immutable) ==> {
            &&& res is Err
            &&& final(diagnostics)@ == old(diagnostics)@.push(
                error_view(*loc, "cannot assign to immutable outside of constructor"@),
            )
        },
        !immutable_refused(*context, ns, *immutable) ==> res is Ok && final(diagnostics)@ == old(diagnostics)@,
{
    if *immutable {
        if let Some(function_no) = context.function_no {
            if !ns.functions[function_no].is_constructor() {
                diagnostics.push(Diagnostic::error(
                    *loc,
                    String::from_str("cannot assign to immutable outside of constructor"),
                ));
                return Err(());
            }
        }
    }
    Ok(())
}

} // verus!
