//! Operands of arithmetic operators.

use vstd::prelude::*;
use crate::ast::{Expression, ExpressionView};
use crate::diagnostics::Loc;
use crate::namespace::Namespace;
use crate::types::Type;

verus! {

/// When generating shifts, llvm wants both arguments to have the same
/// width. We want the result of the shift to be left argument, so this
/// function coerces the right argument into the right length: unchanged at
/// the same width, sign or zero extended where narrower (by the sign of
/// `ty`), truncated where wider.
pub fn cast_shift_arg(loc: &Loc, expr: Expression, from_width: u16, ty: &Type, ns: &Namespace) -> (res: Expression)
    requires
        ty.has_bits(ns),
        ty.user_type_declared(ns),
    ensures
        from_width == ty.spec_bits(ns) ==> res@ == expr@,
        from_width < ty.spec_bits(ns) && ty.spec_is_signed_int(ns)
            ==> res@ == (ExpressionView::SignExt { loc: *loc, to: ty@, expr: Box::new(expr@) }),
        from_width < ty.spec_bits(ns) && !ty.spec_is_signed_int(ns)
            ==> res@ == (ExpressionView::ZeroExt { loc: *loc, to: ty@, expr: Box::new(expr@) }),
        from_width > ty.spec_bits(ns)
            ==> res@ == (ExpressionView::Trunc { loc: *loc, to: ty@, expr: Box::new(expr@) }),
{
    let to_width = ty.bits(ns);
    if from_width == to_width {
        expr
    } else if from_width < to_width && ty.is_signed_int(ns) {
        Expression::SignExt { loc: *loc, to: ty.copy(), expr: Box::new(expr) }
    } else if from_width < to_width && !ty.is_signed_int(ns) {
        Expression::ZeroExt { loc: *loc, to: ty.copy(), expr: Box::new(expr) }
    } else {
        Expression::Trunc { loc: *loc, to: ty.copy(), expr: Box::new(expr) }
    }
}

} // verus!
