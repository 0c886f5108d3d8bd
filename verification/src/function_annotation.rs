//! Diagnostics of function annotations.

use vstd::prelude::*;
use crate::diagnostics::{Diagnostic, DiagnosticView, Diagnostics, Loc, error_view, error_with_note_view};
use crate::text::{push_str, string_from_chars};

verus! {

/// The error for an annotation on a parameter where none is allowed.
pub fn unexpected_parameter_annotation(loc: Loc) -> (res: Diagnostic)
    ensures
        res@ == error_view(loc, "unexpected parameter annotation"@),
{
    Diagnostic::error(loc, String::from_str("unexpected parameter annotation"))
}

/// The error for an annotation `@name` given a second time on a function of
/// kind `func_ty`, with a note at the first one.
pub open spec fn duplicate_annotation_view(name: Seq<char>, new_loc: Loc, old_loc: Loc, func_ty: Seq<char>) -> DiagnosticView {
    error_with_note_view(
        new_loc,
        "duplicate @"@ + name + " annotation for "@ + func_ty,
        old_loc,
        "previous @"@ + name,
    )
}

/// Report an annotation `@name` at `new_loc` that was already given at
/// `old_loc` on a function of kind `func_ty`.
pub fn duplicate_annotation(diagnostics: &mut Diagnostics, name: &str, new_loc: Loc, old_loc: Loc, func_ty: &str)
    ensures
        final(diagnostics)@ == old(diagnostics)@.push(duplicate_annotation_view(name@, new_loc, old_loc, func_ty@)),
{
    let mut message: Vec<char> = Vec::new();
    push_str(&mut message, "duplicate @");
    push_str(&mut message, name);
    push_str(&mut message, " annotation for ");
    push_str(&mut message, func_ty);
    let mut note: Vec<char> = Vec::new();
    push_str(&mut note, "previous @");
    push_str(&mut note, name);
    diagnostics.push(Diagnostic::error_with_note(new_loc, string_from_chars(&message), old_loc, string_from_chars(&note)));
}

} // verus!
