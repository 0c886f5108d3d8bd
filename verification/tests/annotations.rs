use solang_sema::assign::check_immutable;
use solang_sema::diagnostics::{Diagnostics, Level, Loc};
use solang_sema::expression::{can_cast_to_slice, ExprContext};
use solang_sema::function_annotation::{duplicate_annotation, unexpected_parameter_annotation};
use solang_sema::namespace::{Function, Namespace, Target};
use solang_sema::pt::{FunctionTy, Visibility};
use solang_sema::types::{Mutability, Type};

fn function(ty: FunctionTy) -> Function {
    Function {
        loc: Loc::File(0, 0, 1),
        ty,
        name: "f".to_string(),
        contract_no: Some(0),
        visibility: Visibility::Public(None),
        has_body: true,
        params: vec![],
        returns: vec![],
        mutability: Mutability::Nonpayable(Loc::Implicit),
        is_virtual: false,
        is_override: None,
        signature: "f()".to_string(),
        creates: vec![],
    }
}

fn namespace(functions: Vec<Function>) -> Namespace {
    Namespace {
        files: vec![],
        target: Target::EVM,
        address_length: 20,
        value_length: 16,
        enums: vec![],
        structs: vec![],
        user_types: vec![],
        functions,
        contracts: vec![],
        function_symbols: vec![],
        diagnostics: Diagnostics::new(),
    }
}

#[test]
fn unexpected_annotation_message() {
    let d = unexpected_parameter_annotation(Loc::File(1, 2, 3));
    assert_eq!(d.message, "unexpected parameter annotation");
    assert_eq!(d.loc, Loc::File(1, 2, 3));
    assert_eq!(d.level, Level::Error);
    assert!(d.notes.is_empty());
}

#[test]
fn duplicate_annotation_points_to_previous() {
    let mut diagnostics = Diagnostics::new();
    duplicate_annotation(&mut diagnostics, "selector", Loc::File(0, 20, 30), Loc::File(0, 5, 15), "function");
    assert_eq!(diagnostics.len(), 1);
    let d = diagnostics.get(0);
    assert_eq!(d.message, "duplicate @selector annotation for function");
    assert_eq!(d.loc, Loc::File(0, 20, 30));
    assert_eq!(d.notes.len(), 1);
    assert_eq!(d.notes[0].loc, Loc::File(0, 5, 15));
    assert_eq!(d.notes[0].message, "previous @selector");
}

#[test]
fn slices_from_bytes_like_types() {
    assert!(can_cast_to_slice(&Type::Address(true)));
    assert!(can_cast_to_slice(&Type::Bytes(4)));
    assert!(can_cast_to_slice(&Type::DynamicBytes));
    assert!(can_cast_to_slice(&Type::String));
    assert!(!can_cast_to_slice(&Type::Uint(8)));
    assert!(!can_cast_to_slice(&Type::Bool));
}

#[test]
fn immutable_only_in_constructor() {
    let ns = namespace(vec![function(FunctionTy::Function), function(FunctionTy::Constructor)]);
    let loc = Loc::File(0, 7, 9);
    let mut diagnostics = Diagnostics::new();
    let mut context = ExprContext::default();
    context.function_no = Some(0);
    assert_eq!(check_immutable(&context, &ns, &loc, &true, &mut diagnostics), Err(()));
    assert_eq!(diagnostics.len(), 1);
    assert_eq!(diagnostics.get(0).message, "cannot assign to immutable outside of constructor");
    assert_eq!(diagnostics.get(0).loc, loc);
    assert_eq!(check_immutable(&context, &ns, &loc, &false, &mut diagnostics), Ok(()));
    context.function_no = Some(1);
    assert_eq!(check_immutable(&context, &ns, &loc, &true, &mut diagnostics), Ok(()));
    context.function_no = None;
    assert_eq!(check_immutable(&context, &ns, &loc, &true, &mut diagnostics), Ok(()));
    assert_eq!(diagnostics.len(), 1);
}
