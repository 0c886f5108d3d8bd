use solang_sema::arithmetic::cast_shift_arg;
use solang_sema::ast::Expression;
use solang_sema::diagnostics::{Diagnostics, Loc};
use solang_sema::expression::{compatible_mutability, ResolveTo};
use solang_sema::function_call::{function_returns, function_type};
use solang_sema::integers::{coerce, coerce_number, type_bits_and_sign};
use solang_sema::namespace::{Function, Namespace, Target, UserTypeDecl};
use solang_sema::number::Number;
use solang_sema::pt::{FunctionTy, Visibility};
use solang_sema::types::{ArrayLength, Mutability, StructType, Type};

fn namespace() -> Namespace {
    Namespace {
        files: vec![],
        target: Target::EVM,
        address_length: 20,
        value_length: 16,
        enums: vec!["Color".to_string()],
        structs: vec!["Point".to_string()],
        user_types: vec![UserTypeDecl { name: "Price".to_string(), ty: Type::Int(64) }],
        functions: vec![],
        contracts: vec![],
        function_symbols: vec![],
        diagnostics: Diagnostics::new(),
    }
}

fn loc() -> Loc {
    Loc::File(0, 1, 2)
}

fn variable(ty: Type) -> Expression {
    Expression::Variable { loc: loc(), ty, var_no: 3 }
}

#[test]
fn type_names() {
    let ns = namespace();
    assert_eq!(Type::Uint(256).to_string(&ns), "uint256");
    assert_eq!(Type::Address(true).to_string(&ns), "address payable");
    assert_eq!(Type::Value.to_string(&ns), "uint128");
    assert_eq!(Type::Enum(0).to_string(&ns), "enum Color");
    assert_eq!(Type::Struct(StructType::UserDefined(0)).to_string(&ns), "struct Point");
    assert_eq!(Type::UserType(0).to_string(&ns), "usertype Price");
    let array = Type::Array(
        Box::new(Type::Bool),
        vec![ArrayLength::Fixed(Number { negative: false, magnitude: vec![1, 0] }), ArrayLength::Dynamic],
    );
    assert_eq!(array.to_string(&ns), "bool[256][]");
    let mapping = Type::Mapping(Box::new(Type::Address(false)), Box::new(Type::Bytes(32)));
    assert_eq!(mapping.to_string(&ns), "mapping(address => bytes32)");
    let function = Type::ExternalFunction {
        mutability: Mutability::View(loc()),
        params: vec![Type::Bool, Type::String],
        results: vec![Type::DynamicBytes],
    };
    assert_eq!(function.to_string(&ns), "function(bool,string) external view returns (bytes)");
    assert_eq!(Type::StorageRef(false, Box::new(Type::Int(8))).to_string(&ns), "int8 storage");
}

#[test]
fn integer_widths_and_signs() {
    let ns = namespace();
    let mut diagnostics = Diagnostics::new();
    assert_eq!(type_bits_and_sign(&Type::Int(64), &loc(), false, &ns, &mut diagnostics), Ok((64, true)));
    assert_eq!(type_bits_and_sign(&Type::Value, &loc(), false, &ns, &mut diagnostics), Ok((128, false)));
    assert_eq!(type_bits_and_sign(&Type::FunctionSelector, &loc(), false, &ns, &mut diagnostics), Ok((32, false)));
    assert_eq!(type_bits_and_sign(&Type::Bytes(4), &loc(), true, &ns, &mut diagnostics), Ok((32, false)));
    let r = Type::Ref(Box::new(Type::Uint(16)));
    assert_eq!(type_bits_and_sign(&r, &loc(), false, &ns, &mut diagnostics), Ok((16, false)));
    assert!(diagnostics.is_empty());
}

#[test]
fn types_without_integer_width() {
    let ns = namespace();
    let mut diagnostics = Diagnostics::new();
    assert!(type_bits_and_sign(&Type::Enum(0), &loc(), false, &ns, &mut diagnostics).is_err());
    assert!(type_bits_and_sign(&Type::Bytes(4), &loc(), false, &ns, &mut diagnostics).is_err());
    assert!(type_bits_and_sign(&Type::Struct(StructType::UserDefined(0)), &loc(), false, &ns, &mut diagnostics).is_err());
    assert_eq!(diagnostics.len(), 3);
    assert_eq!(diagnostics.get(0).message, "type enum Color not allowed");
    assert_eq!(diagnostics.get(1).message, "expression of type bytes4 not allowed");
    assert_eq!(diagnostics.get(2).message, "type struct Point not allowed");
}

#[test]
fn coerce_integers() {
    let ns = namespace();
    let mut diagnostics = Diagnostics::new();
    let ty = |l: Type, r: Type, diagnostics: &mut Diagnostics| {
        format!("{:?}", coerce(&l, &loc(), &r, &loc(), &ns, diagnostics).unwrap())
    };
    assert_eq!(ty(Type::Uint(8), Type::Uint(32), &mut diagnostics), "Uint(32)");
    assert_eq!(ty(Type::Int(8), Type::Int(16), &mut diagnostics), "Int(16)");
    assert_eq!(ty(Type::Int(64), Type::Uint(64), &mut diagnostics), "Int(72)");
    assert_eq!(ty(Type::Uint(256), Type::Int(8), &mut diagnostics), "Int(256)");
    assert_eq!(ty(Type::Bool, Type::Uint(8), &mut diagnostics), "Uint(8)");
    assert_eq!(ty(Type::Address(true), Type::Address(false), &mut diagnostics), "Address(false)");
    assert_eq!(ty(Type::Bytes(2), Type::Bytes(8), &mut diagnostics), "Bytes(8)");
    assert_eq!(ty(Type::Rational, Type::Int(8), &mut diagnostics), "Rational");
    assert_eq!(ty(Type::Ref(Box::new(Type::String)), Type::String, &mut diagnostics), "String");
    assert!(diagnostics.is_empty());
}

#[test]
fn coerce_is_symmetric() {
    let ns = namespace();
    let mut diagnostics = Diagnostics::new();
    let pairs = vec![(Type::Int(64), Type::Uint(16)), (Type::Uint(8), Type::Uint(200)), (Type::Int(8), Type::Uint(256))];
    for (l, r) in pairs {
        let a = coerce_number(&l, &loc(), &r, &loc(), false, false, &ns, &mut diagnostics).unwrap();
        let b = coerce_number(&r, &loc(), &l, &loc(), false, false, &ns, &mut diagnostics).unwrap();
        assert_eq!(format!("{:?}", a), format!("{:?}", b));
    }
}

#[test]
fn coerce_compare_addresses_and_errors() {
    let ns = namespace();
    let mut diagnostics = Diagnostics::new();
    let a = Type::Address(true);
    let t = coerce_number(&a, &loc(), &a, &loc(), false, true, &ns, &mut diagnostics).unwrap();
    assert_eq!(format!("{:?}", t), "Address(true)");
    let r = coerce_number(&Type::String, &Loc::File(0, 5, 6), &Type::Uint(8), &loc(), false, false, &ns, &mut diagnostics);
    assert!(r.is_err());
    assert_eq!(diagnostics.len(), 1);
    assert_eq!(diagnostics.get(0).message, "expression of type string not allowed");
    assert_eq!(diagnostics.get(0).loc, Loc::File(0, 5, 6));
}

#[test]
fn shift_argument_widths() {
    let ns = namespace();
    match cast_shift_arg(&loc(), variable(Type::Uint(8)), 8, &Type::Uint(8), &ns) {
        Expression::Variable { var_no: 3, .. } => {},
        other => panic!("{:?}", other),
    }
    match cast_shift_arg(&loc(), variable(Type::Uint(8)), 8, &Type::Int(64), &ns) {
        Expression::SignExt { to: Type::Int(64), .. } => {},
        other => panic!("{:?}", other),
    }
    match cast_shift_arg(&loc(), variable(Type::Uint(8)), 8, &Type::Uint(64), &ns) {
        Expression::ZeroExt { to: Type::Uint(64), .. } => {},
        other => panic!("{:?}", other),
    }
    match cast_shift_arg(&loc(), variable(Type::Uint(64)), 64, &Type::Uint(16), &ns) {
        Expression::Trunc { to: Type::Uint(16), .. } => {},
        other => panic!("{:?}", other),
    }
}

#[test]
fn mutability_compatibility() {
    let l = loc();
    assert!(compatible_mutability(&Mutability::Pure(l), &Mutability::Payable(l)));
    assert!(compatible_mutability(&Mutability::View(l), &Mutability::Nonpayable(l)));
    assert!(compatible_mutability(&Mutability::Nonpayable(l), &Mutability::Payable(l)));
    assert!(compatible_mutability(&Mutability::Payable(l), &Mutability::Payable(l)));
    assert!(!compatible_mutability(&Mutability::Payable(l), &Mutability::Nonpayable(l)));
    assert!(!compatible_mutability(&Mutability::View(l), &Mutability::Pure(l)));
    assert!(!compatible_mutability(&Mutability::Nonpayable(l), &Mutability::View(l)));
}

#[test]
fn function_types_and_returns() {
    let f = Function {
        loc: loc(),
        ty: FunctionTy::Function,
        name: "f".to_string(),
        contract_no: None,
        visibility: Visibility::Internal(None),
        has_body: true,
        params: vec![Type::Uint(8)],
        returns: vec![Type::Bool, Type::String],
        mutability: Mutability::Pure(loc()),
        is_virtual: false,
        is_override: None,
        signature: "f(uint8)".to_string(),
        creates: vec![],
    };
    assert_eq!(format!("{:?}", function_returns(&f, ResolveTo::Unknown)), "[Bool, String]");
    assert_eq!(format!("{:?}", function_returns(&f, ResolveTo::Discard)), "[Void]");
    match function_type(&f, true, ResolveTo::Unknown) {
        Type::ExternalFunction { params, results, mutability: Mutability::Pure(_) } => {
            assert_eq!(format!("{:?}", params), "[Uint(8)]");
            assert_eq!(format!("{:?}", results), "[Bool, String]");
        },
        other => panic!("{:?}", other),
    }
    let g = Function {
        loc: loc(),
        ty: FunctionTy::Function,
        name: "g".to_string(),
        contract_no: None,
        visibility: Visibility::Internal(None),
        has_body: false,
        params: vec![],
        returns: vec![],
        mutability: Mutability::View(loc()),
        is_virtual: false,
        is_override: None,
        signature: "g()".to_string(),
        creates: vec![],
    };
    match function_type(&g, false, ResolveTo::Unknown) {
        Type::InternalFunction { results, .. } => assert_eq!(format!("{:?}", results), "[Void]"),
        other => panic!("{:?}", other),
    }
}

#[test]
fn expression_types() {
    let e = variable(Type::Bytes(3));
    assert_eq!(format!("{:?}", e.tys()), "[Bytes(3)]");
    assert_eq!(e.loc(), loc());
    assert!(Type::Rational.is_rational());
    assert!(Type::Ref(Box::new(Type::Rational)).is_rational());
    assert!(!Type::Int(8).is_rational());
}
