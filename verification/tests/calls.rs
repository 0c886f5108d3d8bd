use indexmap::IndexMap;
use solang_sema::constructor::{check_circular_reference, checked_circular_reference, circular_reference, deprecated_constructor_arguments, solana_constructor_check};
use solang_sema::ast::{CallArgs, ExternalCallAccounts};
use solang_sema::expression::LoopScope;
use solang_sema::pt::{ContractTy, Expression, FunctionTy, Identifier, NamedArgument, Statement, Visibility};
use solang_sema::diagnostics::{Diagnostics, Loc};
use solang_sema::expression::{ExprContext, Symtable};
use solang_sema::function_call::{available_functions, available_super_functions, calls_wf_holds, collect_call_args, resolve_internal_call};
use solang_sema::ast::Expression as Resolved;
use solang_sema::expression::ResolveTo;
use solang_sema::types::Type;
use solang_sema::namespace::{Contract, Function, Namespace, Symbol, SymbolEntry, Target};
use solang_sema::types::Mutability;

fn function(name: &str, has_body: bool, creates: Vec<(Loc, usize)>) -> Function {
    Function {
        loc: Loc::File(0, 10, 20),
        ty: FunctionTy::Function,
        name: name.to_string(),
        contract_no: Some(0),
        visibility: Visibility::Public(None),
        has_body,
        params: vec![],
        returns: vec![],
        mutability: Mutability::Nonpayable(Loc::Implicit),
        is_virtual: false,
        is_override: None,
        signature: format!("{}()", name),
        creates,
    }
}

fn contract(name: &str, all_functions: Vec<usize>, bases: Vec<usize>, creates: Vec<usize>) -> Contract {
    let all_functions: IndexMap<usize, usize> = all_functions.into_iter().map(|f| (f, 0)).collect();
    Contract { ty: ContractTy::Contract(Loc::Implicit), name: name.to_string(), instantiable: true, all_functions, bases, creates }
}

fn namespace(functions: Vec<Function>, contracts: Vec<Contract>, function_symbols: Vec<SymbolEntry>) -> Namespace {
    Namespace {
        files: vec![],
        target: Target::EVM,
        address_length: 20,
        value_length: 16,
        enums: vec![],
        structs: vec![],
        user_types: vec![],
        functions,
        contracts,
        function_symbols,
        diagnostics: Diagnostics::new(),
    }
}

fn calls_namespace() -> Namespace {
    let functions = vec![
        function("f", true, vec![]),
        function("f", false, vec![]),
        function("g", true, vec![]),
        function("f", true, vec![]),
        function("f", true, vec![]),
    ];
    let contracts = vec![
        contract("A", vec![0, 2], vec![0], vec![]),
        contract("B", vec![1, 3], vec![0, 1], vec![]),
        contract("C", vec![0, 3, 4], vec![0, 1, 2], vec![]),
    ];
    let symbols = vec![
        SymbolEntry {
            file_no: 0,
            contract_no: None,
            name: "f".to_string(),
            symbol: Symbol::Function(vec![(Loc::File(0, 1, 2), 4), (Loc::File(0, 3, 4), 0)]),
        },
        SymbolEntry { file_no: 1, contract_no: None, name: "f".to_string(), symbol: Symbol::Function(vec![(Loc::Implicit, 2)]) },
    ];
    namespace(functions, contracts, symbols)
}

#[test]
fn functions_available_by_name() {
    let ns = calls_namespace();
    assert_eq!(available_functions("f", true, 0, Some(1), &ns), vec![4, 0, 3]);
    assert_eq!(available_functions("f", false, 0, Some(1), &ns), vec![3]);
    assert_eq!(available_functions("f", true, 1, None, &ns), vec![2]);
    assert_eq!(available_functions("f", true, 2, None, &ns), Vec::<usize>::new());
    assert_eq!(available_functions("g", false, 0, Some(0), &ns), vec![2]);
}

#[test]
fn functions_available_through_super() {
    let ns = calls_namespace();
    // bases of C from the last: B then A, skipping C itself
    assert_eq!(available_super_functions("f", 2, &ns), vec![3, 0]);
    assert_eq!(available_super_functions("g", 2, &ns), vec![2]);
    assert_eq!(available_super_functions("f", 0, &ns), Vec::<usize>::new());
}

#[test]
fn scopes_enter_and_leave() {
    let mut context = ExprContext::default();
    let mut symtable = Symtable { scopes: vec![] };
    context.enter_scope();
    assert_eq!(context.active_scopes.len(), 1);
    context.enter_scope();
    context.leave_scope(&mut symtable, Loc::File(0, 4, 9));
    assert_eq!(context.active_scopes.len(), 1);
    assert_eq!(symtable.scopes.len(), 1);
    assert_eq!(symtable.scopes[0].loc, Some(Loc::File(0, 4, 9)));
    assert!(symtable.scopes[0].names.is_empty());
    context.leave_scope(&mut symtable, Loc::Implicit);
    context.leave_scope(&mut symtable, Loc::Implicit);
    assert_eq!(context.active_scopes.len(), 0);
    assert_eq!(symtable.scopes.len(), 2);
    assert!(!context.loops.in_a_loop());
}

fn creation_namespace() -> Namespace {
    // contract 0 has functions 0 and 1; 1 creates 2, 2 creates 3
    let functions = vec![
        function("a", true, vec![(Loc::File(0, 10, 11), 1), (Loc::File(0, 12, 13), 0)]),
        function("b", true, vec![(Loc::File(0, 20, 21), 3), (Loc::File(0, 22, 23), 2), (Loc::File(0, 24, 25), 1)]),
    ];
    let contracts = vec![
        contract("Zero", vec![0, 1], vec![0], vec![]),
        contract("One", vec![], vec![1], vec![2]),
        contract("Two", vec![], vec![2], vec![3]),
        contract("Three", vec![], vec![3], vec![0]),
    ];
    namespace(functions, contracts, vec![])
}

#[test]
fn transitive_creation() {
    let mut ns = creation_namespace();
    ns.contracts[3].creates = vec![];
    assert!(circular_reference(1, 3, &ns));
    assert!(circular_reference(2, 3, &ns));
    assert!(!circular_reference(3, 1, &ns));
    assert!(!circular_reference(1, 1, &ns));
}

#[test]
fn circular_creation_is_reported() {
    let mut ns2 = namespace(
        vec![function("a", true, vec![(Loc::File(0, 10, 11), 1), (Loc::File(0, 12, 13), 0)])],
        vec![
            contract("Zero", vec![0], vec![0], vec![]),
            contract("One", vec![], vec![1], vec![2]),
            contract("Two", vec![], vec![2], vec![]),
        ],
        vec![],
    );
    check_circular_reference(0, &mut ns2);
    assert_eq!(ns2.contracts[0].creates, vec![1]);
    assert_eq!(ns2.diagnostics.len(), 1);
    assert_eq!(ns2.diagnostics.get(0).message, "cannot construct current contract 'Zero'");
    assert_eq!(ns2.diagnostics.get(0).loc, Loc::File(0, 12, 13));

    // 1 creates 2, which creates 0
    let mut ns = creation_namespace();
    ns.contracts[3].creates = vec![];
    ns.contracts[2].creates = vec![0];
    check_circular_reference(0, &mut ns);
    // 1 creates 2 which creates 0; 3 does not lead back
    assert_eq!(ns.contracts[0].creates, vec![3]);
    let messages: Vec<String> = (0..ns.diagnostics.len()).map(|i| ns.diagnostics.get(i).message.clone()).collect();
    assert_eq!(
        messages,
        vec![
            "circular reference creating contract 'One'".to_string(),
            "cannot construct current contract 'Zero'".to_string(),
            "circular reference creating contract 'Two'".to_string(),
            "circular reference creating contract 'One'".to_string(),
        ]
    );
    // the creation graph has no cycle afterwards
    for c in 0..ns.contracts.len() {
        assert!(!circular_reference(c, c, &ns));
    }
}

#[test]
fn existing_creations_are_kept() {
    let mut ns = namespace(
        vec![function("a", true, vec![(Loc::Implicit, 2), (Loc::Implicit, 1), (Loc::Implicit, 2)])],
        vec![contract("Zero", vec![0], vec![0], vec![1]), contract("One", vec![], vec![1], vec![]), contract("Two", vec![], vec![2], vec![])],
        vec![],
    );
    check_circular_reference(0, &mut ns);
    assert_eq!(ns.contracts[0].creates, vec![1, 2]);
    assert!(ns.diagnostics.is_empty());
}

#[test]
fn checking_creations_twice_changes_nothing() {
    let mut ns = creation_namespace();
    ns.contracts[3].creates = vec![];
    ns.contracts[2].creates = vec![0];
    check_circular_reference(0, &mut ns);
    let first = ns.contracts[0].creates.clone();
    check_circular_reference(0, &mut ns);
    assert_eq!(ns.contracts[0].creates, first);
}

fn new_contract() -> Expression {
    Expression::New(Loc::File(0, 1, 6), Box::new(Expression::Other(Loc::File(0, 5, 6))))
}

fn member(base: Expression, name: &str, start: usize) -> Expression {
    Expression::MemberAccess(
        Loc::File(0, 0, start + name.len()),
        Box::new(base),
        Identifier { loc: Loc::File(0, start, start + name.len()), name: name.to_string() },
    )
}

fn call(func: Expression, end: usize) -> Expression {
    Expression::FunctionCall(Loc::File(0, 0, end), Box::new(func), vec![Expression::Other(Loc::File(0, end - 2, end - 1))])
}

#[test]
fn deprecated_call_arguments() {
    let mut diagnostics = Diagnostics::new();
    // (new C).value(1).gas(2)
    let inner = Expression::Parenthesis(Loc::File(0, 0, 7), Box::new(new_contract()));
    let value = call(member(inner, "value", 8), 16);
    let gas = call(member(value, "gas", 17), 23);
    assert!(deprecated_constructor_arguments(&gas, &mut diagnostics).is_err());
    assert_eq!(diagnostics.len(), 2);
    assert_eq!(
        diagnostics.get(0).message,
        "deprecated call argument syntax '.value(...)' is not supported, use '{value: ...}' instead"
    );
    assert_eq!(diagnostics.get(0).loc, Loc::File(0, 8, 16));
    assert_eq!(
        diagnostics.get(1).message,
        "deprecated call argument syntax '.gas(...)' is not supported, use '{gas: ...}' instead"
    );
    assert_eq!(diagnostics.get(1).loc, Loc::File(0, 17, 23));
}

#[test]
fn plain_calls_are_not_deprecated() {
    let mut diagnostics = Diagnostics::new();
    let f = call(member(Expression::Other(Loc::File(0, 0, 1)), "f", 2), 6);
    assert!(deprecated_constructor_arguments(&f, &mut diagnostics).is_ok());
    assert!(deprecated_constructor_arguments(&Expression::Other(Loc::Implicit), &mut diagnostics).is_ok());
    assert!(deprecated_constructor_arguments(&new_contract(), &mut diagnostics).is_err());
    assert!(diagnostics.is_empty());
}

fn context_in(contract_no: Option<usize>) -> ExprContext {
    let mut context = ExprContext::default();
    context.contract_no = contract_no;
    context
}

#[test]
fn private_function_of_other_contract_is_refused() {
    let mut f = function("secret", true, vec![]);
    f.visibility = Visibility::Private(None);
    let ns = namespace(vec![f], vec![], vec![]);
    let mut errors = Diagnostics::new();
    let res = resolve_internal_call(&Loc::File(0, 50, 60), 0, &context_in(Some(1)), ResolveTo::Unknown, true, vec![], &ns, &mut errors);
    assert!(res.is_none());
    assert_eq!(errors.len(), 1);
    let d = errors.get(0);
    assert_eq!(d.message, "cannot call private function");
    assert_eq!(d.loc, Loc::File(0, 50, 60));
    assert_eq!(d.notes.len(), 1);
    assert_eq!(d.notes[0].loc, Loc::File(0, 10, 20));
    assert_eq!(d.notes[0].message, "declaration of function 'secret'");
}

#[test]
fn private_function_of_same_contract_is_called() {
    let mut f = function("secret", true, vec![]);
    f.visibility = Visibility::Private(None);
    let ns = namespace(vec![f], vec![], vec![]);
    let mut errors = Diagnostics::new();
    let res = resolve_internal_call(&Loc::File(0, 50, 60), 0, &context_in(Some(0)), ResolveTo::Unknown, false, vec![], &ns, &mut errors);
    assert!(errors.is_empty());
    assert!(matches!(res, Some(Resolved::InternalFunctionCall { .. })));
}

#[test]
fn external_function_of_same_contract_is_refused() {
    let mut f = function("ext", true, vec![]);
    f.visibility = Visibility::External(None);
    let ns = namespace(vec![f], vec![], vec![]);
    let mut errors = Diagnostics::new();
    let res = resolve_internal_call(&Loc::File(0, 5, 9), 0, &context_in(Some(0)), ResolveTo::Unknown, false, vec![], &ns, &mut errors);
    assert!(res.is_none());
    assert_eq!(errors.len(), 1);
    assert_eq!(errors.get(0).message, "external functions can only be invoked outside the contract");
    assert!(errors.get(0).notes.is_empty());
}

#[test]
fn virtual_call_carries_signature() {
    let mut f = function("v", true, vec![]);
    f.is_virtual = true;
    f.returns = vec![Type::Bool];
    let arg = Resolved::BoolLiteral { loc: Loc::File(0, 1, 2), value: true };
    let ns = namespace(vec![f], vec![], vec![]);
    let mut errors = Diagnostics::new();
    let res = resolve_internal_call(&Loc::File(0, 5, 9), 0, &context_in(Some(0)), ResolveTo::Unknown, true, vec![arg], &ns, &mut errors);
    assert!(errors.is_empty());
    match res {
        Some(Resolved::InternalFunctionCall { loc, results, function, args }) => {
            assert_eq!(loc, Loc::File(0, 5, 9));
            assert_eq!(format!("{:?}", results), "[Bool]");
            assert_eq!(args.len(), 1);
            match *function {
                Resolved::InternalFunction { function_no, signature, ty, .. } => {
                    assert_eq!(function_no, 0);
                    assert_eq!(signature, Some("v()".to_string()));
                    assert!(matches!(ty, Type::InternalFunction { .. }));
                },
                other => panic!("{:?}", other),
            }
        },
        other => panic!("{:?}", other),
    }
    let res = resolve_internal_call(&Loc::File(0, 5, 9), 0, &context_in(Some(0)), ResolveTo::Discard, false, vec![], &ns, &mut errors);
    match res {
        Some(Resolved::InternalFunctionCall { results, function, .. }) => {
            assert_eq!(format!("{:?}", results), "[Void]");
            assert!(matches!(*function, Resolved::InternalFunction { signature: None, .. }));
        },
        other => panic!("{:?}", other),
    }
}

fn two_contracts() -> Namespace {
    let mut b = contract("B", vec![], vec![1], vec![]);
    b.ty = ContractTy::Interface(Loc::Implicit);
    b.instantiable = false;
    let mut ns = namespace(vec![function("f", true, vec![])], vec![contract("A", vec![0], vec![0], vec![]), b], vec![]);
    ns.target = Target::Solana;
    ns
}

fn absent_accounts() -> CallArgs {
    CallArgs { accounts: ExternalCallAccounts::AbsentArgument }
}

#[test]
fn constructing_an_interface_outside_a_contract() {
    let mut ns = two_contracts();
    let mut diagnostics = Diagnostics::new();
    let mut context = context_in(None);
    solana_constructor_check(&Loc::File(0, 3, 4), 1, &mut diagnostics, &mut context, &absent_accounts(), &mut ns);
    assert_eq!(diagnostics.len(), 2);
    assert_eq!(diagnostics.get(0).message, "cannot construct 'B' of type 'interface'");
    assert_eq!(diagnostics.get(1).message, "constructors not allowed in free standing functions");
    assert!(ns.contracts.iter().all(|c| c.creates.is_empty()));
}

#[test]
fn constructor_call_records_creation_once() {
    let mut ns = two_contracts();
    ns.contracts[1].instantiable = true;
    let mut diagnostics = Diagnostics::new();
    let mut context = context_in(Some(0));
    solana_constructor_check(&Loc::File(0, 3, 4), 1, &mut diagnostics, &mut context, &absent_accounts(), &mut ns);
    solana_constructor_check(&Loc::File(0, 3, 4), 1, &mut diagnostics, &mut context, &absent_accounts(), &mut ns);
    assert!(diagnostics.is_empty());
    assert_eq!(ns.contracts[0].creates, vec![1]);
    assert!(ns.contracts[1].creates.is_empty());
}

#[test]
fn constructor_call_that_leads_back_is_reported() {
    let mut ns = two_contracts();
    ns.contracts[1].instantiable = true;
    ns.contracts[1].creates = vec![0];
    let mut diagnostics = Diagnostics::new();
    let mut context = context_in(Some(0));
    solana_constructor_check(&Loc::File(0, 3, 4), 1, &mut diagnostics, &mut context, &absent_accounts(), &mut ns);
    assert_eq!(diagnostics.len(), 1);
    assert_eq!(diagnostics.get(0).message, "circular reference creating contract 'B'");
    assert_eq!(ns.contracts[0].creates, vec![1]);
}

#[test]
fn constructor_call_in_loop_needs_accounts() {
    let mut ns = two_contracts();
    ns.contracts[1].instantiable = true;
    ns.functions[0].visibility = Visibility::External(None);
    let mut context = context_in(Some(0));
    context.function_no = Some(0);
    context.loops.scopes.push(LoopScope { no_breaks: 0, no_continues: 0 });
    let mut diagnostics = Diagnostics::new();
    solana_constructor_check(&Loc::File(0, 3, 4), 1, &mut diagnostics, &mut context, &absent_accounts(), &mut ns);
    assert_eq!(diagnostics.len(), 1);
    assert_eq!(
        diagnostics.get(0).message,
        "the {accounts: ..} call argument is needed since the constructor may be called multiple times"
    );
    let mut diagnostics = Diagnostics::new();
    let given = CallArgs { accounts: ExternalCallAccounts::NoAccount };
    solana_constructor_check(&Loc::File(0, 3, 4), 1, &mut diagnostics, &mut context, &given, &mut ns);
    assert!(diagnostics.is_empty());
    ns.functions[0].visibility = Visibility::Public(None);
    solana_constructor_check(&Loc::File(0, 3, 4), 1, &mut diagnostics, &mut context, &absent_accounts(), &mut ns);
    assert!(diagnostics.is_empty());
}

fn named(name: &str, loc: Loc) -> NamedArgument {
    NamedArgument { loc, name: Identifier { loc, name: name.to_string() }, expr: Expression::Other(loc) }
}

fn call_block(inner: Expression, block: Statement) -> Expression {
    Expression::FunctionCallBlock(Loc::File(0, 0, 30), Box::new(inner), Box::new(block))
}

#[test]
fn call_arguments_in_braces_are_collected() {
    let inner = call_block(Expression::Other(Loc::File(0, 0, 1)), Statement::Args(Loc::File(0, 2, 9), vec![named("gas", Loc::File(0, 3, 8))]));
    let outer = call_block(inner, Statement::Args(Loc::File(0, 10, 20), vec![named("value", Loc::File(0, 11, 19))]));
    let mut diagnostics = Diagnostics::new();
    match collect_call_args(&outer, &mut diagnostics) {
        Ok((called, args, loc)) => {
            assert!(matches!(called, Expression::Other(Loc::File(0, 0, 1))));
            let names: Vec<&str> = args.iter().map(|a| a.name.name.as_str()).collect();
            assert_eq!(names, vec!["value", "gas"]);
            assert_eq!(loc, Some(Loc::File(0, 10, 9)));
        },
        Err(()) => panic!("expected arguments"),
    }
    assert!(diagnostics.is_empty());
    let plain = Expression::Other(Loc::File(0, 4, 5));
    match collect_call_args(&plain, &mut diagnostics) {
        Ok((called, args, loc)) => {
            assert!(matches!(called, Expression::Other(Loc::File(0, 4, 5))));
            assert!(args.is_empty());
            assert_eq!(loc, None);
        },
        Err(()) => panic!("expected no arguments"),
    }
}

#[test]
fn empty_or_code_braces_are_refused() {
    let mut diagnostics = Diagnostics::new();
    let empty = call_block(Expression::Other(Loc::File(0, 0, 1)), Statement::Block { loc: Loc::File(0, 2, 4), unchecked: false, statements: vec![] });
    assert!(collect_call_args(&empty, &mut diagnostics).is_err());
    assert_eq!(diagnostics.get(0).message, "missing call arguments");
    assert_eq!(diagnostics.get(0).loc, Loc::File(0, 2, 4));
    let code = call_block(
        Expression::Other(Loc::File(0, 0, 1)),
        Statement::Block { loc: Loc::File(0, 2, 8), unchecked: false, statements: vec![Statement::Other(Loc::File(0, 3, 7))] },
    );
    assert!(collect_call_args(&code, &mut diagnostics).is_err());
    assert_eq!(diagnostics.get(1).message, "code block found where list of call arguments expected, like '{gas: 5000}'");
    let other = call_block(Expression::Other(Loc::File(0, 0, 1)), Statement::Other(Loc::File(0, 2, 6)));
    assert!(collect_call_args(&other, &mut diagnostics).is_err());
    assert_eq!(diagnostics.len(), 3);
    assert_eq!(diagnostics.get(2).loc, Loc::File(0, 2, 6));
}

#[test]
fn contract_functions_keep_map_order() {
    let mut ns = calls_namespace();
    ns.contracts.push(contract("D", vec![4, 2, 0], vec![3], vec![]));
    assert_eq!(available_functions("f", false, 0, Some(3), &ns), vec![4, 0]);
}

#[test]
fn namespace_lookups_checked() {
    let ns = calls_namespace();
    assert!(calls_wf_holds(&ns));
    let mut dup = calls_namespace();
    dup.function_symbols.push(SymbolEntry { file_no: 1, contract_no: None, name: "f".to_string(), symbol: Symbol::Function(vec![]) });
    assert!(!calls_wf_holds(&dup));
    let mut far = calls_namespace();
    far.contracts[1].bases.push(7);
    assert!(!calls_wf_holds(&far));
    let mut missing = calls_namespace();
    missing.contracts.push(contract("E", vec![9], vec![], vec![]));
    assert!(!calls_wf_holds(&missing));
}

#[test]
fn creations_checked_before_the_check() {
    let mut ns = namespace(
        vec![function("a", true, vec![(Loc::File(0, 10, 11), 1)])],
        vec![contract("Zero", vec![0], vec![0], vec![]), contract("One", vec![], vec![1], vec![])],
        vec![],
    );
    assert!(checked_circular_reference(0, &mut ns));
    assert_eq!(ns.contracts[0].creates, vec![1]);
    let mut bad = namespace(
        vec![function("a", true, vec![(Loc::File(0, 10, 11), 5)])],
        vec![contract("Zero", vec![0], vec![0], vec![])],
        vec![],
    );
    assert!(!checked_circular_reference(0, &mut bad));
    assert!(bad.contracts[0].creates.is_empty());
    assert!(bad.diagnostics.is_empty());
    let mut unknown = namespace(vec![], vec![contract("Zero", vec![3], vec![0], vec![])], vec![]);
    assert!(!checked_circular_reference(0, &mut unknown));
}
