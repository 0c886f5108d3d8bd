//! Which functions a call by name can reach.

use vstd::prelude::*;
use crate::ast::{Expression, ExpressionView, view_list};
use crate::diagnostics::{Diagnostic, DiagnosticView, Diagnostics, Loc, error_view, error_with_note_view};
use crate::expression::{ExprContext, ResolveTo};
use crate::namespace::{Contract, Function, Namespace, Symbol, SymbolEntry, index_map_keys, keys_of};
use crate::pt::{self, NamedArgument, Statement, Visibility};
use crate::text::{push_str, string_from_chars};
use crate::types::{Type, TypeView, copy_types, view_types};

verus! {

/// The entry for the key, where there is one; keys are unique.
pub open spec fn symbol_index(syms: Seq<SymbolEntry>, file_no: usize, contract_no: Option<usize>, name: Seq<char>) -> Option<int> {
    if exists|i: int| 0 <= i < syms.len() && #[trigger] key_matches(syms[i], file_no, contract_no, name) {
        Some(choose|i: int| 0 <= i < syms.len() && #[trigger] key_matches(syms[i], file_no, contract_no, name))
    } else {
        None
    }
}

/// Whether an entry has the key.
pub open spec fn key_matches(e: SymbolEntry, file_no: usize, contract_no: Option<usize>, name: Seq<char>) -> bool {
    e.file_no == file_no && e.contract_no == contract_no && e.name@ == name
}

/// No two entries have the same key.
pub open spec fn unique_keys(syms: Seq<SymbolEntry>) -> bool {
    forall|i: int, j: int|
        #![trigger syms[i], syms[j]]
        0 <= i < syms.len() && 0 <= j < syms.len()
            && key_matches(syms[i], syms[j].file_no, syms[j].contract_no, syms[j].name@) ==> i == j
}

/// The function numbers of the overloads of a global function named `name`
/// in file `file_no`.
pub open spec fn global_functions(syms: Seq<SymbolEntry>, file_no: usize, name: Seq<char>) -> Seq<usize> {
    match symbol_index(syms, file_no, None, name) {
        Some(i) => match syms[i].symbol {
            Symbol::Function(v) => v@.map_values(|p: (crate::diagnostics::Loc, usize)| p.1),
            _ => Seq::empty(),
        },
        None => Seq::empty(),
    }
}

/// The functions among `candidates` that are named `name` and have a body,
/// in order.
pub open spec fn named_with_body(functions: Seq<Function>, candidates: Seq<usize>, name: Seq<char>) -> Seq<usize>
    decreases candidates.len(),
{
    if candidates.len() == 0 {
        Seq::empty()
    } else {
        let f = candidates.last();
        let rest = named_with_body(functions, candidates.drop_last(), name);
        if functions[f as int].name@ == name && functions[f as int].has_body {
            rest.push(f)
        } else {
            rest
        }
    }
}

/// All function numbers are in range.
pub open spec fn functions_in_range(functions: Seq<Function>, candidates: Seq<usize>) -> bool {
    forall|k: int| 0 <= k < candidates.len() ==> #[trigger] candidates[k] < functions.len()
}

/// The callable functions of the contracts `bases`, from the last to the
/// first, skipping `contract_no`.
pub open spec fn super_functions(ns_functions: Seq<Function>, contracts: Seq<Contract>, bases: Seq<usize>, contract_no: usize, name: Seq<char>) -> Seq<usize>
    decreases bases.len(),
{
    if bases.len() == 0 {
        Seq::empty()
    } else {
        let b = bases.last();
        let rest = super_functions(ns_functions, contracts, bases.drop_last(), contract_no, name);
        if b == contract_no {
            rest
        } else {
            named_with_body(ns_functions, index_map_keys(contracts[b as int].all_functions), name) + rest
        }
    }
}

/// Append the functions of `candidates` named `name` with a body to `list`.
fn extend_named_with_body(list: &mut Vec<usize>, functions: &Vec<Function>, candidates: &Vec<usize>, name: &String)
    requires
        functions_in_range(functions@, candidates@),
    ensures
        final(list)@ == old(list)@ + named_with_body(functions@, candidates@, name@),
{
    let mut i: usize = 0;
    while i < candidates.len()
        invariant
            i <= candidates@.len(),
            functions_in_range(functions@, candidates@),
            list@ == old(list)@ + named_with_body(functions@, candidates@.take(i as int), name@),
        decreases candidates@.len() - i,
    {
        let func_no = candidates[i];
        assert(candidates@.take(i as int + 1).drop_last() =~= candidates@.take(i as int));
        let func = &functions[func_no];
        if func.name == *name && func.has_body {
            list.push(func_no);
        }
        i = i + 1;
        assert(list@ =~= old(list)@ + named_with_body(functions@, candidates@.take(i as int), name@));
    }
    assert(candidates@.take(i as int) =~= candidates@);
}

/// The namespace's function and contract numbers are in range.
pub open spec fn calls_wf(ns: &Namespace) -> bool {
    &&& forall|c: int| 0 <= c < ns.contracts@.len()
        ==> functions_in_range(ns.functions@, #[trigger] index_map_keys(ns.contracts@[c].all_functions))
    &&& forall|c: int, k: int| 0 <= c < ns.contracts@.len() && 0 <= k < ns.contracts@[c].bases@.len()
        ==> #[trigger] ns.contracts@[c].bases@[k] < ns.contracts@.len()
    &&& unique_keys(ns.function_symbols@)
}

/// Whether every number of `v` is below `n`.
pub(crate) fn all_below(v: &Vec<usize>, n: usize) -> (res: bool)
    ensures
        res == (forall|k: int| 0 <= k < v@.len() ==> #[trigger] v@[k] < n),
{
    let mut i: usize = 0;
    while i < v.len()
        invariant
            i <= v@.len(),
            forall|k: int| 0 <= k < i ==> #[trigger] v@[k] < n,
        decreases v@.len() - i,
    {
        if v[i] >= n {
            assert(!(v@[i as int] < n));
            return false;
        }
        i = i + 1;
    }
    true
}

/// Whether no two symbol entries have the same key.
fn symbol_keys_unique(syms: &Vec<SymbolEntry>) -> (res: bool)
    ensures
        res == unique_keys(syms@),
{
    let mut i: usize = 0;
    while i < syms.len()
        invariant
            i <= syms@.len(),
            forall|a: int, b: int|
                #![trigger syms@[a], syms@[b]]
                0 <= a < syms@.len() && 0 <= b < syms@.len() && (a < i || b < i)
                    && key_matches(syms@[a], syms@[b].file_no, syms@[b].contract_no, syms@[b].name@) ==> a == b,
        decreases syms@.len() - i,
    {
        let mut j: usize = i + 1;
        while j < syms.len()
            invariant
                i < syms@.len(),
                i + 1 <= j <= syms@.len(),
                forall|b: int| i < b < j ==> !key_matches(#[trigger] syms@[b], syms@[i as int].file_no, syms@[i as int].contract_no, syms@[i as int].name@),
            decreases syms@.len() - j,
        {
            let x = &syms[i];
            let y = &syms[j];
            if x.file_no == y.file_no && x.contract_no == y.contract_no && x.name == y.name {
                assert(key_matches(syms@[j as int], syms@[i as int].file_no, syms@[i as int].contract_no, syms@[i as int].name@));
                assert(!unique_keys(syms@)) by {
                    assert(key_matches(syms@[j as int], syms@[i as int].file_no, syms@[i as int].contract_no, syms@[i as int].name@));
                }
                return false;
            }
            j = j + 1;
        }
        assert forall|a: int, b: int|
            #![trigger syms@[a], syms@[b]]
            0 <= a < syms@.len() && 0 <= b < syms@.len() && (a < i + 1 || b < i + 1)
                && key_matches(syms@[a], syms@[b].file_no, syms@[b].contract_no, syms@[b].name@) implies a == b by {
            if a == i && b > i {
                assert(key_matches(syms@[b], syms@[i as int].file_no, syms@[i as int].contract_no, syms@[i as int].name@));
            } else if b == i && a > i {
                assert(key_matches(syms@[a], syms@[i as int].file_no, syms@[i as int].contract_no, syms@[i as int].name@));
            }
        }
        i = i + 1;
    }
    true
}

/// Whether the function and contract numbers of the namespace are in
/// range and its function symbols have unique keys: what the lookups of
/// callable functions need.
pub fn calls_wf_holds(ns: &Namespace) -> (ok: bool)
    ensures
        ok == calls_wf(ns),
{
    let mut c: usize = 0;
    while c < ns.contracts.len()
        invariant
            c <= ns.contracts@.len(),
            forall|d: int| 0 <= d < c
                ==> functions_in_range(ns.functions@, #[trigger] index_map_keys(ns.contracts@[d].all_functions)),
            forall|d: int, k: int| 0 <= d < c && 0 <= k < ns.contracts@[d].bases@.len()
                ==> #[trigger] ns.contracts@[d].bases@[k] < ns.contracts@.len(),
        decreases ns.contracts@.len() - c,
    {
        let keys = keys_of(&ns.contracts[c].all_functions);
        if !all_below(&keys, ns.functions.len()) {
            assert(!functions_in_range(ns.functions@, index_map_keys(ns.contracts@[c as int].all_functions)));
            return false;
        }
        if !all_below(&ns.contracts[c].bases, ns.contracts.len()) {
            let ghost k = choose|k: int| 0 <= k < ns.contracts@[c as int].bases@.len()
                && !(ns.contracts@[c as int].bases@[k] < ns.contracts@.len());
            assert(!(ns.contracts@[c as int].bases@[k] < ns.contracts@.len()));
            return false;
        }
        c = c + 1;
    }
    symbol_keys_unique(&ns.function_symbols)
}

/// Create a list of functions that can be called in this context. If global
/// is true, then include functions outside of contracts.
pub fn available_functions(name: &str, global: bool, file_no: usize, contract_no: Option<usize>, ns: &Namespace) -> (res: Vec<usize>)
    requires
        calls_wf(ns),
        contract_no is Some ==> contract_no->0 < ns.contracts@.len(),
    ensures
        res@ == (if global { global_functions(ns.function_symbols@, file_no, name@) } else { Seq::empty() })
            + match contract_no {
                Some(c) => named_with_body(ns.functions@, index_map_keys(ns.contracts@[c as int].all_functions), name@),
                None => Seq::empty(),
            },
{
    let name = String::from_str(name);
    let mut list: Vec<usize> = Vec::new();
    if global {
        match find_symbol(&ns.function_symbols, file_no, None, &name) {
            Some(i) => {
                match &ns.function_symbols[i].symbol {
                    Symbol::Function(v) => {
                        let mut k: usize = 0;
                        while k < v.len()
                            invariant
                                k <= v@.len(),
                                list@ == v@.take(k as int).map_values(|p: (crate::diagnostics::Loc, usize)| p.1),
                            decreases v@.len() - k,
                        {
                            list.push(v[k].1);
                            k = k + 1;
                            assert(list@ =~= v@.take(k as int).map_values(|p: (crate::diagnostics::Loc, usize)| p.1));
                        }
                        assert(v@.take(k as int) =~= v@);
                    },
                    _ => {},
                }
            },
            None => {},
        }
    }
    let ghost globals = list@;
    assert(globals == (if global { global_functions(ns.function_symbols@, file_no, name@) } else { Seq::<usize>::empty() }));
    if let Some(contract_no) = contract_no {
        extend_named_with_body(&mut list, &ns.functions, &keys_of(&ns.contracts[contract_no].all_functions), &name);
    } else {
        assert(list@ =~= globals + Seq::<usize>::empty());
    }
    list
}

/// The entry with the key, if any.
fn find_symbol(syms: &Vec<SymbolEntry>, file_no: usize, contract_no: Option<usize>, name: &String) -> (res: Option<usize>)
    requires
        unique_keys(syms@),
    ensures
        match res {
            Some(i) => symbol_index(syms@, file_no, contract_no, name@) == Some(i as int),
            None => symbol_index(syms@, file_no, contract_no, name@) is None,
        },
{
    let mut i: usize = 0;
    while i < syms.len()
        invariant
            i <= syms@.len(),
            unique_keys(syms@),
            forall|j: int| 0 <= j < i ==> !#[trigger] key_matches(syms@[j], file_no, contract_no, name@),
        decreases syms@.len() - i,
    {
        let e = &syms[i];
        if e.file_no == file_no && e.contract_no == contract_no && e.name == *name {
            assert(key_matches(syms@[i as int], file_no, contract_no, name@));
            proof {
                let k = choose|k: int| 0 <= k < syms@.len() && #[trigger] key_matches(syms@[k], file_no, contract_no, name@);
                assert(key_matches(syms@[k], syms@[i as int].file_no, syms@[i as int].contract_no, syms@[i as int].name@));
                assert(k == i);
            }
            return Some(i);
        }
        i = i + 1;
    }
    None
}

/// Create a list of functions that can be called via super: those of the
/// base contracts of `contract_no`, the last base first, skipping the
/// contract itself.
pub fn available_super_functions(name: &str, contract_no: usize, ns: &Namespace) -> (res: Vec<usize>)
    requires
        calls_wf(ns),
        contract_no < ns.contracts@.len(),
    ensures
        res@ == super_functions(ns.functions@, ns.contracts@, ns.contracts@[contract_no as int].bases@, contract_no, name@),
{
    let name = String::from_str(name);
    let bases = &ns.contracts[contract_no].bases;
    let ghost all = bases@;
    let mut list: Vec<usize> = Vec::new();
    let mut i: usize = bases.len();
    assert(all.take(i as int) =~= all);
    assert(list@ + super_functions(ns.functions@, ns.contracts@, all, contract_no, name@)
        =~= super_functions(ns.functions@, ns.contracts@, all, contract_no, name@));
    while i > 0
        invariant
            i <= all.len(),
            bases@ == all,
            all == ns.contracts@[contract_no as int].bases@,
            calls_wf(ns),
            contract_no < ns.contracts@.len(),
            super_functions(ns.functions@, ns.contracts@, all, contract_no, name@)
                == list@ + super_functions(ns.functions@, ns.contracts@, all.take(i as int), contract_no, name@),
        decreases i,
    {
        let base_contract_no = bases[i - 1];
        assert(all.take(i as int).drop_last() =~= all.take(i as int - 1));
        assert(base_contract_no < ns.contracts@.len());
        if base_contract_no != contract_no {
            let ghost before = list@;
            extend_named_with_body(&mut list, &ns.functions, &keys_of(&ns.contracts[base_contract_no].all_functions), &name);
            assert(before + (named_with_body(ns.functions@, index_map_keys(ns.contracts@[base_contract_no as int].all_functions), name@)
                + super_functions(ns.functions@, ns.contracts@, all.take(i as int - 1), contract_no, name@))
                =~= list@ + super_functions(ns.functions@, ns.contracts@, all.take(i as int - 1), contract_no, name@));
        }
        i = i - 1;
    }
    assert(list@ + Seq::<usize>::empty() =~= list@);
    list
}

/// The types of the values that a call of `func` gives: its return types,
/// or `void` where it has none or the values are discarded.
pub open spec fn returns_view(func: Function, resolve_to: ResolveTo) -> Seq<TypeView> {
    if func.returns@.len() > 0 && !(resolve_to is Discard) {
        view_types(func.returns@)
    } else {
        seq![TypeView::Void]
    }
}

/// Get the return values for a function call.
pub fn function_returns(ftype: &Function, resolve_to: ResolveTo) -> (res: Vec<Type>)
    ensures
        view_types(res@) == returns_view(*ftype, resolve_to),
{
    let discard = match resolve_to {
        ResolveTo::Discard => true,
        _ => false,
    };
    if ftype.returns.len() > 0 && !discard {
        copy_types(&ftype.returns)
    } else {
        let res = vec![Type::Void];
        proof {
            crate::types::lemma_view_types(res@);
        }
        assert(view_types(res@) =~= seq![TypeView::Void]);
        res
    }
}

/// The type of a function as an internal or external call sees it.
pub open spec fn function_type_view(func: Function, external: bool, resolve_to: ResolveTo) -> TypeView {
    if external {
        TypeView::ExternalFunction {
            mutability: func.mutability,
            params: view_types(func.params@),
            results: returns_view(func, resolve_to),
        }
    } else {
        TypeView::InternalFunction {
            mutability: func.mutability,
            params: view_types(func.params@),
            results: returns_view(func, resolve_to),
        }
    }
}

/// Get the function type for an internal or external function call.
pub fn function_type(func: &Function, external: bool, resolve_to: ResolveTo) -> (res: Type)
    ensures
        res@ == function_type_view(*func, external, resolve_to),
{
    let params = copy_types(&func.params);
    let mutability = func.mutability;
    let results = function_returns(func, resolve_to);
    if external {
        Type::ExternalFunction { mutability, params, results }
    } else {
        Type::InternalFunction { mutability, params, results }
    }
}

/// The message for a call of a private function of another contract.
pub open spec fn private_call_message(func: Function) -> Seq<char> {
    "cannot call private "@ + func.ty.spec_name()
}

/// The note that points at the declaration of a private function.
pub open spec fn private_declaration_note(func: Function) -> Seq<char> {
    "declaration of "@ + func.ty.spec_name() + " '"@ + func.name@ + "'"@
}

/// The message for a call, from inside its contract, of an external
/// function.
pub open spec fn external_call_message() -> Seq<char> {
    "external functions can only be invoked outside the contract"@
}

/// Whether a call from `context` cannot reach `func` because it is private
/// to another contract.
pub open spec fn calls_private_of_other(func: Function, context: ExprContext) -> bool {
    func.contract_no != context.contract_no && func.visibility is Private
}

/// Whether a call from `context` reaches `func`, an external function of
/// the same contract.
pub open spec fn calls_external_of_same(func: Function, context: ExprContext) -> bool {
    func.contract_no == context.contract_no && func.visibility is External
}

/// The call of function `function_no` with the given arguments: the
/// signature goes with it where the call is virtual and the function is
/// virtual or overrides another.
pub open spec fn internal_call_view(
    loc: Loc,
    function_no: usize,
    func: Function,
    resolve_to: ResolveTo,
    virtual_call: bool,
    args: Seq<ExpressionView>,
) -> ExpressionView {
    ExpressionView::InternalFunctionCall {
        loc,
        results: returns_view(func, resolve_to),
        function: Box::new(ExpressionView::InternalFunction {
            loc,
            ty: function_type_view(func, false, resolve_to),
            function_no,
            signature: if virtual_call && (func.is_virtual || func.is_override is Some) {
                Some(func.signature@)
            } else {
                None
            },
        }),
        args,
    }
}

/// Resolve a call of internal function `function_no` with arguments that
/// were already cast to its parameter types. A private function of another
/// contract cannot be called, nor an external function of the same
/// contract: these are reported and give `None`.
pub fn resolve_internal_call(
    loc: &Loc,
    function_no: usize,
    context: &ExprContext,
    resolve_to: ResolveTo,
    virtual_call: bool,
    cast_args: Vec<Expression>,
    ns: &Namespace,
    errors: &mut Diagnostics,
) -> (res: Option<Expression>)
    requires
        function_no < ns.functions@.len(),
    ensures
        calls_private_of_other(ns.functions@[function_no as int], *context) ==> {
            &&& res is None
            &&& final(errors)@ == old(errors)@.push(error_with_note_view(
                *loc,
                private_call_message(ns.functions@[function_no as int]),
                ns.functions@[function_no as int].loc,
                private_declaration_note(ns.functions@[function_no as int]),
            ))
        },
        calls_external_of_same(ns.functions@[function_no as int], *context) ==> {
            &&& res is None
            &&& final(errors)@ == old(errors)@.push(error_view(*loc, external_call_message()))
        },
        !calls_private_of_other(ns.functions@[function_no as int], *context)
            && !calls_external_of_same(ns.functions@[function_no as int], *context) ==> {
            &&& res matches Some(e) && e@ == internal_call_view(
                *loc,
                function_no,
                ns.functions@[function_no as int],
                resolve_to,
                virtual_call,
                view_list(cast_args@),
            )
            &&& final(errors)@ == old(errors)@
        },
{
    let func = &ns.functions[function_no];
    let external = match func.visibility {
        Visibility::External(_) => true,
        _ => false,
    };
    if func.contract_no != context.contract_no && func.is_private() {
        let mut message: Vec<char> = Vec::new();
        push_str(&mut message, "cannot call private ");
        push_str(&mut message, func.ty.name());
        let mut note: Vec<char> = Vec::new();
        push_str(&mut note, "declaration of ");
        push_str(&mut note, func.ty.name());
        push_str(&mut note, " '");
        push_str(&mut note, func.name.as_str());
        push_str(&mut note, "'");
        errors.push(Diagnostic::error_with_note(*loc, string_from_chars(&message), func.loc, string_from_chars(&note)));
        return None;
    } else if func.contract_no == context.contract_no && external {
        errors.push(Diagnostic::error(
            *loc,
            String::from_str("external functions can only be invoked outside the contract"),
        ));
        return None;
    }
    let results = function_returns(func, resolve_to);
    let ty = function_type(func, false, resolve_to);
    let signature = if virtual_call && (func.is_virtual || func.is_override.is_some()) {
        Some(func.signature.clone())
    } else {
        None
    };
    let function = Expression::InternalFunction { loc: *loc, ty, function_no, signature };
    assert(function@ == ExpressionView::InternalFunction {
        loc: *loc,
        ty: function_type_view(*func, false, resolve_to),
        function_no,
        signature: if virtual_call && (func.is_virtual || func.is_override is Some) {
            Some(func.signature@)
        } else {
            None
        },
    });
    let res = Expression::InternalFunctionCall { loc: *loc, results, function: Box::new(function), args: cast_args };
    assert(res@ == internal_call_view(*loc, function_no, *func, resolve_to, virtual_call, view_list(cast_args@)));
    Some(res)
}

/// The message for braces that hold code where call arguments belong.
pub open spec fn code_block_message() -> Seq<char> {
    "code block found where list of call arguments expected, like '{gas: 5000}'"@
}

/// Where the call arguments in braces are, once the braces at `block`
/// are added to those found so far at `loc`: from the start of those found
/// so far to the end of `block`.
pub open spec fn extended_args_loc(loc: Option<Loc>, block: Loc) -> Loc {
    match loc {
        Some(Loc::File(file_no, start, _)) => Loc::File(file_no, start, block->File_2),
        _ => block,
    }
}

/// Every pair of braces with call arguments, after the first, is in a
/// file, so that where they end is known.
pub open spec fn call_block_ends_known(expr: pt::Expression, loc: Option<Loc>) -> bool
    decreases expr,
{
    match expr {
        pt::Expression::FunctionCallBlock(_, e, block) => match *block {
            Statement::Args(block_loc, _) => {
                &&& (loc matches Some(Loc::File(..))) ==> block_loc is File
                &&& call_block_ends_known(*e, Some(extended_args_loc(loc, block_loc)))
            },
            _ => true,
        },
        _ => true,
    }
}

/// Collecting the call arguments in braces of `expr`, from the outermost
/// braces in, after the arguments `named` found so far at `loc`: the
/// expression that is called, all named arguments in order, and where
/// they are; or the error for braces that hold no arguments.
pub open spec fn collected_call_args(
    expr: pt::Expression,
    named: Seq<NamedArgument>,
    loc: Option<Loc>,
) -> Result<(pt::Expression, Seq<NamedArgument>, Option<Loc>), DiagnosticView>
    decreases expr,
{
    match expr {
        pt::Expression::FunctionCallBlock(_, e, block) => match *block {
            Statement::Args(block_loc, args) => collected_call_args(
                *e,
                named + args@,
                Some(extended_args_loc(loc, block_loc)),
            ),
            Statement::Block { loc: block_loc, statements, .. } => if statements.len() == 0 {
                Err(error_view(block_loc, "missing call arguments"@))
            } else {
                Err(error_view(block_loc, code_block_message()))
            },
            Statement::Other(block_loc) => Err(error_view(block_loc, code_block_message())),
        },
        _ => Ok((expr, named, loc)),
    }
}

/// The named arguments that references point to.
pub open spec fn named_derefs(s: Seq<&NamedArgument>) -> Seq<NamedArgument> {
    s.map_values(|a: &NamedArgument| *a)
}

/// Collect the call arguments in braces of `expr` after those in `named`.
fn collect_from<'a>(
    expr: &'a pt::Expression,
    named: &mut Vec<&'a NamedArgument>,
    loc: Option<Loc>,
    diagnostics: &mut Diagnostics,
) -> (res: Result<(&'a pt::Expression, Option<Loc>), ()>)
    requires
        call_block_ends_known(*expr, loc),
    ensures
        match collected_call_args(*expr, named_derefs(old(named)@), loc) {
            Ok((e, n, l)) => {
                &&& res matches Ok((r, rl)) && *r == e && rl == l
                &&& named_derefs(final(named)@) == n
                &&& final(diagnostics)@ == old(diagnostics)@
            },
            Err(d) => res is Err && final(diagnostics)@ == old(diagnostics)@.push(d),
        },
    decreases expr,
{
    match expr {
        pt::Expression::FunctionCallBlock(_, e, block) => match &**block {
            Statement::Args(block_loc, args) => {
                let new_loc = match (loc, block_loc) {
                    (Some(Loc::File(file_no, start, _)), Loc::File(_, _, end)) => Loc::File(file_no, start, *end),
                    _ => *block_loc,
                };
                let ghost start = named@;
                let mut i: usize = 0;
                while i < args.len()
                    invariant
                        i <= args@.len(),
                        named_derefs(named@) == named_derefs(start) + args@.take(i as int),
                    decreases args@.len() - i,
                {
                    let ghost prev = named@;
                    named.push(&args[i]);
                    assert(named_derefs(named@) =~= named_derefs(prev).push(args@[i as int]));
                    assert(args@.take(i + 1) =~= args@.take(i as int).push(args@[i as int]));
                    i = i + 1;
                    assert(named_derefs(named@) =~= named_derefs(start) + args@.take(i as int));
                }
                assert(args@.take(i as int) =~= args@);
                collect_from(&**e, named, Some(new_loc), diagnostics)
            },
            Statement::Block { loc: block_loc, statements, .. } => {
                if statements.len() == 0 {
                    diagnostics.push(Diagnostic::error(*block_loc, String::from_str("missing call arguments")));
                } else {
                    diagnostics.push(Diagnostic::error(
                        *block_loc,
                        String::from_str("code block found where list of call arguments expected, like '{gas: 5000}'"),
                    ));
                }
                Err(())
            },
            Statement::Other(block_loc) => {
                diagnostics.push(Diagnostic::error(
                    *block_loc,
                    String::from_str("code block found where list of call arguments expected, like '{gas: 5000}'"),
                ));
                Err(())
            },
        },
        _ => Ok((expr, loc)),
    }
}

/// Collect the call arguments in braces of a call, `f{gas: 5000}(...)`:
/// the expression that is called, the named arguments from the outermost
/// braces in, and where they are. Braces that hold no arguments are an
/// error.
pub fn collect_call_args<'a>(
    expr: &'a pt::Expression,
    diagnostics: &mut Diagnostics,
) -> (res: Result<(&'a pt::Expression, Vec<&'a NamedArgument>, Option<Loc>), ()>)
    requires
        call_block_ends_known(*expr, None),
    ensures
        match collected_call_args(*expr, Seq::empty(), None) {
            Ok((e, n, l)) => {
                &&& res matches Ok((r, args, rl)) && *r == e && named_derefs(args@) == n && rl == l
                &&& final(diagnostics)@ == old(diagnostics)@
            },
            Err(d) => res is Err && final(diagnostics)@ == old(diagnostics)@.push(d),
        },
{
    let mut named: Vec<&'a NamedArgument> = Vec::new();
    assert(named_derefs(named@) =~= Seq::<NamedArgument>::empty());
    match collect_from(expr, &mut named, None, diagnostics) {
        Ok((e, loc)) => Ok((e, named, loc)),
        Err(()) => Err(()),
    }
}


/// A call by name is refused exactly for a private function of another
/// contract, or an external function of the same contract: a public or
/// internal function, of this contract or of a base, is always called.
pub proof fn law_internal_call_refused_only_for_private_or_external(func: Function, context: ExprContext)
    ensures
        (calls_private_of_other(func, context) || calls_external_of_same(func, context)) <==> (
            (func.visibility is Private && func.contract_no != context.contract_no)
                || (func.visibility is External && func.contract_no == context.contract_no)
        ),
        (func.visibility is Internal || func.visibility is Public)
            ==> !calls_private_of_other(func, context) && !calls_external_of_same(func, context),
{
}


/// A resolved internal call is at `loc`, of function `function_no`, with
/// the arguments given and the function's values as its results; it
/// carries the function's signature exactly where the call is virtual and
/// the function is virtual or overrides another.
pub proof fn law_internal_call_shape(
    loc: Loc,
    function_no: usize,
    func: Function,
    resolve_to: ResolveTo,
    virtual_call: bool,
    args: Seq<ExpressionView>,
)
    ensures
        internal_call_view(loc, function_no, func, resolve_to, virtual_call, args) matches ExpressionView::InternalFunctionCall {
            loc: l, results, function, args: a,
        } && l == loc && a == args && results == returns_view(func, resolve_to)
            && (*function matches ExpressionView::InternalFunction { loc: fl, function_no: n, signature, .. }
                && fl == loc && n == function_no
                && (signature is Some <==> (virtual_call && (func.is_virtual || func.is_override is Some)))
                && (signature matches Some(t) ==> t == func.signature@)),
{
}

} // verus!
