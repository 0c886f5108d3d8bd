//! The types of Solidity expressions.

use vstd::prelude::*;
use crate::diagnostics::Loc;
use crate::number::{Number, int_text, number_text, signed_value};
use crate::namespace::Namespace;
use crate::text::{decimal, push_decimal, push_str, string_from_chars};

verus! {

/// The state mutability of a function.
#[derive(Clone, Copy, Debug, PartialEq, Eq, Structural)]
pub enum Mutability {
    Payable(Loc),
    Nonpayable(Loc),
    View(Loc),
    Pure(Loc),
}

/// The length of one dimension of an array type.
#[derive(Debug)]
pub enum ArrayLength {
    Fixed(Number),
    Dynamic,
    /// Fixed length, but not known yet.
    AnyFixed,
}

/// A struct type: one declared in the program, or one of the builtins.
#[derive(Clone, Copy, Debug, PartialEq, Eq, Structural)]
pub enum StructType {
    UserDefined(usize),
    AccountInfo,
    AccountMeta,
    ExternalFunction,
    SolParameters,
}

/// The type of an expression.
#[derive(Debug)]
pub enum Type {
    Address(bool),
    Bool,
    Int(u16),
    Uint(u16),
    Rational,
    Bytes(u8),
    DynamicBytes,
    String,
    Array(Box<Type>, Vec<ArrayLength>),
    Enum(usize),
    Struct(StructType),
    Mapping(Box<Type>, Box<Type>),
    Contract(usize),
    Ref(Box<Type>),
    StorageRef(bool, Box<Type>),
    InternalFunction { mutability: Mutability, params: Vec<Type>, results: Vec<Type> },
    ExternalFunction { mutability: Mutability, params: Vec<Type>, results: Vec<Type> },
    UserType(usize),
    Value,
    Void,
    Unreachable,
    Slice(Box<Type>),
    Unresolved,
    BufferPointer,
    FunctionSelector,
}

/// The length of one dimension of an array type, as contracts speak of it.
pub enum ArrayLengthView {
    /// The sign and big-endian magnitude bytes of the length.
    Fixed(bool, Seq<u8>),
    Dynamic,
    AnyFixed,
}

/// A type as contracts speak of it.
pub enum TypeView {
    Address(bool),
    Bool,
    Int(u16),
    Uint(u16),
    Rational,
    Bytes(u8),
    DynamicBytes,
    String,
    Array(Box<TypeView>, Seq<ArrayLengthView>),
    Enum(usize),
    Struct(StructType),
    Mapping(Box<TypeView>, Box<TypeView>),
    Contract(usize),
    Ref(Box<TypeView>),
    StorageRef(bool, Box<TypeView>),
    InternalFunction { mutability: Mutability, params: Seq<TypeView>, results: Seq<TypeView> },
    ExternalFunction { mutability: Mutability, params: Seq<TypeView>, results: Seq<TypeView> },
    UserType(usize),
    Value,
    Void,
    Unreachable,
    Slice(Box<TypeView>),
    Unresolved,
    BufferPointer,
    FunctionSelector,
}

impl View for ArrayLength {
    type V = ArrayLengthView;

    open spec fn view(&self) -> ArrayLengthView {
        match self {
            ArrayLength::Fixed(n) => ArrayLengthView::Fixed(n.negative, n.magnitude@),
            ArrayLength::Dynamic => ArrayLengthView::Dynamic,
            ArrayLength::AnyFixed => ArrayLengthView::AnyFixed,
        }
    }
}

/// The views of array lengths.
pub open spec fn view_lengths(s: Seq<ArrayLength>) -> Seq<ArrayLengthView> {
    s.map_values(|l: ArrayLength| l@)
}

/// The view of a type.
pub open spec fn view_type(t: Type) -> TypeView
    decreases t, 1int,
{
    match t {
        Type::Address(p) => TypeView::Address(p),
        Type::Bool => TypeView::Bool,
        Type::Int(n) => TypeView::Int(n),
        Type::Uint(n) => TypeView::Uint(n),
        Type::Rational => TypeView::Rational,
        Type::Bytes(n) => TypeView::Bytes(n),
        Type::DynamicBytes => TypeView::DynamicBytes,
        Type::String => TypeView::String,
        Type::Array(elem, dims) => TypeView::Array(Box::new(view_type(*elem)), view_lengths(dims@)),
        Type::Enum(n) => TypeView::Enum(n),
        Type::Struct(s) => TypeView::Struct(s),
        Type::Mapping(k, v) => TypeView::Mapping(Box::new(view_type(*k)), Box::new(view_type(*v))),
        Type::Contract(n) => TypeView::Contract(n),
        Type::Ref(r) => TypeView::Ref(Box::new(view_type(*r))),
        Type::StorageRef(b, r) => TypeView::StorageRef(b, Box::new(view_type(*r))),
        Type::InternalFunction { mutability, params, results } => TypeView::InternalFunction {
            mutability,
            params: view_types(params@),
            results: view_types(results@),
        },
        Type::ExternalFunction { mutability, params, results } => TypeView::ExternalFunction {
            mutability,
            params: view_types(params@),
            results: view_types(results@),
        },
        Type::UserType(n) => TypeView::UserType(n),
        Type::Value => TypeView::Value,
        Type::Void => TypeView::Void,
        Type::Unreachable => TypeView::Unreachable,
        Type::Slice(r) => TypeView::Slice(Box::new(view_type(*r))),
        Type::Unresolved => TypeView::Unresolved,
        Type::BufferPointer => TypeView::BufferPointer,
        Type::FunctionSelector => TypeView::FunctionSelector,
    }
}

/// The views of a list of types.
pub open spec fn view_types(s: Seq<Type>) -> Seq<TypeView>
    decreases s, 0int,
{
    if s.len() == 0 {
        Seq::empty()
    } else {
        view_types(s.drop_last()).push(view_type(s.last()))
    }
}

/// The view keeps the variant of a type, and the width of the fixed ones.
pub proof fn lemma_view_variant(t: Type)
    ensures
        (t@ == TypeView::String) == (t is String),
        (t@ == TypeView::DynamicBytes) == (t is DynamicBytes),
        (t@ == TypeView::Bool) == (t is Bool),
        (t@ == TypeView::Rational) == (t is Rational),
        (t@ == TypeView::Unresolved) == (t is Unresolved),
        (t@ == TypeView::Value) == (t is Value),
        (t@ == TypeView::FunctionSelector) == (t is FunctionSelector),
        forall|n: u8| (t@ == TypeView::Bytes(n)) == (t == Type::Bytes(n)),
        forall|n: u16| (t@ == TypeView::Int(n)) == (t == Type::Int(n)),
        forall|n: u16| (t@ == TypeView::Uint(n)) == (t == Type::Uint(n)),
        forall|p: bool| (t@ == TypeView::Address(p)) == (t == Type::Address(p)),
        t@ is Slice == t is Slice,
        t@ is Ref == t is Ref,
        t@ is StorageRef == t is StorageRef,
        t@ is Array == t is Array,
{
}

impl View for Type {
    type V = TypeView;

    open spec fn view(&self) -> TypeView {
        view_type(*self)
    }
}

impl ArrayLength {
    /// A copy of this length.
    pub fn copy(&self) -> (res: ArrayLength)
        ensures
            res@ == self@,
    {
        match self {
            ArrayLength::Fixed(n) => {
                let m = n.copy();
                assert(m.magnitude@ =~= n.magnitude@);
                ArrayLength::Fixed(m)
            },
            ArrayLength::Dynamic => ArrayLength::Dynamic,
            ArrayLength::AnyFixed => ArrayLength::AnyFixed,
        }
    }

    /// Whether two lengths are the same.
    pub fn same(&self, other: &ArrayLength) -> (res: bool)
        ensures
            res == (self@ == other@),
    {
        match (self, other) {
            (ArrayLength::Fixed(a), ArrayLength::Fixed(b)) => {
                let r = a.same(b);
                proof {
                    if r {
                        assert(a.magnitude@ =~= b.magnitude@);
                    }
                }
                r
            },
            (ArrayLength::Dynamic, ArrayLength::Dynamic) => true,
            (ArrayLength::AnyFixed, ArrayLength::AnyFixed) => true,
            _ => false,
        }
    }
}

fn copy_lengths(v: &Vec<ArrayLength>) -> (res: Vec<ArrayLength>)
    ensures
        view_lengths(res@) == view_lengths(v@),
{
    let mut out: Vec<ArrayLength> = Vec::new();
    let mut i: usize = 0;
    while i < v.len()
        invariant
            i <= v@.len(),
            out@.len() == i,
            forall|j: int| 0 <= j < i ==> #[trigger] out@[j]@ == v@[j]@,
        decreases v@.len() - i,
    {
        out.push(v[i].copy());
        i = i + 1;
    }
    assert(view_lengths(out@) =~= view_lengths(v@));
    out
}

fn same_lengths(a: &Vec<ArrayLength>, b: &Vec<ArrayLength>) -> (res: bool)
    ensures
        res == (view_lengths(a@) == view_lengths(b@)),
{
    assert(view_lengths(a@).len() == a@.len() && view_lengths(b@).len() == b@.len());
    if a.len() != b.len() {
        return false;
    }
    let mut i: usize = 0;
    while i < a.len()
        invariant
            i <= a@.len(),
            a@.len() == b@.len(),
            forall|j: int| 0 <= j < i ==> a@[j]@ == b@[j]@,
        decreases a@.len() - i,
    {
        if !a[i].same(&b[i]) {
            assert(view_lengths(a@)[i as int] != view_lengths(b@)[i as int]);
            return false;
        }
        i = i + 1;
    }
    assert(view_lengths(a@) =~= view_lengths(b@));
    true
}

impl Type {
    /// A copy of this type.
    pub fn copy(&self) -> (res: Type)
        ensures
            res@ == self@,
        decreases self,
    {
        match self {
            Type::Address(p) => Type::Address(*p),
            Type::Bool => Type::Bool,
            Type::Int(n) => Type::Int(*n),
            Type::Uint(n) => Type::Uint(*n),
            Type::Rational => Type::Rational,
            Type::Bytes(n) => Type::Bytes(*n),
            Type::DynamicBytes => Type::DynamicBytes,
            Type::String => Type::String,
            Type::Array(elem, dims) => Type::Array(Box::new((**elem).copy()), copy_lengths(dims)),
            Type::Enum(n) => Type::Enum(*n),
            Type::Struct(s) => Type::Struct(*s),
            Type::Mapping(k, v) => Type::Mapping(Box::new((**k).copy()), Box::new((**v).copy())),
            Type::Contract(n) => Type::Contract(*n),
            Type::Ref(r) => Type::Ref(Box::new((**r).copy())),
            Type::StorageRef(b, r) => Type::StorageRef(*b, Box::new((**r).copy())),
            Type::InternalFunction { mutability, params, results } => Type::InternalFunction {
                mutability: *mutability,
                params: copy_types(params),
                results: copy_types(results),
            },
            Type::ExternalFunction { mutability, params, results } => Type::ExternalFunction {
                mutability: *mutability,
                params: copy_types(params),
                results: copy_types(results),
            },
            Type::UserType(n) => Type::UserType(*n),
            Type::Value => Type::Value,
            Type::Void => Type::Void,
            Type::Unreachable => Type::Unreachable,
            Type::Slice(r) => Type::Slice(Box::new((**r).copy())),
            Type::Unresolved => Type::Unresolved,
            Type::BufferPointer => Type::BufferPointer,
            Type::FunctionSelector => Type::FunctionSelector,
        }
    }

    /// Whether two types are the same.
    pub fn same(&self, other: &Type) -> (res: bool)
        ensures
            res == (self@ == other@),
        decreases self,
    {
        match (self, other) {
            (Type::Address(a), Type::Address(b)) => *a == *b,
            (Type::Bool, Type::Bool) => true,
            (Type::Int(a), Type::Int(b)) => *a == *b,
            (Type::Uint(a), Type::Uint(b)) => *a == *b,
            (Type::Rational, Type::Rational) => true,
            (Type::Bytes(a), Type::Bytes(b)) => *a == *b,
            (Type::DynamicBytes, Type::DynamicBytes) => true,
            (Type::String, Type::String) => true,
            (Type::Array(a, da), Type::Array(b, db)) => (**a).same(&**b) && same_lengths(da, db),
            (Type::Enum(a), Type::Enum(b)) => *a == *b,
            (Type::Struct(a), Type::Struct(b)) => *a == *b,
            (Type::Mapping(ak, av), Type::Mapping(bk, bv)) => (**ak).same(&**bk) && (**av).same(&**bv),
            (Type::Contract(a), Type::Contract(b)) => *a == *b,
            (Type::Ref(a), Type::Ref(b)) => (**a).same(&**b),
            (Type::StorageRef(x, a), Type::StorageRef(y, b)) => *x == *y && (**a).same(&**b),
            (
                Type::InternalFunction { mutability: ma, params: pa, results: ra },
                Type::InternalFunction { mutability: mb, params: pb, results: rb },
            ) => *ma == *mb && same_types(pa, pb) && same_types(ra, rb),
            (
                Type::ExternalFunction { mutability: ma, params: pa, results: ra },
                Type::ExternalFunction { mutability: mb, params: pb, results: rb },
            ) => *ma == *mb && same_types(pa, pb) && same_types(ra, rb),
            (Type::UserType(a), Type::UserType(b)) => *a == *b,
            (Type::Value, Type::Value) => true,
            (Type::Void, Type::Void) => true,
            (Type::Unreachable, Type::Unreachable) => true,
            (Type::Slice(a), Type::Slice(b)) => (**a).same(&**b),
            (Type::Unresolved, Type::Unresolved) => true,
            (Type::BufferPointer, Type::BufferPointer) => true,
            (Type::FunctionSelector, Type::FunctionSelector) => true,
            _ => false,
        }
    }
}

/// The views of a list of types are those of its elements.
pub proof fn lemma_view_types(s: Seq<Type>)
    ensures
        view_types(s).len() == s.len(),
        forall|i: int| 0 <= i < s.len() ==> #[trigger] view_types(s)[i] == s[i]@,
    decreases s.len(),
{
    if s.len() > 0 {
        lemma_view_types(s.drop_last());
    }
}

/// Lists of types with element-wise equal views have equal views.
pub proof fn lemma_view_types_ext(a: Seq<Type>, b: Seq<Type>)
    requires
        a.len() == b.len(),
        forall|i: int| 0 <= i < a.len() ==> #[trigger] a[i]@ == b[i]@,
    ensures
        view_types(a) == view_types(b),
{
    lemma_view_types(a);
    lemma_view_types(b);
    assert(view_types(a) =~= view_types(b));
}

/// A copy of each type.
pub fn copy_types(v: &Vec<Type>) -> (res: Vec<Type>)
    ensures
        view_types(res@) == view_types(v@),
    decreases v,
{
    let mut out: Vec<Type> = Vec::new();
    let mut i: usize = 0;
    while i < v.len()
        invariant
            i <= v@.len(),
            out@.len() == i,
            forall|j: int| 0 <= j < i ==> #[trigger] out@[j]@ == v@[j]@,
        decreases v@.len() - i,
    {
        proof {
            assert(decreases_to!(v => v@[i as int]));
        }
        out.push(v[i].copy());
        i = i + 1;
    }
    proof {
        lemma_view_types_ext(out@, v@);
    }
    out
}

/// Whether two lists of types are the same.
pub fn same_types(a: &Vec<Type>, b: &Vec<Type>) -> (res: bool)
    ensures
        res == (view_types(a@) == view_types(b@)),
    decreases a,
{
    proof {
        lemma_view_types(a@);
        lemma_view_types(b@);
    }
    if a.len() != b.len() {
        return false;
    }
    let mut i: usize = 0;
    while i < a.len()
        invariant
            i <= a@.len(),
            a@.len() == b@.len(),
            forall|j: int| 0 <= j < i ==> #[trigger] a@[j]@ == b@[j]@,
        decreases a@.len() - i,
    {
        proof {
            assert(decreases_to!(a => a@[i as int]));
        }
        if !a[i].same(&b[i]) {
            proof {
                lemma_view_types(a@);
                lemma_view_types(b@);
                assert(view_types(a@)[i as int] == a@[i as int]@);
                assert(view_types(b@)[i as int] == b@[i as int]@);
                assert(view_types(a@)[i as int] != view_types(b@)[i as int]);
            }
            return false;
        }
        i = i + 1;
    }
    proof {
        lemma_view_types_ext(a@, b@);
    }
    true
}

/// The text of a mutability as it follows a function type.
pub open spec fn mutability_suffix(m: Mutability) -> Seq<char> {
    match m {
        Mutability::Pure(_) => " pure"@,
        Mutability::View(_) => " view"@,
        Mutability::Payable(_) => " payable"@,
        Mutability::Nonpayable(_) => Seq::empty(),
    }
}

/// The name of a struct type.
pub open spec fn struct_name(s: StructType, ns: &Namespace) -> Seq<char> {
    match s {
        StructType::UserDefined(n) => ns.structs@[n as int]@,
        StructType::AccountInfo => "AccountInfo"@,
        StructType::AccountMeta => "AccountMeta"@,
        StructType::ExternalFunction => "ExternalFunction"@,
        StructType::SolParameters => "SolParameters"@,
    }
}

/// The text of one array dimension.
pub open spec fn length_text(l: ArrayLengthView) -> Seq<char> {
    match l {
        ArrayLengthView::Fixed(negative, magnitude) => seq!['['] + int_text(signed_value(negative, magnitude)) + seq![']'],
        _ => "[]"@,
    }
}

/// The text of the dimensions of an array.
pub open spec fn lengths_text(dims: Seq<ArrayLengthView>) -> Seq<char>
    decreases dims.len(),
{
    if dims.len() == 0 {
        Seq::empty()
    } else {
        lengths_text(dims.drop_last()) + length_text(dims.last())
    }
}

/// Whether every enum, struct, contract and user type that `t` names is
/// declared in `ns`, and, where `t` holds the value type, its width in bits
/// fits: what printing `t` reads.
pub open spec fn names_declared(t: TypeView, ns: &Namespace) -> bool
    decreases t, 1int,
{
    match t {
        TypeView::Array(elem, _) => names_declared(*elem, ns),
        TypeView::Enum(n) => n < ns.enums@.len(),
        TypeView::Struct(StructType::UserDefined(n)) => n < ns.structs@.len(),
        TypeView::Mapping(k, v) => names_declared(*k, ns) && names_declared(*v, ns),
        TypeView::Contract(n) => n < ns.contracts@.len(),
        TypeView::Ref(r) => names_declared(*r, ns),
        TypeView::StorageRef(_, r) => names_declared(*r, ns),
        TypeView::InternalFunction { params, results, .. } => all_names_declared(params, ns) && all_names_declared(results, ns),
        TypeView::ExternalFunction { params, results, .. } => all_names_declared(params, ns) && all_names_declared(results, ns),
        TypeView::UserType(n) => n < ns.user_types@.len(),
        TypeView::Slice(r) => names_declared(*r, ns),
        TypeView::Value => ns.value_length * 8 <= usize::MAX,
        _ => true,
    }
}

/// Whether every type of the list names only what `ns` declares.
pub open spec fn all_names_declared(ts: Seq<TypeView>, ns: &Namespace) -> bool
    decreases ts, 0int,
{
    if ts.len() == 0 {
        true
    } else {
        all_names_declared(ts.drop_last(), ns) && names_declared(ts.last(), ns)
    }
}

/// The text of a type.
pub open spec fn type_text(t: TypeView, ns: &Namespace) -> Seq<char>
    decreases t, 1int,
{
    match t {
        TypeView::Bool => "bool"@,
        TypeView::Address(payable) => if payable { "address payable"@ } else { "address"@ },
        TypeView::Int(n) => "int"@ + decimal(n as nat),
        TypeView::Uint(n) => "uint"@ + decimal(n as nat),
        TypeView::Rational => "rational"@,
        TypeView::Value => "uint"@ + decimal((ns.value_length * 8) as nat),
        TypeView::Bytes(n) => "bytes"@ + decimal(n as nat),
        TypeView::String => "string"@,
        TypeView::DynamicBytes => "bytes"@,
        TypeView::Enum(n) => "enum "@ + ns.enums@[n as int]@,
        TypeView::Struct(s) => "struct "@ + struct_name(s, ns),
        TypeView::Array(elem, dims) => type_text(*elem, ns) + lengths_text(dims),
        TypeView::Mapping(k, v) => "mapping("@ + type_text(*k, ns) + " => "@ + type_text(*v, ns) + ")"@,
        TypeView::InternalFunction { mutability, params, results } =>
            "function("@ + types_text(params, ns) + ") internal"@ + mutability_suffix(mutability)
                + (if results.len() > 0 { " returns ("@ + types_text(results, ns) + ")"@ } else { Seq::empty() }),
        TypeView::ExternalFunction { mutability, params, results } =>
            "function("@ + types_text(params, ns) + ") external"@ + mutability_suffix(mutability)
                + (if results.len() > 0 { " returns ("@ + types_text(results, ns) + ")"@ } else { Seq::empty() }),
        TypeView::Contract(n) => "contract "@ + ns.contracts@[n as int].name@,
        TypeView::UserType(n) => "usertype "@ + ns.user_types@[n as int].name@,
        TypeView::Ref(r) => type_text(*r, ns),
        TypeView::StorageRef(_, r) => type_text(*r, ns) + " storage"@,
        TypeView::Void => "void"@,
        TypeView::Unreachable => "unreachable"@,
        TypeView::Slice(r) => type_text(*r, ns) + " slice"@,
        TypeView::Unresolved => "unresolved"@,
        TypeView::BufferPointer => "buffer_pointer"@,
        TypeView::FunctionSelector => "function_selector"@,
    }
}

/// The texts of a list of types, separated by commas.
pub open spec fn types_text(ts: Seq<TypeView>, ns: &Namespace) -> Seq<char>
    decreases ts, 0int,
{
    if ts.len() == 0 {
        Seq::empty()
    } else if ts.len() == 1 {
        type_text(ts[0], ns)
    } else {
        types_text(ts.drop_last(), ns) + seq![','] + type_text(ts.last(), ns)
    }
}

/// The view of a prefix of a list of types grows by one element at a time.
proof fn lemma_view_types_take(s: Seq<Type>, i: int)
    requires
        0 <= i < s.len(),
    ensures
        view_types(s.take(i + 1)) == view_types(s.take(i)).push(s[i]@),
{
    assert(s.take(i + 1).drop_last() =~= s.take(i));
}

fn push_mutability_suffix(out: &mut Vec<char>, m: Mutability)
    ensures
        final(out)@ == old(out)@ + mutability_suffix(m),
{
    match m {
        Mutability::Pure(_) => push_str(out, " pure"),
        Mutability::View(_) => push_str(out, " view"),
        Mutability::Payable(_) => push_str(out, " payable"),
        Mutability::Nonpayable(_) => {
            assert(out@ =~= old(out)@ + Seq::<char>::empty());
        },
    }
}

fn push_lengths_text(out: &mut Vec<char>, dims: &Vec<ArrayLength>)
    ensures
        final(out)@ == old(out)@ + lengths_text(view_lengths(dims@)),
{
    let mut i: usize = 0;
    assert(view_lengths(dims@.take(0)) =~= Seq::<ArrayLengthView>::empty());
    assert(out@ =~= old(out)@ + lengths_text(view_lengths(dims@.take(0))));
    while i < dims.len()
        invariant
            i <= dims@.len(),
            out@ == old(out)@ + lengths_text(view_lengths(dims@.take(i as int))),
        decreases dims@.len() - i,
    {
        let ghost before = out@;
        match &dims[i] {
            ArrayLength::Fixed(n) => {
                out.push('[');
                let text = number_text(n);
                push_str(out, text.as_str());
                out.push(']');
            },
            _ => push_str(out, "[]"),
        }
        assert(view_lengths(dims@.take(i as int + 1)).drop_last() =~= view_lengths(dims@.take(i as int)));
        i = i + 1;
        assert(out@ =~= old(out)@ + lengths_text(view_lengths(dims@.take(i as int))));
    }
    assert(dims@.take(i as int) =~= dims@);
}

fn push_struct_name(out: &mut Vec<char>, st: StructType, ns: &Namespace)
    requires
        st matches StructType::UserDefined(n) ==> n < ns.structs@.len(),
    ensures
        final(out)@ == old(out)@ + struct_name(st, ns),
{
    match st {
        StructType::UserDefined(n) => push_str(out, ns.structs[n].as_str()),
        StructType::AccountInfo => push_str(out, "AccountInfo"),
        StructType::AccountMeta => push_str(out, "AccountMeta"),
        StructType::ExternalFunction => push_str(out, "ExternalFunction"),
        StructType::SolParameters => push_str(out, "SolParameters"),
    }
}

/// Append the text of `t` to `out`.
pub fn push_type_text(out: &mut Vec<char>, t: &Type, ns: &Namespace)
    requires
        names_declared(t@, ns),
    ensures
        final(out)@ == old(out)@ + type_text(t@, ns),
    decreases t, 1int,
{
    match t {
        Type::Bool => push_str(out, "bool"),
        Type::Address(payable) => {
            if *payable {
                push_str(out, "address payable")
            } else {
                push_str(out, "address")
            }
        },
        Type::Int(n) => {
            push_str(out, "int");
            push_decimal(out, *n as usize);
        },
        Type::Uint(n) => {
            push_str(out, "uint");
            push_decimal(out, *n as usize);
        },
        Type::Rational => push_str(out, "rational"),
        Type::Value => {
            push_str(out, "uint");
            push_decimal(out, ns.value_length * 8);
        },
        Type::Bytes(n) => {
            push_str(out, "bytes");
            push_decimal(out, *n as usize);
        },
        Type::String => push_str(out, "string"),
        Type::DynamicBytes => push_str(out, "bytes"),
        Type::Enum(n) => {
            push_str(out, "enum ");
            push_str(out, ns.enums[*n].as_str());
        },
        Type::Struct(st) => {
            push_str(out, "struct ");
            push_struct_name(out, *st, ns);
        },
        Type::Array(elem, dims) => {
            push_type_text(out, &**elem, ns);
            push_lengths_text(out, dims);
        },
        Type::Mapping(k, v) => {
            push_str(out, "mapping(");
            push_type_text(out, &**k, ns);
            push_str(out, " => ");
            push_type_text(out, &**v, ns);
            push_str(out, ")");
        },
        Type::InternalFunction { mutability, params, results } => {
            push_str(out, "function(");
            push_types_text(out, params, ns);
            push_str(out, ") internal");
            push_mutability_suffix(out, *mutability);
            proof { lemma_view_types(results@); }
            if results.len() > 0 {
                push_str(out, " returns (");
                push_types_text(out, results, ns);
                push_str(out, ")");
            }
        },
        Type::ExternalFunction { mutability, params, results } => {
            push_str(out, "function(");
            push_types_text(out, params, ns);
            push_str(out, ") external");
            push_mutability_suffix(out, *mutability);
            proof { lemma_view_types(results@); }
            if results.len() > 0 {
                push_str(out, " returns (");
                push_types_text(out, results, ns);
                push_str(out, ")");
            }
        },
        Type::Contract(n) => {
            push_str(out, "contract ");
            push_str(out, ns.contracts[*n].name.as_str());
        },
        Type::UserType(n) => {
            push_str(out, "usertype ");
            push_str(out, ns.user_types[*n].name.as_str());
        },
        Type::Ref(r) => push_type_text(out, &**r, ns),
        Type::StorageRef(_, r) => {
            push_type_text(out, &**r, ns);
            push_str(out, " storage");
        },
        Type::Void => push_str(out, "void"),
        Type::Unreachable => push_str(out, "unreachable"),
        Type::Slice(r) => {
            push_type_text(out, &**r, ns);
            push_str(out, " slice");
        },
        Type::Unresolved => push_str(out, "unresolved"),
        Type::BufferPointer => push_str(out, "buffer_pointer"),
        Type::FunctionSelector => push_str(out, "function_selector"),
    }
    assert(final(out)@ =~= old(out)@ + type_text(t@, ns));
}

/// Append the texts of `ts`, separated by commas, to `out`.
pub fn push_types_text(out: &mut Vec<char>, ts: &Vec<Type>, ns: &Namespace)
    requires
        all_names_declared(view_types(ts@), ns),
    ensures
        final(out)@ == old(out)@ + types_text(view_types(ts@), ns),
    decreases ts, 0int,
{
    let mut i: usize = 0;
    assert(ts@.take(0) =~= Seq::<Type>::empty());
    assert(out@ =~= old(out)@ + types_text(view_types(ts@.take(0)), ns));
    while i < ts.len()
        invariant
            i <= ts@.len(),
            all_names_declared(view_types(ts@), ns),
            out@ == old(out)@ + types_text(view_types(ts@.take(i as int)), ns),
        decreases ts@.len() - i,
    {
        let ghost prefix = view_types(ts@.take(i as int));
        proof {
            assert(decreases_to!(ts => ts@[i as int]));
            lemma_view_types_take(ts@, i as int);
            lemma_view_types(ts@);
            lemma_view_types(ts@.take(i as int));
            lemma_all_names_declared(view_types(ts@), ns, i as int);
            assert(view_types(ts@)[i as int] == ts@[i as int]@);
            let next = prefix.push(ts@[i as int]@);
            assert(next.drop_last() =~= prefix);
            assert(prefix.len() == i);
        }
        if i > 0 {
            out.push(',');
        }
        push_type_text(out, &ts[i], ns);
        i = i + 1;
        assert(out@ =~= old(out)@ + types_text(view_types(ts@.take(i as int)), ns));
    }
    assert(ts@.take(i as int) =~= ts@);
}

/// Every element of a list whose names are declared has its names declared.
proof fn lemma_all_names_declared(ts: Seq<TypeView>, ns: &Namespace, i: int)
    requires
        all_names_declared(ts, ns),
        0 <= i < ts.len(),
    ensures
        names_declared(ts[i], ns),
    decreases ts.len(),
{
    if i < ts.len() - 1 {
        lemma_all_names_declared(ts.drop_last(), ns, i);
    }
}

impl Type {
    /// The text of this type, as diagnostics show it.
    pub fn to_string(&self, ns: &Namespace) -> (res: String)
        requires
            names_declared(self@, ns),
        ensures
            res@ == type_text(self@, ns),
    {
        let mut out: Vec<char> = Vec::new();
        push_type_text(&mut out, self, ns);
        assert(out@ =~= type_text(self@, ns));
        string_from_chars(&out)
    }
}

impl Type {
    /// This type without a reference around it.
    pub open spec fn spec_deref_any(&self) -> &Type {
        match self {
            Type::Ref(r) => &**r,
            Type::StorageRef(_, r) => &**r,
            _ => self,
        }
    }

    /// This type without a reference around it.
    pub fn deref_any(&self) -> (res: &Type)
        ensures
            res == self.spec_deref_any(),
    {
        match self {
            Type::Ref(r) => &**r,
            Type::StorageRef(_, r) => &**r,
            _ => self,
        }
    }

    /// Whether this is a signed integer type, through references and user
    /// defined value types.
    pub open spec fn spec_is_signed_int(self, ns: &Namespace) -> bool
        decreases self,
    {
        match self {
            Type::Int(_) => true,
            Type::Ref(r) => (*r).spec_is_signed_int(ns),
            Type::StorageRef(_, r) => (*r).spec_is_signed_int(ns),
            Type::UserType(n) => ns.user_types@[n as int].ty is Int,
            _ => false,
        }
    }

    /// The user defined value types that this type reaches through
    /// references are declared.
    pub open spec fn user_type_declared(self, ns: &Namespace) -> bool
        decreases self,
    {
        match self {
            Type::Ref(r) => (*r).user_type_declared(ns),
            Type::StorageRef(_, r) => (*r).user_type_declared(ns),
            Type::UserType(n) => n < ns.user_types@.len(),
            _ => true,
        }
    }

    /// Whether this is a signed integer type.
    pub fn is_signed_int(&self, ns: &Namespace) -> (res: bool)
        requires
            self.user_type_declared(ns),
        ensures
            res == self.spec_is_signed_int(ns),
        decreases self,
    {
        match self {
            Type::Int(_) => true,
            Type::Ref(r) => (**r).is_signed_int(ns),
            Type::StorageRef(_, r) => (**r).is_signed_int(ns),
            Type::UserType(n) => {
                match &ns.user_types[*n].ty {
                    Type::Int(_) => true,
                    _ => false,
                }
            },
            _ => false,
        }
    }

    /// Whether this is an integer type, through references and user defined
    /// value types.
    pub open spec fn spec_is_integer(self, ns: &Namespace) -> bool
        decreases self,
    {
        match self {
            Type::Int(_) => true,
            Type::Uint(_) => true,
            Type::Value => true,
            Type::Ref(r) => (*r).spec_is_integer(ns),
            Type::StorageRef(_, r) => (*r).spec_is_integer(ns),
            Type::UserType(n) => {
                let u = ns.user_types@[n as int].ty;
                u is Int || u is Uint || u is Value
            },
            _ => false,
        }
    }

    /// Whether this is an integer type.
    pub fn is_integer(&self, ns: &Namespace) -> (res: bool)
        requires
            self.user_type_declared(ns),
        ensures
            res == self.spec_is_integer(ns),
        decreases self,
    {
        match self {
            Type::Int(_) => true,
            Type::Uint(_) => true,
            Type::Value => true,
            Type::Ref(r) => (**r).is_integer(ns),
            Type::StorageRef(_, r) => (**r).is_integer(ns),
            Type::UserType(n) => {
                match &ns.user_types[*n].ty {
                    Type::Int(_) => true,
                    Type::Uint(_) => true,
                    Type::Value => true,
                    _ => false,
                }
            },
            _ => false,
        }
    }

    /// Whether this is the rational type, through references.
    pub open spec fn spec_is_rational(self) -> bool
        decreases self,
    {
        match self {
            Type::Rational => true,
            Type::Ref(r) => (*r).spec_is_rational(),
            Type::StorageRef(_, r) => (*r).spec_is_rational(),
            _ => false,
        }
    }

    /// Whether this is the rational type.
    pub fn is_rational(&self) -> (res: bool)
        ensures
            res == self.spec_is_rational(),
        decreases self,
    {
        match self {
            Type::Rational => true,
            Type::Ref(r) => (**r).is_rational(),
            Type::StorageRef(_, r) => (**r).is_rational(),
            _ => false,
        }
    }

    /// Whether this type has a width in bits that `bits` gives.
    pub open spec fn has_bits(self, ns: &Namespace) -> bool
        decreases self,
    {
        match self {
            Type::Bool => true,
            Type::Address(_) => ns.address_length * 8 < 0x10000,
            Type::Contract(_) => ns.address_length * 8 < 0x10000,
            Type::Int(_) => true,
            Type::Uint(_) => true,
            Type::Bytes(_) => true,
            Type::Value => ns.value_length * 8 < 0x10000,
            Type::Ref(r) => (*r).has_bits(ns),
            Type::FunctionSelector => true,
            _ => false,
        }
    }

    /// The width of this type in bits.
    pub open spec fn spec_bits(self, ns: &Namespace) -> u16
        decreases self,
    {
        match self {
            Type::Bool => 1,
            Type::Address(_) => (ns.address_length * 8) as u16,
            Type::Contract(_) => (ns.address_length * 8) as u16,
            Type::Int(n) => n,
            Type::Uint(n) => n,
            Type::Bytes(n) => (n * 8) as u16,
            Type::Value => (ns.value_length * 8) as u16,
            Type::Ref(r) => (*r).spec_bits(ns),
            Type::FunctionSelector => (ns.target.spec_selector_length() * 8) as u16,
            _ => 0,
        }
    }

    /// The width of this type in bits.
    pub fn bits(&self, ns: &Namespace) -> (res: u16)
        requires
            self.has_bits(ns),
        ensures
            res == self.spec_bits(ns),
        decreases self,
    {
        match self {
            Type::Bool => 1,
            Type::Address(_) => (ns.address_length * 8) as u16,
            Type::Contract(_) => (ns.address_length * 8) as u16,
            Type::Int(n) => *n,
            Type::Uint(n) => *n,
            Type::Bytes(n) => *n as u16 * 8,
            Type::Value => (ns.value_length * 8) as u16,
            Type::Ref(r) => (**r).bits(ns),
            Type::FunctionSelector => ns.target.selector_length() as u16 * 8,
            _ => 0,
        }
    }
}

} // verus!
