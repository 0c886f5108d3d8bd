//! Which integer type two operands of an arithmetic or comparison operator
//! are brought to.

use vstd::prelude::*;
use vstd::arithmetic::power2::{lemma_pow2_pos, lemma_pow2_strictly_increases, lemma_pow2_unfold, pow2};
use crate::ast::{Expression, ExpressionView, LiteralOutcome, resolved_as};
use crate::diagnostics::{Diagnostic, DiagnosticView, Diagnostics, Loc, cast_error_view, error_view};
use crate::expression::ResolveTo;
use crate::namespace::Namespace;
use crate::number::{Number, Rational, bit_length, int_text, number_add_u32, number_bits, number_text};
use crate::text::{push_str, string_from_chars};
use crate::types::{StructType, Type, TypeView, lemma_view_variant, names_declared, push_type_text, struct_name, type_text};

verus! {

/// The type inside a reference, or the type itself.
pub open spec fn deref_view(t: TypeView) -> TypeView {
    match t {
        TypeView::Ref(r) => *r,
        TypeView::StorageRef(_, r) => *r,
        _ => t,
    }
}

/// Taking the type out of a reference agrees with the view.
pub proof fn lemma_deref_view(t: &Type)
    ensures
        t.spec_deref_any()@ == deref_view(t@),
{
    match *t {
        Type::Ref(_) => {},
        Type::StorageRef(..) => {},
        _ => {},
    }
}

/// The number of bits and the sign of a type, or the message saying that
/// the type is not allowed. `None` where producing the message would fail
/// (a name that the namespace does not declare) or the width overflows.
pub open spec fn bits_and_sign(l: TypeView, allow_bytes: bool, ns: &Namespace) -> Option<Result<(u16, bool), Seq<char>>>
    decreases l,
{
    match l {
        TypeView::Uint(n) => Some(Ok((n, false))),
        TypeView::Int(n) => Some(Ok((n, true))),
        TypeView::Value => {
            let v = ns.value_length as u16;
            if v * 8 <= 0xFFFF {
                Some(Ok(((v * 8) as u16, false)))
            } else {
                None
            }
        },
        TypeView::FunctionSelector => Some(Ok(((ns.target.spec_selector_length() * 8) as u16, false))),
        TypeView::Bytes(n) if allow_bytes => Some(Ok(((n * 8) as u16, false))),
        TypeView::Enum(n) => if n < ns.enums@.len() {
            Some(Err("type enum "@ + ns.enums@[n as int]@ + " not allowed"@))
        } else {
            None
        },
        TypeView::Struct(s) => if (s matches StructType::UserDefined(n) ==> n < ns.structs@.len()) {
            Some(Err("type struct "@ + struct_name(s, ns) + " not allowed"@))
        } else {
            None
        },
        TypeView::Array(..) => if names_declared(l, ns) {
            Some(Err("type array "@ + type_text(l, ns) + " not allowed"@))
        } else {
            None
        },
        TypeView::Ref(r) => bits_and_sign(*r, allow_bytes, ns),
        TypeView::StorageRef(_, r) => bits_and_sign(*r, allow_bytes, ns),
        _ => if names_declared(l, ns) {
            Some(Err("expression of type "@ + type_text(l, ns) + " not allowed"@))
        } else {
            None
        },
    }
}

fn not_allowed_message(prefix: &str, l: &Type, ns: &Namespace) -> (res: String)
    requires
        names_declared(l@, ns),
    ensures
        res@ == prefix@ + type_text(l@, ns) + " not allowed"@,
{
    let mut out: Vec<char> = Vec::new();
    push_str(&mut out, prefix);
    push_type_text(&mut out, l, ns);
    push_str(&mut out, " not allowed");
    string_from_chars(&out)
}

/// Calculate the number of bits and the sign of a type, or report at
/// `l_loc` that the type is not allowed.
pub fn type_bits_and_sign(l: &Type, l_loc: &Loc, allow_bytes: bool, ns: &Namespace, diagnostics: &mut Diagnostics) -> (res: Result<(u16, bool), ()>)
    requires
        bits_and_sign(l@, allow_bytes, ns) is Some,
    ensures
        match bits_and_sign(l@, allow_bytes, ns)->0 {
            Ok(v) => res == Ok::<(u16, bool), ()>(v) && final(diagnostics)@ == old(diagnostics)@,
            Err(msg) => res is Err && final(diagnostics)@ == old(diagnostics)@.push(error_view(*l_loc, msg)),
        },
    decreases l,
{
    match l {
        Type::Uint(n) => Ok((*n, false)),
        Type::Int(n) => Ok((*n, true)),
        Type::Value => Ok(((ns.value_length as u16) * 8, false)),
        Type::FunctionSelector => Ok((ns.target.selector_length() as u16 * 8, false)),
        Type::Bytes(n) if allow_bytes => Ok((*n as u16 * 8, false)),
        Type::Enum(n) => {
            let mut out: Vec<char> = Vec::new();
            push_str(&mut out, "type enum ");
            push_str(&mut out, ns.enums[*n].as_str());
            push_str(&mut out, " not allowed");
            diagnostics.push(Diagnostic::error(*l_loc, string_from_chars(&out)));
            Err(())
        },
        Type::Struct(str_ty) => {
            let mut out: Vec<char> = Vec::new();
            push_str(&mut out, "type struct ");
            match str_ty {
                StructType::UserDefined(n) => push_str(&mut out, ns.structs[*n].as_str()),
                StructType::AccountInfo => push_str(&mut out, "AccountInfo"),
                StructType::AccountMeta => push_str(&mut out, "AccountMeta"),
                StructType::ExternalFunction => push_str(&mut out, "ExternalFunction"),
                StructType::SolParameters => push_str(&mut out, "SolParameters"),
            }
            push_str(&mut out, " not allowed");
            diagnostics.push(Diagnostic::error(*l_loc, string_from_chars(&out)));
            Err(())
        },
        Type::Array(..) => {
            diagnostics.push(Diagnostic::error(*l_loc, not_allowed_message("type array ", l, ns)));
            Err(())
        },
        Type::Ref(n) => type_bits_and_sign(&**n, l_loc, allow_bytes, ns, diagnostics),
        Type::StorageRef(_, n) => type_bits_and_sign(&**n, l_loc, allow_bytes, ns, diagnostics),
        _ => {
            diagnostics.push(Diagnostic::error(*l_loc, not_allowed_message("expression of type ", l, ns)));
            Err(())
        },
    }
}

/// The larger of two widths.
pub open spec fn max16(a: u16, b: u16) -> u16 {
    if a >= b { a } else { b }
}

/// What `coerce_number` gives for operands of types `l` and `r`: the common
/// type or an error, and the diagnostics reported. `None` where it would
/// fail: a width that overflows, or a message about an undeclared name.
pub open spec fn coerce_number_spec(
    l0: TypeView,
    l_loc: Loc,
    r0: TypeView,
    r_loc: Loc,
    allow_bytes: bool,
    for_compare: bool,
    ns: &Namespace,
) -> Option<(Result<TypeView, ()>, Seq<DiagnosticView>)> {
    let l = deref_view(l0);
    let r = deref_view(r0);
    let none = Seq::<DiagnosticView>::empty();
    if for_compare && l == TypeView::Address(false) && r == TypeView::Address(false) {
        Some((Ok(TypeView::Address(false)), none))
    } else if for_compare && l == TypeView::Address(true) && r == TypeView::Address(true) {
        Some((Ok(TypeView::Address(true)), none))
    } else if for_compare && l is Contract && r is Contract && l->Contract_0 == r->Contract_0 {
        Some((Ok(l), none))
    } else if allow_bytes && l is Bytes && r is Bytes {
        Some((Ok(TypeView::Bytes(if l->Bytes_0 >= r->Bytes_0 { l->Bytes_0 } else { r->Bytes_0 })), none))
    } else if allow_bytes && l is Bytes {
        Some((Ok(l), none))
    } else if allow_bytes && r is Bytes {
        Some((Ok(r), none))
    } else if allow_bytes && (l is FunctionSelector || r is FunctionSelector) {
        Some((Ok(TypeView::Bytes(ns.target.spec_selector_length())), none))
    } else if (l is Rational && (r is Int || r is Rational || r is Uint)) || ((l is Uint || l is Int) && r is Rational) {
        Some((Ok(TypeView::Rational), none))
    } else if l is Bool && (r is Int || r is Uint) {
        Some((Ok(r), none))
    } else if (l is Int || l is Uint) && r is Bool {
        Some((Ok(l), none))
    } else {
        match bits_and_sign(l, false, ns) {
            None => None,
            Some(Err(msg)) => Some((Err(()), seq![error_view(l_loc, msg)])),
            Some(Ok((left_len, left_signed))) => match bits_and_sign(r, false, ns) {
                None => None,
                Some(Err(msg)) => Some((Err(()), seq![error_view(r_loc, msg)])),
                Some(Ok((right_len, right_signed))) => {
                    if left_signed && right_signed {
                        Some((Ok(TypeView::Int(max16(left_len, right_len))), none))
                    } else if !left_signed && !right_signed {
                        Some((Ok(TypeView::Uint(max16(left_len, right_len))), none))
                    } else if left_signed {
                        if right_len + 8 > 0xFFFF {
                            None
                        } else {
                            let len = max16(left_len, (right_len + 8) as u16);
                            Some((Ok(TypeView::Int(if len <= 256 { len } else { 256 })), none))
                        }
                    } else {
                        if left_len + 8 > 0xFFFF {
                            None
                        } else {
                            let len = max16((left_len + 8) as u16, right_len);
                            Some((Ok(TypeView::Int(if len <= 256 { len } else { 256 })), none))
                        }
                    }
                },
            },
        }
    }
}

/// Bring the operand types `l` and `r` to a common numeric type, or report
/// why they cannot be. With `allow_bytes`, fixed-length byte arrays and
/// function selectors take part; with `for_compare`, two addresses of the
/// same kind or two of the same contract do.
pub fn coerce_number(
    l: &Type,
    l_loc: &Loc,
    r: &Type,
    r_loc: &Loc,
    allow_bytes: bool,
    for_compare: bool,
    ns: &Namespace,
    diagnostics: &mut Diagnostics,
) -> (res: Result<Type, ()>)
    requires
        coerce_number_spec(l@, *l_loc, r@, *r_loc, allow_bytes, for_compare, ns) is Some,
    ensures
        ({
            let (expected, diags) = coerce_number_spec(l@, *l_loc, r@, *r_loc, allow_bytes, for_compare, ns)->0;
            &&& match (res, expected) {
                (Ok(t), Ok(e)) => t@ == e,
                (Err(_), Err(_)) => true,
                _ => false,
            }
            &&& final(diagnostics)@ == old(diagnostics)@ + diags
        }),
{
    proof {
        lemma_deref_view(l);
        lemma_deref_view(r);
    }
    let l = l.deref_any();
    let r = r.deref_any();
    assert(old(diagnostics)@ + Seq::<DiagnosticView>::empty() =~= old(diagnostics)@);
    match (l, r) {
        (Type::Address(false), Type::Address(false)) if for_compare => {
            return Ok(Type::Address(false));
        },
        (Type::Address(true), Type::Address(true)) if for_compare => {
            return Ok(Type::Address(true));
        },
        (Type::Contract(left), Type::Contract(right)) if *left == *right && for_compare => {
            return Ok(Type::Contract(*left));
        },
        (Type::Bytes(left_length), Type::Bytes(right_length)) if allow_bytes => {
            return Ok(Type::Bytes(if *left_length >= *right_length { *left_length } else { *right_length }));
        },
        (Type::Bytes(_), _) if allow_bytes => {
            return Ok(l.copy());
        },
        (_, Type::Bytes(_)) if allow_bytes => {
            return Ok(r.copy());
        },
        (Type::FunctionSelector, _) if allow_bytes => {
            return Ok(Type::Bytes(ns.target.selector_length()));
        },
        (_, Type::FunctionSelector) if allow_bytes => {
            return Ok(Type::Bytes(ns.target.selector_length()));
        },
        (Type::Rational, Type::Int(_)) => {
            return Ok(Type::Rational);
        },
        (Type::Rational, Type::Rational) => {
            return Ok(Type::Rational);
        },
        (Type::Rational, Type::Uint(_)) => {
            return Ok(Type::Rational);
        },
        (Type::Uint(_), Type::Rational) => {
            return Ok(Type::Rational);
        },
        (Type::Int(_), Type::Rational) => {
            return Ok(Type::Rational);
        },
        (Type::Bool, Type::Int(_)) => {
            return Ok(r.copy());
        },
        (Type::Bool, Type::Uint(_)) => {
            return Ok(r.copy());
        },
        (Type::Int(_), Type::Bool) => {
            return Ok(l.copy());
        },
        (Type::Uint(_), Type::Bool) => {
            return Ok(l.copy());
        },
        _ => {},
    }
    let (left_len, left_signed) = match type_bits_and_sign(l, l_loc, false, ns, diagnostics) {
        Ok(v) => v,
        Err(()) => {
            return Err(());
        },
    };
    let (right_len, right_signed) = match type_bits_and_sign(r, r_loc, false, ns, diagnostics) {
        Ok(v) => v,
        Err(()) => {
            return Err(());
        },
    };
    if left_signed && right_signed {
        Ok(Type::Int(if left_len >= right_len { left_len } else { right_len }))
    } else if !left_signed && !right_signed {
        Ok(Type::Uint(if left_len >= right_len { left_len } else { right_len }))
    } else if left_signed {
        // uint8 fits into int16
        let widened = right_len + 8;
        let len = if left_len >= widened { left_len } else { widened };
        Ok(Type::Int(if len <= 256 { len } else { 256 }))
    } else {
        // uint8 fits into int16
        let widened = left_len + 8;
        let len = if widened >= right_len { widened } else { right_len };
        Ok(Type::Int(if len <= 256 { len } else { 256 }))
    }
}

/// What `coerce` gives for operands of types `l` and `r`.
pub open spec fn coerce_spec(l0: TypeView, l_loc: Loc, r0: TypeView, r_loc: Loc, ns: &Namespace) -> Option<(Result<TypeView, ()>, Seq<DiagnosticView>)> {
    let l = deref_view(l0);
    let r = deref_view(r0);
    if l == r {
        Some((Ok(l), Seq::empty()))
    } else if (l == TypeView::Address(false) && r == TypeView::Address(true))
        || (l == TypeView::Address(true) && r == TypeView::Address(false)) {
        Some((Ok(TypeView::Address(false)), Seq::empty()))
    } else {
        coerce_number_spec(l, l_loc, r, r_loc, true, false, ns)
    }
}

/// Bring the operand types `l` and `r` of an operator to a common type:
/// either type where they are the same, `address` for an address and an
/// address payable, otherwise the common numeric type with byte arrays.
pub fn coerce(l: &Type, l_loc: &Loc, r: &Type, r_loc: &Loc, ns: &Namespace, diagnostics: &mut Diagnostics) -> (res: Result<Type, ()>)
    requires
        coerce_spec(l@, *l_loc, r@, *r_loc, ns) is Some,
    ensures
        ({
            let (expected, diags) = coerce_spec(l@, *l_loc, r@, *r_loc, ns)->0;
            &&& match (res, expected) {
                (Ok(t), Ok(e)) => t@ == e,
                (Err(_), Err(_)) => true,
                _ => false,
            }
            &&& final(diagnostics)@ == old(diagnostics)@ + diags
        }),
{
    proof {
        lemma_deref_view(l);
        lemma_deref_view(r);
    }
    let l = l.deref_any();
    let r = r.deref_any();
    assert(old(diagnostics)@ + Seq::<DiagnosticView>::empty() =~= old(diagnostics)@);
    if l.same(r) {
        return Ok(l.copy());
    }
    let is_address_mix = match (l, r) {
        (Type::Address(false), Type::Address(true)) => true,
        (Type::Address(true), Type::Address(false)) => true,
        _ => false,
    };
    if is_address_mix {
        return Ok(Type::Address(false));
    }
    coerce_number(l, l_loc, r, r_loc, true, false, ns, diagnostics)
}

/// The common numeric type of two operands does not depend on their order:
/// one order succeeds exactly when the other does, with the same type.
pub proof fn law_coerce_number_symmetric(
    l: TypeView,
    l_loc: Loc,
    r: TypeView,
    r_loc: Loc,
    allow_bytes: bool,
    for_compare: bool,
    ns: &Namespace,
)
    requires
        coerce_number_spec(l, l_loc, r, r_loc, allow_bytes, for_compare, ns) is Some,
        coerce_number_spec(r, r_loc, l, l_loc, allow_bytes, for_compare, ns) is Some,
    ensures
        coerce_number_spec(l, l_loc, r, r_loc, allow_bytes, for_compare, ns).unwrap().0
            == coerce_number_spec(r, r_loc, l, l_loc, allow_bytes, for_compare, ns).unwrap().0,
{
}

/// Two operands that both have an integer width are coerced to a type at
/// least as wide as each, unless the width is capped at 256 bits.
pub proof fn law_coerce_number_widens(
    l: TypeView,
    l_loc: Loc,
    r: TypeView,
    r_loc: Loc,
    ns: &Namespace,
    n: u16,
)
    requires
        (deref_view(l) is Int || deref_view(l) is Uint),
        (deref_view(r) is Int || deref_view(r) is Uint),
        coerce_number_spec(l, l_loc, r, r_loc, false, false, ns) is Some,
        coerce_number_spec(l, l_loc, r, r_loc, false, false, ns).unwrap().0 == Ok::<TypeView, ()>(TypeView::Int(n))
            || coerce_number_spec(l, l_loc, r, r_loc, false, false, ns).unwrap().0 == Ok::<TypeView, ()>(TypeView::Uint(n)),
    ensures
        n == 256 || n >= bits_and_sign(deref_view(l), false, ns).unwrap()->Ok_0.0,
        n == 256 || n >= bits_and_sign(deref_view(r), false, ns).unwrap()->Ok_0.0,
{
}

/// The width of the type of an integer literal that needs `bits` bits: a
/// hexadecimal literal of an even number of digits takes four bits a
/// digit, one of an odd number `bits`; any other the bits rounded up to
/// whole bytes, at least one byte. The width is kept in 16 bits.
pub open spec fn literal_int_size(bits: nat, hex_str_len: Option<usize>) -> u16 {
    match hex_str_len {
        Some(len) => if len % 2 == 0 { ((len * 4) % 0x10000) as u16 } else { (bits % 0x10000) as u16 },
        None => if bits < 7 { 8 } else { (((bits + 7) / 8 * 8) % 0x10000) as u16 },
    }
}

/// What an integer literal of value `v` at `loc` resolves to. Where a type
/// other than `unresolved` is asked for, a literal of that type if it is
/// an integer type, or zero for a fixed-length bytes type, and otherwise a
/// cast error. Otherwise the smallest signed (for a negative value) or
/// unsigned type that holds it, up to 256 bits, where a signed type of `w`
/// bits holds -2^(w-1) to 2^(w-1)-1; beyond that an error.
pub open spec fn integer_literal(loc: Loc, v: int, ns: &Namespace, resolve_to: ResolveTo, hex_str_len: Option<usize>) -> LiteralOutcome {
    let typed = match resolve_to {
        ResolveTo::Type(t) => !(t@ is Unresolved),
        _ => false,
    };
    if typed {
        let t = resolve_to->Type_0;
        if t.spec_is_integer(ns) || (t@ is Bytes && v == 0) {
            LiteralOutcome::Value(ExpressionView::NumberLiteral { loc, ty: t@, value: v })
        } else {
            LiteralOutcome::Failure(seq![cast_error_view(loc, "expected '"@ + type_text(t@, ns) + "', found integer"@)])
        }
    } else {
        let bits = if v < 0 { bit_length((-v - 1) as nat) + 1 } else { bit_length(v as nat) };
        if bits > 256 {
            LiteralOutcome::Failure(seq![error_view(loc, int_text(v) + " is too large"@)])
        } else {
            let size = literal_int_size(bits, hex_str_len);
            LiteralOutcome::Value(ExpressionView::NumberLiteral {
                loc,
                ty: if v < 0 { TypeView::Int(size) } else { TypeView::Uint(size) },
                value: v,
            })
        }
    }
}

fn int_size(bits: u64, hex_str_len: Option<usize>) -> (res: u16)
    requires
        bits <= 256,
        hex_str_len matches Some(len) ==> len * 4 <= u64::MAX,
    ensures
        res == literal_int_size(bits as nat, hex_str_len),
{
    match hex_str_len {
        Some(len) => {
            if len % 2 == 0 {
                ((len as u64 * 4) % 0x10000) as u16
            } else {
                bits as u16
            }
        },
        None => {
            if bits < 7 {
                8
            } else {
                ((bits + 7) / 8 * 8) as u16
            }
        },
    }
}

/// The bit length of a number bounds it: it is below two to that power,
/// and, if not zero, at least two to one less.
pub proof fn lemma_bit_length_bounds(v: nat)
    ensures
        v < pow2(bit_length(v)),
        v > 0 ==> pow2((bit_length(v) - 1) as nat) <= v,
    decreases v,
{
    if v == 0 {
        lemma_pow2_pos(0);
    } else {
        let h = v / 2;
        lemma_bit_length_bounds(h);
        lemma_pow2_unfold(bit_length(v));
        assert(bit_length(v) == 1 + bit_length(h));
        if h > 0 {
            lemma_pow2_unfold(bit_length(h));
        } else {
            assert(bit_length(h) == 0);
            lemma_pow2_pos(0);
            vstd::arithmetic::power2::lemma2_to64();
        }
    }
}

/// Two to a power is at most two to a greater or equal power.
proof fn lemma_pow2_mono(a: nat, b: nat)
    requires
        a <= b,
    ensures
        pow2(a) <= pow2(b),
{
    if a < b {
        lemma_pow2_strictly_increases(a, b);
    }
}

/// An integer literal of a value that is not negative, with no type asked
/// for and not written in hexadecimal, gets the smallest unsigned type that
/// holds it among those a whole number of bytes wide.
pub proof fn law_literal_smallest_unsigned_type(loc: Loc, v: int, ns: &Namespace, resolve_to: ResolveTo)
    requires
        v >= 0,
        !(resolve_to is Type),
        integer_literal(loc, v, ns, resolve_to, None) is Value,
    ensures
        integer_literal(loc, v, ns, resolve_to, None)->Value_0 matches ExpressionView::NumberLiteral { ty: TypeView::Uint(size), value, .. }
            && value == v && size % 8 == 0 && 8 <= size <= 256 && v < pow2(size as nat)
            && (size == 8 || pow2((size - 8) as nat) <= v),
{
    let bits = bit_length(v as nat);
    lemma_bit_length_bounds(v as nat);
    assert(bits <= 256);
    let size = literal_int_size(bits, None);
    if bits < 7 {
        assert(size == 8);
        lemma_pow2_mono(bits, 8);
    } else {
        assert(size == (bits + 7) / 8 * 8);
        assert(bits <= size);
        lemma_pow2_mono(bits, size as nat);
        if size > 8 {
            assert(size - 8 <= bits - 1);
            lemma_pow2_mono((size - 8) as nat, (bits - 1) as nat);
        }
    }
}

/// A negative integer literal, with no type asked for and not written in
/// hexadecimal, gets the smallest signed type that holds it among those a
/// whole number of bytes wide: a signed type of `w` bits holds values from
/// -2^(w-1) up.
pub proof fn law_literal_smallest_signed_type(loc: Loc, v: int, ns: &Namespace, resolve_to: ResolveTo)
    requires
        v < 0,
        !(resolve_to is Type),
        integer_literal(loc, v, ns, resolve_to, None) is Value,
    ensures
        integer_literal(loc, v, ns, resolve_to, None)->Value_0 matches ExpressionView::NumberLiteral { ty: TypeView::Int(size), value, .. }
            && value == v && size % 8 == 0 && 8 <= size <= 256 && -pow2((size - 1) as nat) <= v
            && (size == 8 || v < -pow2((size - 9) as nat)),
{
    let m = (-v - 1) as nat;
    let bits = bit_length(m) + 1;
    lemma_bit_length_bounds(m);
    assert(bits <= 256);
    let size = literal_int_size(bits, None);
    if bits < 7 {
        assert(size == 8);
        lemma_pow2_mono((bits - 1) as nat, 7);
    } else {
        assert(size == (bits + 7) / 8 * 8);
        assert(bits <= size);
        lemma_pow2_mono((bits - 1) as nat, (size - 1) as nat);
        if size > 8 {
            assert(size - 9 <= bits - 2);
            assert(m > 0);
            lemma_pow2_mono((size - 9) as nat, (bits - 2) as nat);
        }
    }
}

/// Resolve the integer `n` at `loc` to a number literal, of the type asked
/// for or of the smallest integer type that holds it; `hex_str_len` is the
/// number of digits of a hexadecimal literal.
pub fn bigint_to_expression(
    loc: &Loc,
    n: &Number,
    ns: &Namespace,
    diagnostics: &mut Diagnostics,
    resolve_to: ResolveTo,
    hex_str_len: Option<usize>,
) -> (res: Result<Expression, ()>)
    requires
        n.wf(),
        resolve_to matches ResolveTo::Type(t) ==> t.user_type_declared(ns) && names_declared(t@, ns),
        hex_str_len matches Some(len) ==> len * 4 <= u64::MAX,
    ensures
        resolved_as(res, old(diagnostics)@, final(diagnostics)@, integer_literal(*loc, n.value(), ns, resolve_to, hex_str_len)),
{
    if let ResolveTo::Type(t) = resolve_to {
        proof {
            lemma_view_variant(*t);
        }
        let unresolved = match t {
            Type::Unresolved => true,
            _ => false,
        };
        if !unresolved {
            let bytes_zero = match t {
                Type::Bytes(_) => n.is_zero(),
                _ => false,
            };
            if !(t.is_integer(ns) || bytes_zero) {
                let mut out: Vec<char> = Vec::new();
                push_str(&mut out, "expected '");
                push_type_text(&mut out, t, ns);
                push_str(&mut out, "', found integer");
                diagnostics.push(Diagnostic::cast_error(*loc, string_from_chars(&out)));
                assert(diagnostics@ =~= old(diagnostics)@
                    + seq![cast_error_view(*loc, "expected '"@ + type_text(t@, ns) + "', found integer"@)]);
                return Err(());
            }
            let value = n.copy();
            return Ok(Expression::NumberLiteral { loc: *loc, ty: t.copy(), value });
        }
    }
    proof {
        crate::number::lemma_canonical_zero(n.magnitude@);
    }
    let bits: u64 = if n.negative {
        let m = number_add_u32(n, 1);
        number_bits(&m)
    } else {
        number_bits(n)
    };
    let limit: u64 = if n.negative { 255 } else { 256 };
    if bits > limit {
        let mut out: Vec<char> = Vec::new();
        push_str(&mut out, number_text(n).as_str());
        push_str(&mut out, " is too large");
        diagnostics.push(Diagnostic::error(*loc, string_from_chars(&out)));
        assert(diagnostics@ =~= old(diagnostics)@ + seq![error_view(*loc, int_text(n.value()) + " is too large"@)]);
        return Err(());
    }
    let bits: u64 = if n.negative { bits + 1 } else { bits };
    let size = int_size(bits, hex_str_len);
    let ty = if n.negative { Type::Int(size) } else { Type::Uint(size) };
    Ok(Expression::NumberLiteral { loc: *loc, ty, value: n.copy() })
}

/// What the rational number `n` at `loc` resolves to: a rational literal of
/// the type asked for, where that is the rational type; a type asked for
/// that is not is an error, and so is asking for none.
pub open spec fn rational_expression(loc: Loc, numer: int, denom: int, ns: &Namespace, resolve_to: ResolveTo) -> Option<Result<ExpressionView, Seq<DiagnosticView>>> {
    match resolve_to {
        ResolveTo::Type(t) => if t.spec_is_rational() {
            Some(Ok(ExpressionView::RationalNumberLiteral { loc, ty: t@, numer, denom }))
        } else {
            Some(Err(seq![error_view(loc, "expected \u{2018}"@ + type_text(t@, ns) + "\u{2019}, found rational"@)]))
        },
        _ => None,
    }
}

/// Resolve the rational number `n` at `loc` to a rational number literal
/// of the type asked for.
pub fn bigdecimal_to_expression(
    loc: &Loc,
    n: &Rational,
    ns: &Namespace,
    diagnostics: &mut Diagnostics,
    resolve_to: ResolveTo,
) -> (res: Result<Expression, ()>)
    requires
        resolve_to matches ResolveTo::Type(t) ==> names_declared(t@, ns),
    ensures
        match rational_expression(*loc, n.numer.value(), n.denom.value(), ns, resolve_to) {
            Some(Ok(e)) => res matches Ok(r) && r@ == e && final(diagnostics)@ == old(diagnostics)@,
            Some(Err(d)) => res is Err && final(diagnostics)@ == old(diagnostics)@ + d,
            None => res is Err && final(diagnostics)@ == old(diagnostics)@,
        },
{
    if let ResolveTo::Type(t) = resolve_to {
        if !t.is_rational() {
            let mut out: Vec<char> = Vec::new();
            push_str(&mut out, "expected \u{2018}");
            push_type_text(&mut out, t, ns);
            push_str(&mut out, "\u{2019}, found rational");
            diagnostics.push(Diagnostic::error(*loc, string_from_chars(&out)));
            assert(diagnostics@ =~= old(diagnostics)@
                + seq![error_view(*loc, "expected \u{2018}"@ + type_text(t@, ns) + "\u{2019}, found rational"@)]);
            return Err(());
        }
        let value = Rational { numer: n.numer.copy(), denom: n.denom.copy() };
        return Ok(Expression::RationalNumberLiteral { loc: *loc, ty: t.copy(), value });
    }
    Err(())
}


/// The common type of an address and an address: `address payable` only
/// where both are payable, and plain `address` otherwise, in either order,
/// through references, with nothing reported.
pub proof fn law_coerce_addresses(l: TypeView, l_loc: Loc, r: TypeView, r_loc: Loc, ns: &Namespace, a: bool, b: bool)
    requires
        deref_view(l) == TypeView::Address(a),
        deref_view(r) == TypeView::Address(b),
    ensures
        coerce_spec(l, l_loc, r, r_loc, ns) == Some((Ok::<TypeView, ()>(TypeView::Address(a && b)), Seq::<DiagnosticView>::empty())),
{
}

/// The common type of two operands does not depend on their order.
pub proof fn law_coerce_symmetric(l: TypeView, l_loc: Loc, r: TypeView, r_loc: Loc, ns: &Namespace)
    requires
        coerce_spec(l, l_loc, r, r_loc, ns) is Some,
        coerce_spec(r, r_loc, l, l_loc, ns) is Some,
    ensures
        (coerce_spec(l, l_loc, r, r_loc, ns)->0).0 == (coerce_spec(r, r_loc, l, l_loc, ns)->0).0,
{
    let dl = deref_view(l);
    let dr = deref_view(r);
    if dl != dr && !((dl == TypeView::Address(false) && dr == TypeView::Address(true))
        || (dl == TypeView::Address(true) && dr == TypeView::Address(false))) {
        law_coerce_number_symmetric(dl, l_loc, dr, r_loc, true, false, ns);
    }
}

} // verus!
