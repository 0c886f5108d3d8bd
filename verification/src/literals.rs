//! Literals: strings, hex strings, addresses and numbers.

use vstd::prelude::*;
use vstd::utf8::*;
use base58::{FromBase58, FromBase58Error};
use crate::ast::{Expression, ExpressionView, LiteralOutcome, resolved_as};
use crate::integers::{bigint_to_expression, integer_literal};
use crate::diagnostics::cast_error_view;
use crate::types::names_declared;
use vstd::arithmetic::power::pow;
use crate::diagnostics::{Diagnostic, DiagnosticView, Diagnostics, Loc, error_view, warning_view};
use crate::expression::ResolveTo;
use crate::namespace::{Namespace, Target};
use crate::number::{
    Number, Rational, all_hex_digits, be_value, hex_value, parse_hex, all_digits, decimal_value, lemma_decimal_append, lemma_decimal_zeros, lemma_lowest_terms_integer,
    lemma_lowest_terms_same_value, lowest_terms, number_mul, number_pow, parse_decimal, parse_u8, rational_mul,
    rational_new, u8_text_value, is_digit,
};
use crate::pt::{self, HexLiteral, Identifier, StringLiteral};
use crate::strings::{unescape, unescape_spec};
use crate::text::{chars_of, decimal, push_decimal, push_str, str_is, string_from_chars};
use crate::types::{Type, TypeView, lemma_view_variant};

verus! {

/// Whether `resolve_to` asks for the type `t`.
pub open spec fn wants(resolve_to: ResolveTo, t: TypeView) -> bool {
    resolve_to matches ResolveTo::Type(ty) && ty@ == t
}

/// The type `bytes1[]`-like slice of single bytes.
pub open spec fn byte_slice() -> TypeView {
    TypeView::Slice(Box::new(TypeView::Bytes(1)))
}

/// A string literal can be unescaped without fault.
pub open spec fn literal_ok(s: StringLiteral, file_no: usize) -> bool {
    &&& s.loc is File
    &&& unescape_spec(s.string@, s.loc->File_1, file_no) is Some
    &&& s.loc->File_1 + encode_utf8(s.string@).len() + 6 <= usize::MAX
}

/// The bytes and diagnostics of the first `n` literals, unescaped.
pub open spec fn unescaped_upto(v: Seq<StringLiteral>, file_no: usize, n: int) -> (Seq<u8>, Seq<DiagnosticView>)
    decreases n,
{
    if n <= 0 {
        (Seq::empty(), Seq::empty())
    } else {
        let prev = unescaped_upto(v, file_no, n - 1);
        let r = unescape_spec(v[n - 1].string@, v[n - 1].loc->File_1, file_no)->0;
        (prev.0 + r.1, prev.1 + r.2)
    }
}

/// The location from the start of the first literal to the end of the last.
pub open spec fn span_upto(v: Seq<StringLiteral>, n: int) -> Loc
    decreases n,
{
    if n <= 1 {
        v[0].loc
    } else {
        span_upto(v, n - 1).with_end_from(v[n - 1].loc)
    }
}

/// What a literal of `length` bytes `value` at `loc` becomes for `resolve_to`.
pub open spec fn bytes_expression(loc: Loc, value: Seq<u8>, resolve_to: ResolveTo, dynamic: bool) -> ExpressionView {
    let length = ExpressionView::NumberLiteral { loc, ty: TypeView::Uint(32), value: value.len() as int };
    if wants(resolve_to, TypeView::String) && !dynamic {
        ExpressionView::AllocDynamicBytes { loc, ty: TypeView::String, length: Box::new(length), init: Some(value) }
    } else if wants(resolve_to, byte_slice()) {
        ExpressionView::AllocDynamicBytes { loc, ty: byte_slice(), length: Box::new(length), init: Some(value) }
    } else if wants(resolve_to, TypeView::DynamicBytes) && dynamic {
        ExpressionView::AllocDynamicBytes { loc, ty: TypeView::DynamicBytes, length: Box::new(length), init: Some(value) }
    } else {
        ExpressionView::BytesLiteral { loc, ty: TypeView::Bytes(value.len() as u8), value }
    }
}

/// Whether `ty` is the slice of single bytes.
fn is_byte_slice(ty: &Type) -> (res: bool)
    ensures
        res == (ty@ == byte_slice()),
{
    proof {
        lemma_view_variant(*ty);
    }
    match ty {
        Type::Slice(elem) => {
            proof {
                lemma_view_variant(**elem);
            }
            match &**elem {
                Type::Bytes(n) => *n == 1,
                _ => false,
            }
        },
        _ => false,
    }
}

/// The expression for `value` at `loc`, for `resolve_to`: a dynamic
/// allocation where a string (`dynamic` false), a slice of bytes, or
/// dynamic bytes (`dynamic` true) is wanted, otherwise a bytes literal.
fn make_bytes_expression(loc: Loc, value: Vec<u8>, resolve_to: ResolveTo, dynamic: bool) -> (res: Expression)
    ensures
        res@ == bytes_expression(loc, value@, resolve_to, dynamic),
{
    let length = value.len();
    proof {
        if let ResolveTo::Type(t) = resolve_to {
            lemma_view_variant(*t);
        }
    }
    let kind: u8 = match resolve_to {
        ResolveTo::Type(Type::String) if !dynamic => 1,
        ResolveTo::Type(ty) if is_byte_slice(ty) => 2,
        ResolveTo::Type(Type::DynamicBytes) if dynamic => 3,
        _ => 0,
    };
    if kind == 0 {
        return Expression::BytesLiteral { loc, ty: Type::Bytes(length as u8), value };
    }
    let ty = if kind == 1 {
        Type::String
    } else if kind == 2 {
        let elem = Type::Bytes(1);
        assert(elem@ == TypeView::Bytes(1));
        Type::Slice(Box::new(elem))
    } else {
        Type::DynamicBytes
    };
    let ghost v = value@;
    let n = Number::from_u64(length as u64);
    let len_expr = Expression::NumberLiteral { loc, ty: Type::Uint(32), value: n };
    assert(len_expr@ == (ExpressionView::NumberLiteral { loc, ty: TypeView::Uint(32), value: v.len() as int }));
    Expression::AllocDynamicBytes { loc, ty, length: Box::new(len_expr), init: Some(value) }
}

/// Resolve a string literal made of the pieces `v`: their unescaped bytes
/// concatenated, at the location that spans them all, as a string or byte
/// slice where one is wanted, otherwise as a fixed-length bytes literal.
pub fn string_literal(v: &Vec<StringLiteral>, file_no: usize, diagnostics: &mut Diagnostics, resolve_to: ResolveTo) -> (res: Expression)
    requires
        v@.len() > 0,
        forall|k: int| 0 <= k < v@.len() ==> literal_ok(#[trigger] v@[k], file_no),
    ensures
        ({
            let (bytes, diags) = unescaped_upto(v@, file_no, v@.len() as int);
            &&& res@ == bytes_expression(span_upto(v@, v@.len() as int), bytes, resolve_to, false)
            &&& final(diagnostics)@ == old(diagnostics)@ + diags
        }),
{
    let mut result: Vec<u8> = Vec::new();
    let mut loc = v[0].loc;
    let mut k: usize = 0;
    assert(old(diagnostics)@ + Seq::<DiagnosticView>::empty() =~= old(diagnostics)@);
    while k < v.len()
        invariant
            k <= v@.len(),
            v@.len() > 0,
            forall|j: int| 0 <= j < v@.len() ==> literal_ok(#[trigger] v@[j], file_no),
            result@ == unescaped_upto(v@, file_no, k as int).0,
            diagnostics@ == old(diagnostics)@ + unescaped_upto(v@, file_no, k as int).1,
            loc == (if k == 0 { v@[0].loc } else { span_upto(v@, k as int) }),
        decreases v@.len() - k,
    {
        let s = &v[k];
        assert(literal_ok(v@[k as int], file_no));
        let ghost d0 = diagnostics@;
        let (_, mut bytes) = unescape(s.string.as_str(), s.loc.start(), file_no, diagnostics);
        result.append(&mut bytes);
        loc.use_end_from(&s.loc);
        k = k + 1;
        assert(diagnostics@ =~= old(diagnostics)@ + unescaped_upto(v@, file_no, k as int).1);
        proof {
            if k == 1 {
                assert(v@[0].loc matches Loc::File(..));
            }
        }
    }
    make_bytes_expression(loc, result, resolve_to, false)
}

/// The hexadecimal digits of the error type of `hex::decode`.
#[verifier::external_type_specification]
#[verifier::external_body]
pub struct ExFromHexError(hex::FromHexError);

/// Whether every character is a hexadecimal digit.
pub open spec fn all_hex(s: Seq<char>) -> bool {
    forall|i: int| 0 <= i < s.len() ==> #[trigger] crate::strings::hex_digit_value(s[i]) is Some
}

/// The bytes that pairs of hexadecimal digits stand for, the first digit of
/// each pair the more significant.
pub open spec fn hex_decoded(s: Seq<char>) -> Seq<u8> {
    Seq::new(
        s.len() / 2,
        |i: int| (crate::strings::hex_digit_value(s[2 * i])->0 * 16 + crate::strings::hex_digit_value(s[2 * i + 1])->0) as u8,
    )
}

/// `hex::decode`: a string of an even number of hexadecimal digits, upper
/// or lower case, decodes to the bytes that each pair stands for; a string
/// of an odd number of bytes, or with a byte that is not a hexadecimal
/// digit, is an error.
#[verifier::external_body]
fn hex_decode(s: &str) -> (res: Result<Vec<u8>, hex::FromHexError>)
    ensures
        all_hex(s@) && s@.len() % 2 == 0 ==> res is Ok && res->Ok_0@ == hex_decoded(s@),
        !(all_hex(s@) && s@.len() % 2 == 0) ==> res is Err,
{
    hex::decode(s)
}

/// All hexadecimal digits are single bytes in UTF-8.
pub proof fn lemma_all_hex_bytes(s: Seq<char>)
    requires
        all_hex(s),
    ensures
        encode_utf8(s).len() == s.len(),
    decreases s.len(),
{
    if s.len() > 0 {
        assert(crate::strings::hex_digit_value(s[0]) is Some);
        assert forall|i: int| 0 <= i < s.drop_first().len() implies #[trigger] crate::strings::hex_digit_value(s.drop_first()[i]) is Some by {
            assert(crate::strings::hex_digit_value(s[i + 1]) is Some);
        }
        lemma_all_hex_bytes(s.drop_first());
    }
}

/// All decimal digits are single bytes in UTF-8.
pub proof fn lemma_all_digits_bytes(s: Seq<char>)
    requires
        all_digits(s),
    ensures
        encode_utf8(s).len() == s.len(),
{
    assert forall|i: int| 0 <= i < s.len() implies #[trigger] crate::strings::hex_digit_value(s[i]) is Some by {
        assert(crate::number::is_digit(s[i]));
    }
    lemma_all_hex_bytes(s);
}

/// The message for a hex string with an odd number of characters.
pub open spec fn odd_hex_message(hex: Seq<char>) -> Seq<char> {
    "hex string \""@ + hex + "\" has odd number of characters"@
}

/// Decoding the first `n` hex literals: the bytes, or the index of the
/// first with an odd number of bytes. `None` where one with an even number
/// holds a character that is not a hexadecimal digit.
pub open spec fn hex_upto(v: Seq<HexLiteral>, n: int) -> Option<Result<Seq<u8>, int>>
    decreases n,
{
    if n <= 0 {
        Some(Ok(Seq::empty()))
    } else {
        match hex_upto(v, n - 1) {
            Some(Ok(bytes)) => {
                let h = v[n - 1].hex@;
                if encode_utf8(h).len() % 2 != 0 {
                    Some(Err(n - 1))
                } else if all_hex(h) {
                    Some(Ok(bytes + hex_decoded(h)))
                } else {
                    None
                }
            },
            other => other,
        }
    }
}

/// The location from the start of the first hex literal to the end of the
/// `n`-th.
pub open spec fn hex_span_upto(v: Seq<HexLiteral>, n: int) -> Loc
    decreases n,
{
    if n <= 1 {
        v[0].loc
    } else {
        hex_span_upto(v, n - 1).with_end_from(v[n - 1].loc)
    }
}

/// Resolve a hex string literal made of the pieces `v`: their decoded bytes
/// concatenated, at the location that spans them all, as a byte slice or
/// dynamic bytes where one is wanted, otherwise as a fixed-length bytes
/// literal. A piece with an odd number of characters is an error.
pub fn hex_literal(v: &Vec<HexLiteral>, diagnostics: &mut Diagnostics, resolve_to: ResolveTo) -> (res: Result<Expression, ()>)
    requires
        v@.len() > 0,
        hex_upto(v@, v@.len() as int) is Some,
        forall|k: int| 0 <= k < v@.len() ==> encode_utf8((#[trigger] v@[k]).hex@).len() <= usize::MAX,
    ensures
        match hex_upto(v@, v@.len() as int)->0 {
            Ok(bytes) => res matches Ok(e) && e@ == bytes_expression(hex_span_upto(v@, v@.len() as int), bytes, resolve_to, true)
                && final(diagnostics)@ == old(diagnostics)@,
            Err(k) => res is Err && final(diagnostics)@ == old(diagnostics)@.push(error_view(v@[k].loc, odd_hex_message(v@[k].hex@))),
        },
{
    let mut result: Vec<u8> = Vec::new();
    let mut loc = v[0].loc;
    let mut k: usize = 0;
    while k < v.len()
        invariant
            k <= v@.len(),
            v@.len() > 0,
            hex_upto(v@, v@.len() as int) is Some,
            forall|j: int| 0 <= j < v@.len() ==> encode_utf8((#[trigger] v@[j]).hex@).len() <= usize::MAX,
            hex_upto(v@, k as int) == Some(Ok::<Seq<u8>, int>(result@)),
            loc == (if k == 0 { v@[0].loc } else { hex_span_upto(v@, k as int) }),
            diagnostics@ == old(diagnostics)@,
        decreases v@.len() - k,
    {
        proof {
            lemma_hex_upto_prefix(v@, k as int + 1, v@.len() as int);
        }
        let s = &v[k];
        assert(encode_utf8(v@[k as int].hex@).len() <= usize::MAX);
        if s.hex.as_str().len() % 2 != 0 {
            let mut out: Vec<char> = Vec::new();
            push_str(&mut out, "hex string \"");
            push_str(&mut out, s.hex.as_str());
            push_str(&mut out, "\" has odd number of characters");
            diagnostics.push(Diagnostic::error(s.loc, string_from_chars(&out)));
            proof {
                lemma_hex_upto_err(v@, k as int + 1, v@.len() as int);
            }
            return Err(());
        }
        proof {
            lemma_all_hex_bytes(v@[k as int].hex@);
        }
        let decoded = match hex_decode(s.hex.as_str()) {
            Ok(d) => d,
            Err(_) => Vec::new(),
        };
        let mut decoded = decoded;
        result.append(&mut decoded);
        loc.use_end_from(&s.loc);
        k = k + 1;
    }
    Ok(make_bytes_expression(loc, result, resolve_to, true))
}

/// Where the first `m` hex literals decode without fault, so do fewer.
proof fn lemma_hex_upto_prefix(v: Seq<HexLiteral>, n: int, m: int)
    requires
        0 <= n <= m,
        hex_upto(v, m) is Some,
    ensures
        hex_upto(v, n) is Some,
    decreases m - n,
{
    if n < m {
        lemma_hex_upto_prefix(v, n + 1, m);
    }
}

/// An error among the first `n` hex literals is the outcome of all `m`.
proof fn lemma_hex_upto_err(v: Seq<HexLiteral>, n: int, m: int)
    requires
        0 <= n <= m,
        hex_upto(v, n) matches Some(Err(_)),
    ensures
        hex_upto(v, m) == hex_upto(v, n),
    decreases m - n,
{
    if n < m {
        lemma_hex_upto_err(v, n, m - 1);
    }
}

/// The value of a unit of time or currency, `None` for an unknown unit.
pub open spec fn unit_value(name: Seq<char>) -> Option<int> {
    if name == "seconds"@ || name == "wei"@ || name == "lamports"@ {
        Some(1)
    } else if name == "minutes"@ {
        Some(60)
    } else if name == "hours"@ {
        Some(3600)
    } else if name == "days"@ {
        Some(86400)
    } else if name == "weeks"@ {
        Some(604800)
    } else if name == "gwei"@ || name == "sol"@ {
        Some(1_000_000_000)
    } else if name == "ether"@ {
        Some(1_000_000_000_000_000_000)
    } else {
        None
    }
}

/// The diagnostics for a unit: a warning for a currency unit of another
/// chain than the target's, an error for an unknown unit.
pub open spec fn unit_diagnostics(loc: Loc, name: Seq<char>, target: Target) -> Seq<DiagnosticView> {
    let currency = if (name == "wei"@ || name == "gwei"@ || name == "ether"@) && target != Target::EVM {
        seq![warning_view(loc, "ethereum currency unit used while targeting "@ + target.spec_name())]
    } else if (name == "sol"@ || name == "lamports"@) && target != Target::Solana {
        seq![warning_view(loc, "solana currency unit used while targeting "@ + target.spec_name())]
    } else {
        Seq::empty()
    };
    let unknown = if unit_value(name) is None {
        seq![error_view(loc, "unknown unit '"@ + name + "'"@)]
    } else {
        Seq::empty()
    };
    currency + unknown
}

/// The value a number literal is multiplied by for its unit: one where
/// there is none, or the unit is unknown.
pub fn unit_literal(loc: &Loc, unit: &Option<Identifier>, ns: &mut Namespace, diagnostics: &mut Diagnostics) -> (res: Number)
    ensures
        res.wf(),
        *final(ns) == *old(ns),
        match unit {
            None => res.value() == 1 && final(diagnostics)@ == old(diagnostics)@,
            Some(id) => {
                &&& res.value() == (match unit_value(id.name@) { Some(v) => v, None => 1 })
                &&& final(diagnostics)@ == old(diagnostics)@ + unit_diagnostics(*loc, id.name@, old(ns).target)
            },
        },
{
    let id = match unit {
        None => return Number::from_u64(1),
        Some(id) => id,
    };
    proof {
        reveal_strlit("seconds");
        reveal_strlit("minutes");
        reveal_strlit("hours");
        reveal_strlit("days");
        reveal_strlit("weeks");
        reveal_strlit("wei");
        reveal_strlit("gwei");
        reveal_strlit("ether");
        reveal_strlit("sol");
        reveal_strlit("lamports");
    }
    let name = id.name.as_str();
    let ghost before = diagnostics@;
    let ethereum = str_is(name, "wei") || str_is(name, "gwei") || str_is(name, "ether");
    let solana = str_is(name, "sol") || str_is(name, "lamports");
    if ethereum && ns.target != Target::EVM {
        let mut out: Vec<char> = Vec::new();
        push_str(&mut out, "ethereum currency unit used while targeting ");
        push_str(&mut out, ns.target.name());
        diagnostics.push(Diagnostic::warning(*loc, string_from_chars(&out)));
    } else if solana && ns.target != Target::Solana {
        let mut out: Vec<char> = Vec::new();
        push_str(&mut out, "solana currency unit used while targeting ");
        push_str(&mut out, ns.target.name());
        diagnostics.push(Diagnostic::warning(*loc, string_from_chars(&out)));
    }
    let ghost middle = diagnostics@;
    let ten = Number::from_u64(10);
    let value = if str_is(name, "seconds") || str_is(name, "wei") || str_is(name, "lamports") {
        Number::from_u64(1)
    } else if str_is(name, "minutes") {
        Number::from_u64(60)
    } else if str_is(name, "hours") {
        Number::from_u64(60 * 60)
    } else if str_is(name, "days") {
        Number::from_u64(60 * 60 * 24)
    } else if str_is(name, "weeks") {
        Number::from_u64(60 * 60 * 24 * 7)
    } else if str_is(name, "gwei") || str_is(name, "sol") {
        proof {
            vstd::arithmetic::power::lemma_pow_positive(10, 9);
            reveal_with_fuel(vstd::arithmetic::power::pow, 10);
        }
        number_pow(&ten, 9)
    } else if str_is(name, "ether") {
        proof {
            reveal_with_fuel(vstd::arithmetic::power::pow, 19);
        }
        number_pow(&ten, 18)
    } else {
        let mut out: Vec<char> = Vec::new();
        push_str(&mut out, "unknown unit '");
        push_str(&mut out, name);
        push_str(&mut out, "'");
        diagnostics.push(Diagnostic::error(*loc, string_from_chars(&out)));
        Number::from_u64(1)
    };
    assert(diagnostics@ =~= before + unit_diagnostics(*loc, id.name@, ns.target));
    value
}

/// The error for an exponent that does not fit in a byte.
pub open spec fn exponent_too_large(loc: Loc, exp: Seq<char>) -> LiteralOutcome {
    LiteralOutcome::Failure(seq![error_view(loc, "exponent '"@ + exp + "' too large"@)])
}

/// What a number literal of decimal digits `integer` and exponent `exp`,
/// times `unit`, resolves to. A negative exponent that leaves a fraction
/// gives that fraction, without the unit.
pub open spec fn number_literal_outcome(
    loc: Loc,
    integer: Seq<char>,
    exp: Seq<char>,
    ns: &Namespace,
    unit: int,
    resolve_to: ResolveTo,
) -> LiteralOutcome {
    let i = decimal_value(integer) as int;
    if exp.len() == 0 {
        integer_literal(loc, i * unit, ns, resolve_to, None)
    } else if exp[0] == '-' {
        match u8_text_value(exp.drop_first()) {
            Some(e) => {
                let d = pow(10, e as nat);
                if i % d == 0 {
                    integer_literal(loc, (i / d) * unit, ns, resolve_to, None)
                } else {
                    LiteralOutcome::Fraction { loc, n: i, d }
                }
            },
            None => exponent_too_large(loc, exp),
        }
    } else {
        match u8_text_value(exp) {
            Some(e) => integer_literal(loc, i * pow(10, e as nat) * unit, ns, resolve_to, None),
            None => exponent_too_large(loc, exp),
        }
    }
}

/// Report that the exponent `exp` does not fit in a byte.
fn report_exponent(loc: &Loc, exp: &str, diagnostics: &mut Diagnostics)
    ensures
        resolved_as(Err(()), old(diagnostics)@, final(diagnostics)@, exponent_too_large(*loc, exp@)),
{
    let mut out: Vec<char> = Vec::new();
    push_str(&mut out, "exponent '");
    push_str(&mut out, exp);
    push_str(&mut out, "' too large");
    diagnostics.push(Diagnostic::error(*loc, string_from_chars(&out)));
    assert(final(diagnostics)@ =~= old(diagnostics)@ + seq![error_view(*loc, "exponent '"@ + exp@ + "' too large"@)]);
}

/// Resolve the number literal of decimal digits `integer` and exponent
/// `exp`, multiplied by the value of `unit`.
pub fn number_literal(
    loc: &Loc,
    integer: &str,
    exp: &str,
    ns: &Namespace,
    unit: &Number,
    diagnostics: &mut Diagnostics,
    resolve_to: ResolveTo,
) -> (res: Result<Expression, ()>)
    requires
        integer@.len() > 0,
        all_digits(integer@),
        unit.wf(),
        resolve_to matches ResolveTo::Type(t) ==> t.user_type_declared(ns) && names_declared(t@, ns),
    ensures
        resolved_as(res, old(diagnostics)@, final(diagnostics)@, number_literal_outcome(*loc, integer@, exp@, ns, unit.value(), resolve_to)),
{
    let i = parse_decimal(integer);
    let exp_chars = chars_of(exp);
    let ten = Number::from_u64(10);
    let n = if exp_chars.len() == 0 {
        i
    } else if exp_chars[0] == '-' {
        assert(exp_chars@.skip(1) =~= exp@.drop_first());
        match parse_u8(&exp_chars, 1) {
            Some(e) => {
                let d = number_pow(&ten, e as u32);
                proof {
                    vstd::arithmetic::power::lemma_pow_positive(10, e as nat);
                }
                let r = rational_new(&i, &d);
                proof {
                    lemma_lowest_terms_integer(r.numer.value(), r.denom.value(), i.value(), d.value());
                }
                if r.is_integer() {
                    r.numer
                } else {
                    return Ok(Expression::RationalNumberLiteral { loc: *loc, ty: Type::Rational, value: r });
                }
            },
            None => {
                report_exponent(loc, exp, diagnostics);
                return Err(());
            },
        }
    } else {
        assert(exp_chars@.skip(0) =~= exp@);
        match parse_u8(&exp_chars, 0) {
            Some(e) => {
                let p = number_pow(&ten, e as u32);
                number_mul(&i, &p)
            },
            None => {
                report_exponent(loc, exp, diagnostics);
                return Err(());
            },
        }
    };
    let value = number_mul(&n, unit);
    bigint_to_expression(loc, &value, ns, diagnostics, resolve_to, None)
}

/// What the fraction `n / d` resolves to: an integer literal where `d`
/// divides `n`, otherwise the fraction.
pub open spec fn scaled_literal(loc: Loc, n: int, d: int, ns: &Namespace, resolve_to: ResolveTo) -> LiteralOutcome {
    if n % d == 0 {
        integer_literal(loc, n / d, ns, resolve_to, None)
    } else {
        LiteralOutcome::Fraction { loc, n, d }
    }
}

/// What a number literal with decimal digits `integer` before the point,
/// `fraction` after it, and exponent `exp`, times `unit`, resolves to.
pub open spec fn rational_literal_outcome(
    loc: Loc,
    integer: Seq<char>,
    fraction: Seq<char>,
    exp: Seq<char>,
    unit: int,
    ns: &Namespace,
    resolve_to: ResolveTo,
) -> LiteralOutcome {
    let digits = decimal_value(integer + fraction) as int;
    let scale = pow(10, fraction.len());
    if exp.len() == 0 {
        scaled_literal(loc, digits * unit, scale, ns, resolve_to)
    } else {
        let negative = exp[0] == '-';
        match u8_text_value(if negative { exp.drop_first() } else { exp }) {
            None => exponent_too_large(loc, exp),
            Some(e) => if negative {
                scaled_literal(loc, digits * unit, scale * pow(10, e as nat), ns, resolve_to)
            } else {
                scaled_literal(loc, digits * pow(10, e as nat) * unit, scale, ns, resolve_to)
            },
        }
    }
}

/// The number that the characters `chars` from `start` on write.
fn parse_digits_from(chars: &Vec<char>, start: usize) -> (res: Number)
    requires
        start < chars@.len(),
        all_digits(chars@.skip(start as int)),
    ensures
        res.wf(),
        res.value() == decimal_value(chars@.skip(start as int)),
{
    let mut tail: Vec<char> = Vec::new();
    let mut k: usize = start;
    while k < chars.len()
        invariant
            start <= k <= chars@.len(),
            tail@ == chars@.subrange(start as int, k as int),
        decreases chars@.len() - k,
    {
        tail.push(chars[k]);
        k = k + 1;
        assert(tail@ =~= chars@.subrange(start as int, k as int));
    }
    assert(tail@ =~= chars@.skip(start as int));
    let text = string_from_chars(&tail);
    parse_decimal(text.as_str())
}

/// The number that the digits `integer` and then `fraction` write; a zero
/// integer part is left out, and so are the zeros that the fraction starts
/// with.
fn literal_digits(integer: &str, fraction: &str) -> (res: Number)
    requires
        all_digits(integer@),
        all_digits(fraction@),
    ensures
        res.wf(),
        res.value() == decimal_value(integer@ + fraction@),
{
    let int_chars = chars_of(integer);
    let frac = chars_of(fraction);
    proof {
        reveal_strlit("0");
        lemma_decimal_append(integer@, fraction@);
    }
    let int_zero = int_chars.len() == 0 || str_is(integer, "0");
    if int_zero {
        proof {
            if integer@.len() == 1 {
                assert(integer@ =~= seq!['0']);
                assert(integer@.drop_last().len() == 0);
                assert(decimal_value(integer@.drop_last()) == 0);
            }
            assert(decimal_value(integer@) == 0);
            assert(decimal_value(integer@) * pow(10, fraction@.len()) == 0) by (nonlinear_arith)
                requires decimal_value(integer@) == 0;
            assert(decimal_value(integer@ + fraction@) == decimal_value(fraction@));
        }
        let mut z: usize = 0;
        while z < frac.len() && frac[z] == '0'
            invariant
                z <= frac@.len(),
                forall|j: int| 0 <= j < z ==> frac@[j] == '0',
            decreases frac@.len() - z,
        {
            z = z + 1;
        }
        proof {
            lemma_decimal_zeros(frac@.take(z as int));
            lemma_decimal_append(frac@.take(z as int), frac@.skip(z as int));
            assert(frac@.take(z as int) + frac@.skip(z as int) =~= frac@);
            assert(decimal_value(frac@.take(z as int)) * pow(10, frac@.skip(z as int).len()) == 0) by (nonlinear_arith)
                requires decimal_value(frac@.take(z as int)) == 0;
            assert(decimal_value(fraction@) == decimal_value(frac@.skip(z as int)));
        }
        if z == frac.len() {
            assert(frac@.skip(z as int).len() == 0);
            return Number::from_u64(0);
        }
        assert forall|j: int| 0 <= j < frac@.skip(z as int).len() implies crate::number::is_digit(#[trigger] frac@.skip(z as int)[j]) by {
            assert(crate::number::is_digit(frac@[z + j]));
        }
        parse_digits_from(&frac, z)
    } else {
        let mut all: Vec<char> = int_chars.clone();
        let mut k: usize = 0;
        while k < frac.len()
            invariant
                k <= frac@.len(),
                all@ == int_chars@ + frac@.take(k as int),
            decreases frac@.len() - k,
        {
            all.push(frac[k]);
            k = k + 1;
            assert(all@ =~= int_chars@ + frac@.take(k as int));
        }
        assert(frac@.take(k as int) =~= frac@);
        assert(all@.skip(0) =~= integer@ + fraction@);
        parse_digits_from(&all, 0)
    }
}

/// Resolve the number literal with decimal digits `integer` before the
/// point, `fraction` after it and exponent `exp`, multiplied by the value
/// of `unit`: an integer literal where the value is whole, otherwise a
/// rational number literal.
pub fn rational_number_literal(
    loc: &Loc,
    integer: &str,
    fraction: &str,
    exp: &str,
    unit: &Number,
    ns: &Namespace,
    diagnostics: &mut Diagnostics,
    resolve_to: ResolveTo,
) -> (res: Result<Expression, ()>)
    requires
        all_digits(integer@),
        all_digits(fraction@),
        fraction@.len() <= u32::MAX,
        unit.wf(),
        resolve_to matches ResolveTo::Type(t) ==> t.user_type_declared(ns) && names_declared(t@, ns),
    ensures
        resolved_as(
            res,
            old(diagnostics)@,
            final(diagnostics)@,
            rational_literal_outcome(*loc, integer@, fraction@, exp@, unit.value(), ns, resolve_to),
        ),
{
    let len = fraction.len() as u32;
    let exp_chars = chars_of(exp);
    let exp_negative = exp_chars.len() > 0 && exp_chars[0] == '-';
    let ten = Number::from_u64(10);
    let denominator = number_pow(&ten, len);
    let digits = literal_digits(integer, fraction);
    proof {
        vstd::arithmetic::power::lemma_pow_positive(10, len as nat);
        assert(len == fraction@.len()) by {
            lemma_all_digits_bytes(fraction@);
        }
    }
    let ghost mut gn: int = digits.value();
    let ghost mut gd: int = denominator.value();
    let n: Rational = if exp_chars.len() == 0 {
        rational_new(&digits, &denominator)
    } else {
        let start: usize = if exp_negative { 1 } else { 0 };
        assert(exp_chars@.skip(start as int) =~= (if exp_negative { exp@.drop_first() } else { exp@ }));
        let e = match parse_u8(&exp_chars, start) {
            Some(e) => e,
            None => {
                report_exponent(loc, exp, diagnostics);
                return Err(());
            },
        };
        let exp_result = number_pow(&ten, e as u32);
        proof {
            vstd::arithmetic::power::lemma_pow_positive(10, e as nat);
        }
        if exp_negative {
            let d = number_mul(&denominator, &exp_result);
            proof {
                gd = d.value();
                assert(gd > 0) by (nonlinear_arith)
                    requires gd == denominator.value() * exp_result.value(), denominator.value() > 0, exp_result.value() > 0;
            }
            rational_new(&digits, &d)
        } else {
            let m = number_mul(&digits, &exp_result);
            proof {
                gn = m.value();
            }
            rational_new(&m, &denominator)
        }
    };
    let res = rational_mul(&n, unit);
    proof {
        assert((n.numer.value() * unit.value()) * gd == (gn * unit.value()) * n.denom.value()) by (nonlinear_arith)
            requires n.numer.value() * gd == gn * n.denom.value();
        lemma_lowest_terms_same_value(
            res.numer.value(),
            res.denom.value(),
            n.numer.value() * unit.value(),
            n.denom.value(),
            gn * unit.value(),
            gd,
        );
        lemma_lowest_terms_integer(res.numer.value(), res.denom.value(), gn * unit.value(), gd);
    }
    if res.is_integer() {
        bigint_to_expression(loc, &res.numer, ns, diagnostics, resolve_to, None)
    } else {
        Ok(Expression::RationalNumberLiteral { loc: *loc, ty: Type::Rational, value: res })
    }
}

/// What decoding base58 text can report.
#[derive(Clone, Copy, Debug, PartialEq, Eq, Structural)]
pub enum Base58Error {
    /// The character at the byte position is not a base58 digit.
    InvalidCharacter(char, usize),
    /// The decoded number does not fit.
    InvalidLength,
}

/// What `FromBase58::from_base58` of the `base58` crate makes of a text.
pub uninterp spec fn base58_decoding(s: Seq<char>) -> Result<Seq<u8>, Base58Error>;

/// Texts on which `FromBase58::from_base58` of the `base58` crate returns:
/// it subtracts the number of leading `'1'`s from the number of leading
/// zero bytes of its 132-byte buffer, which cannot underflow where the text
/// is at most 132 bytes long (each digit needs at most a byte) or does not
/// begin with `'1'`.
pub open spec fn base58_decoding_returns(s: Seq<char>) -> bool {
    encode_utf8(s).len() <= 132 || !(s.len() > 0 && s[0] == '1')
}

/// `FromBase58::from_base58` of the `base58` crate: the bytes that the
/// base58 text stands for, or what is wrong with it; a wrong character is
/// reported with its byte position in the text.
#[verifier::external_body]
fn from_base58(s: &str) -> (res: Result<Vec<u8>, Base58Error>)
    requires
        base58_decoding_returns(s@),
    ensures
        res is Ok ==> base58_decoding(s@) == Ok::<Seq<u8>, Base58Error>(res->Ok_0@),
        res is Err ==> base58_decoding(s@) == Err::<Seq<u8>, Base58Error>(res->Err_0),
        res is Err && res->Err_0 is InvalidCharacter ==> res->Err_0->InvalidCharacter_1 < encode_utf8(s@).len(),
{
    match s.from_base58() {
        Ok(v) => Ok(v),
        Err(FromBase58Error::InvalidBase58Character(ch, pos)) => Err(Base58Error::InvalidCharacter(ch, pos)),
        Err(FromBase58Error::InvalidBase58Length) => Err(Base58Error::InvalidLength),
    }
}

/// The BLAKE2b hash of `data` with key `key`, `nn` bytes long.
pub uninterp spec fn blake2b_hash(nn: usize, key: Seq<u8>, data: Seq<u8>) -> Seq<u8>;

/// `blake2_rfc::blake2b::blake2b`: the BLAKE2b hash of `data` with key
/// `key`, of `nn` bytes.
#[verifier::external_body]
fn blake2b(nn: usize, key: &[u8], data: &[u8]) -> (res: Vec<u8>)
    requires
        1 <= nn <= 64,
        key@.len() <= 64,
    ensures
        res@ == blake2b_hash(nn, key@, data@),
        res@.len() == nn,
{
    blake2_rfc::blake2b::blake2b(nn, key, data).as_bytes().to_vec()
}

/// The prefix that Substrate hashes before an address for its checksum.
pub open spec fn ss58_prefix() -> Seq<u8> {
    seq![83u8, 83u8, 53u8, 56u8, 80u8, 82u8, 69u8]
}

/// The location of the character at byte `pos` of a literal at `loc`.
pub open spec fn char_loc(loc: Loc, pos: usize) -> Loc {
    match loc {
        Loc::File(file_no, start, _) => Loc::File(file_no, (start + pos) as usize, (start + pos) as usize),
        _ => loc,
    }
}

/// The failure of decoding a base58 address literal.
pub open spec fn base58_failure(loc: Loc, address: Seq<char>, e: Base58Error) -> LiteralOutcome {
    match e {
        Base58Error::InvalidLength => LiteralOutcome::Failure(
            seq![error_view(loc, "address literal "@ + address + " invalid base58 length"@)],
        ),
        Base58Error::InvalidCharacter(ch, pos) => LiteralOutcome::Failure(
            seq![error_view(char_loc(loc, pos), "address literal "@ + address + " invalid character '"@ + seq![ch] + "'"@)],
        ),
    }
}

/// The failure for decoded bytes of the wrong length.
pub open spec fn address_length_failure(loc: Loc, address: Seq<char>, len: nat) -> LiteralOutcome {
    LiteralOutcome::Failure(seq![error_view(loc, "address literal "@ + address + " incorrect length of "@ + decimal(len))])
}

/// What Substrate address bytes `v` resolve to, given `hash`, the hash of
/// "SS58PRE" and the bytes up to the checksum: the address between the
/// prefix byte and the two checksum bytes, where these are the first two
/// bytes of the hash.
pub open spec fn checksum_outcome(loc: Loc, address: Seq<char>, v: Seq<u8>, hash: Seq<u8>, len: usize) -> LiteralOutcome {
    if v[len + 1] != hash[0] || v[len + 2] != hash[1] {
        LiteralOutcome::Failure(seq![error_view(loc, "address literal "@ + address + " hash incorrect checksum"@)])
    } else {
        LiteralOutcome::Value(ExpressionView::NumberLiteral {
            loc,
            ty: TypeView::Address(false),
            value: be_value(v.subrange(1, len + 1)) as int,
        })
    }
}

/// What the decoding `decoded` of an address literal resolves to. On
/// Substrate the bytes hold a prefix byte, the address and two checksum
/// bytes, which must be the first two of the BLAKE2b-512 hash of "SS58PRE",
/// the prefix and the address; on Solana they hold the address alone.
/// Other targets have no address literals.
pub open spec fn decoded_outcome(loc: Loc, address: Seq<char>, decoded: Result<Seq<u8>, Base58Error>, ns: &Namespace) -> LiteralOutcome {
    let len = ns.address_length;
    match ns.target {
        Target::Substrate { .. } => match decoded {
            Ok(v) => if v.len() != len + 3 {
                address_length_failure(loc, address, v.len())
            } else {
                checksum_outcome(loc, address, v, blake2b_hash(64, Seq::empty(), ss58_prefix() + v.take(len + 1)), len)
            },
            Err(e) => base58_failure(loc, address, e),
        },
        Target::Solana => match decoded {
            Ok(v) => if v.len() != len {
                address_length_failure(loc, address, v.len())
            } else {
                LiteralOutcome::Value(ExpressionView::NumberLiteral { loc, ty: TypeView::Address(false), value: be_value(v) as int })
            },
            Err(e) => base58_failure(loc, address, e),
        },
        Target::EVM => unsupported_address(loc, address, ns.target),
    }
}

/// The failure for an address literal on a target that has none.
pub open spec fn unsupported_address(loc: Loc, address: Seq<char>, target: Target) -> LiteralOutcome {
    LiteralOutcome::Failure(seq![error_view(loc, "address literal "@ + address + " not supported on "@ + target.spec_name())])
}

/// What an address literal resolves to: what its base58 decoding resolves
/// to, on a target that has address literals.
pub open spec fn address_outcome(loc: Loc, address: Seq<char>, ns: &Namespace) -> LiteralOutcome {
    if ns.target is EVM {
        unsupported_address(loc, address, ns.target)
    } else {
        decoded_outcome(loc, address, base58_decoding(address), ns)
    }
}

/// The view of a decoding.
pub open spec fn decoded_view(decoded: Result<Vec<u8>, Base58Error>) -> Result<Seq<u8>, Base58Error> {
    match decoded {
        Ok(v) => Ok(v@),
        Err(e) => Err(e),
    }
}

/// Report a base58 decoding failure of an address literal.
fn report_base58(loc: &Loc, address: &str, e: Base58Error, diagnostics: &mut Diagnostics)
    requires
        e matches Base58Error::InvalidCharacter(_, pos) ==> (loc matches Loc::File(_, start, _) ==> start + pos <= usize::MAX),
    ensures
        resolved_as(Err(()), old(diagnostics)@, final(diagnostics)@, base58_failure(*loc, address@, e)),
{
    let mut out: Vec<char> = Vec::new();
    push_str(&mut out, "address literal ");
    push_str(&mut out, address);
    match e {
        Base58Error::InvalidLength => {
            push_str(&mut out, " invalid base58 length");
            diagnostics.push(Diagnostic::error(*loc, string_from_chars(&out)));
        },
        Base58Error::InvalidCharacter(ch, pos) => {
            push_str(&mut out, " invalid character '");
            out.push(ch);
            push_str(&mut out, "'");
            assert(out@ =~= "address literal "@ + address@ + " invalid character '"@ + seq![ch] + "'"@);
            let at = match *loc {
                Loc::File(file_no, start, _) => Loc::File(file_no, start + pos, start + pos),
                other => other,
            };
            diagnostics.push(Diagnostic::error(at, string_from_chars(&out)));
        },
    }
    assert(final(diagnostics)@ =~= old(diagnostics)@ + base58_failure(*loc, address@, e)->Failure_0);
}

/// Report decoded address bytes of the wrong length.
fn report_address_length(loc: &Loc, address: &str, len: usize, diagnostics: &mut Diagnostics)
    ensures
        resolved_as(Err(()), old(diagnostics)@, final(diagnostics)@, address_length_failure(*loc, address@, len as nat)),
{
    let mut out: Vec<char> = Vec::new();
    push_str(&mut out, "address literal ");
    push_str(&mut out, address);
    push_str(&mut out, " incorrect length of ");
    push_decimal(&mut out, len);
    diagnostics.push(Diagnostic::error(*loc, string_from_chars(&out)));
    assert(final(diagnostics)@ =~= old(diagnostics)@ + address_length_failure(*loc, address@, len as nat)->Failure_0);
}

/// Report an address literal on a target that has none.
fn report_unsupported_address(loc: &Loc, address: &str, target: Target, diagnostics: &mut Diagnostics)
    ensures
        resolved_as(Err(()), old(diagnostics)@, final(diagnostics)@, unsupported_address(*loc, address@, target)),
{
    let mut out: Vec<char> = Vec::new();
    push_str(&mut out, "address literal ");
    push_str(&mut out, address);
    push_str(&mut out, " not supported on ");
    push_str(&mut out, target.name());
    diagnostics.push(Diagnostic::error(*loc, string_from_chars(&out)));
    assert(final(diagnostics)@ =~= old(diagnostics)@ + unsupported_address(*loc, address@, target)->Failure_0);
}

/// Resolve Substrate address bytes `v` given `hash`, the hash of
/// "SS58PRE" and the bytes before the checksum: the address where the
/// checksum bytes match the hash, otherwise an error.
pub fn checksum_address(
    loc: &Loc,
    address: &str,
    v: &Vec<u8>,
    hash: &Vec<u8>,
    len: usize,
    diagnostics: &mut Diagnostics,
) -> (res: Result<Expression, ()>)
    requires
        v@.len() == len + 3,
        len + 3 <= usize::MAX,
        hash@.len() >= 2,
    ensures
        resolved_as(res, old(diagnostics)@, final(diagnostics)@, checksum_outcome(*loc, address@, v@, hash@, len)),
{
    if v[len + 1] != hash[0] || v[len + 2] != hash[1] {
        let mut out: Vec<char> = Vec::new();
        push_str(&mut out, "address literal ");
        push_str(&mut out, address);
        push_str(&mut out, " hash incorrect checksum");
        diagnostics.push(Diagnostic::error(*loc, string_from_chars(&out)));
        assert(final(diagnostics)@ =~= old(diagnostics)@
            + seq![error_view(*loc, "address literal "@ + address@ + " hash incorrect checksum"@)]);
        return Err(());
    }
    let value = Number::from_be_bytes(vstd::slice::slice_subrange(v.as_slice(), 1, len + 1));
    Ok(Expression::NumberLiteral { loc: *loc, ty: Type::Address(false), value })
}

/// Resolve an address literal from its base58 decoding `decoded`: check
/// the length, and on Substrate the checksum.
pub fn decoded_address(
    loc: &Loc,
    address: &str,
    decoded: Result<Vec<u8>, Base58Error>,
    ns: &Namespace,
    diagnostics: &mut Diagnostics,
) -> (res: Result<Expression, ()>)
    requires
        ns.address_length + 3 <= usize::MAX,
        decoded matches Err(Base58Error::InvalidCharacter(_, pos)) ==> (loc matches Loc::File(_, start, _) ==> start + pos <= usize::MAX),
    ensures
        resolved_as(res, old(diagnostics)@, final(diagnostics)@, decoded_outcome(*loc, address@, decoded_view(decoded), ns)),
{
    let len = ns.address_length;
    if ns.target.is_substrate() {
        match decoded {
            Ok(v) => {
                if v.len() != len + 3 {
                    report_address_length(loc, address, v.len(), diagnostics);
                    return Err(());
                }
                let mut hash_data: Vec<u8> = vec![83u8, 83u8, 53u8, 56u8, 80u8, 82u8, 69u8];
                let mut k: usize = 0;
                while k <= len
                    invariant
                        k <= len + 1,
                        len + 3 == v@.len(),
                        len + 3 <= usize::MAX,
                        hash_data@ == ss58_prefix() + v@.take(k as int),
                    decreases len + 1 - k,
                {
                    hash_data.push(v[k]);
                    k = k + 1;
                    assert(hash_data@ =~= ss58_prefix() + v@.take(k as int));
                }
                let key: Vec<u8> = Vec::new();
                let hash = blake2b(64, key.as_slice(), hash_data.as_slice());
                assert(key@ =~= Seq::<u8>::empty());
                checksum_address(loc, address, &v, &hash, len, diagnostics)
            },
            Err(e) => {
                report_base58(loc, address, e, diagnostics);
                Err(())
            },
        }
    } else if ns.target == Target::Solana {
        match decoded {
            Ok(v) => {
                if v.len() != len {
                    report_address_length(loc, address, v.len(), diagnostics);
                    return Err(());
                }
                let value = Number::from_be_bytes(v.as_slice());
                Ok(Expression::NumberLiteral { loc: *loc, ty: Type::Address(false), value })
            },
            Err(e) => {
                report_base58(loc, address, e, diagnostics);
                Err(())
            },
        }
    } else {
        report_unsupported_address(loc, address, ns.target, diagnostics);
        Err(())
    }
}

/// Resolve an address literal: base58 text that holds an address, with a
/// checksum on Substrate.
pub fn address_literal(loc: &Loc, address: &str, ns: &mut Namespace, diagnostics: &mut Diagnostics) -> (res: Result<Expression, ()>)
    requires
        !(old(ns).target is EVM) ==> base58_decoding_returns(address@),
        old(ns).address_length + 3 <= usize::MAX,
        loc matches Loc::File(_, start, _) ==> start + encode_utf8(address@).len() <= usize::MAX,
    ensures
        *final(ns) == *old(ns),
        resolved_as(res, old(diagnostics)@, final(diagnostics)@, address_outcome(*loc, address@, old(ns))),
{
    if ns.target == Target::EVM {
        report_unsupported_address(loc, address, ns.target, diagnostics);
        return Err(());
    }
    let decoded = from_base58(address);
    decoded_address(loc, address, decoded, ns, diagnostics)
}

/// The digits of a hexadecimal number literal: what follows `0x`, without
/// underscores.
pub open spec fn hex_number_digits(n: Seq<char>) -> Seq<char> {
    n.skip(2).filter(|c: char| c != '_')
}

/// Whether a hexadecimal number literal has the shape of an address: `0x`
/// and forty digits, without underscores.
pub open spec fn looks_like_address(n: Seq<char>) -> bool {
    n.len() == 42 && !n.contains('_')
}

/// What a hexadecimal number literal `n` resolves to, given `checksummed`,
/// its digits with the case of the mixed-case checksum encoding of
/// Ethereum addresses. On EVM a literal shaped as an address is an address,
/// if written with its checksum; on other targets such a literal with its
/// checksum is an error. Where a fixed-length bytes type is asked for, a
/// value other than zero needs two digits a byte. Otherwise it is an
/// integer literal.
pub open spec fn hex_number_outcome(
    loc: Loc,
    n: Seq<char>,
    checksummed: Seq<char>,
    ns: &Namespace,
    resolve_to: ResolveTo,
) -> LiteralOutcome {
    let digits = hex_number_digits(n);
    if looks_like_address(n) && ns.target is EVM {
        if checksummed == n {
            LiteralOutcome::Value(ExpressionView::NumberLiteral {
                loc,
                ty: TypeView::Address(false),
                value: hex_value(checksummed.skip(2)) as int,
            })
        } else {
            LiteralOutcome::Failure(seq![error_view(loc, "address literal has incorrect checksum, expected '"@ + checksummed + "'"@)])
        }
    } else if looks_like_address(n) && checksummed == n {
        LiteralOutcome::Failure(seq![error_view(
            loc,
            "ethereum address literal '"@ + n + "' not supported on target "@ + ns.target.spec_name(),
        )])
    } else if resolve_to matches ResolveTo::Type(t) && t@ is Bytes {
        let length = resolve_to->Type_0@->Bytes_0;
        let expected = length as nat * 2;
        if hex_value(digits) != 0 && digits.len() != expected {
            LiteralOutcome::Failure(seq![cast_error_view(
                loc,
                "hex literal "@ + n + " must be "@ + decimal(expected) + " digits for type 'bytes"@ + decimal(length as nat) + "'"@,
            )])
        } else {
            LiteralOutcome::Value(ExpressionView::NumberLiteral { loc, ty: TypeView::Bytes(length), value: hex_value(digits) as int })
        }
    } else {
        integer_literal(loc, hex_value(digits) as int, ns, resolve_to, Some(digits.len() as usize))
    }
}

/// The characters of `chars` from index 2 on, without underscores.
fn hex_digits_of(chars: &Vec<char>) -> (res: Vec<char>)
    requires
        chars@.len() >= 2,
    ensures
        res@ == hex_number_digits(chars@),
{
    let mut out: Vec<char> = Vec::new();
    let mut k: usize = 2;
    while k < chars.len()
        invariant
            2 <= k <= chars@.len(),
            out@ == chars@.subrange(2, k as int).filter(|c: char| c != '_'),
        decreases chars@.len() - k,
    {
        proof {
            let prev = chars@.subrange(2, k as int);
            assert(prev.push(chars@[k as int]) =~= chars@.subrange(2, k as int + 1));
            prev.lemma_filter_push(chars@[k as int], |c: char| c != '_');
        }
        if chars[k] != '_' {
            out.push(chars[k]);
        }
        k = k + 1;
    }
    assert(chars@.subrange(2, k as int) =~= chars@.skip(2));
    out
}

/// Resolve a hexadecimal number literal `n`, `0x` and its digits, given
/// `checksummed`, its rendering in the mixed-case checksum encoding of
/// Ethereum addresses where it has the shape of an address.
pub fn hex_number_literal(
    loc: &Loc,
    n: &str,
    checksummed: &str,
    ns: &mut Namespace,
    diagnostics: &mut Diagnostics,
    resolve_to: ResolveTo,
) -> (res: Result<Expression, ()>)
    requires
        n@.len() > 2,
        n@[0] == '0',
        n@[1] == 'x',
        all_hex_digits(hex_number_digits(n@)),
        hex_number_digits(n@).len() > 0,
        n@.len() * 4 <= u64::MAX,
        looks_like_address(n@) ==> checksummed@.len() == 42 && all_hex_digits(checksummed@.skip(2)),
        resolve_to matches ResolveTo::Type(t) ==> t.user_type_declared(old(ns)) && names_declared(t@, old(ns)),
    ensures
        *final(ns) == *old(ns),
        resolved_as(res, old(diagnostics)@, final(diagnostics)@, hex_number_outcome(*loc, n@, checksummed@, old(ns), resolve_to)),
{
    let chars = chars_of(n);
    let digits = hex_digits_of(&chars);
    let underscores = contains_char(&chars, '_');
    if chars.len() == 42 && !underscores {
        if ns.target == Target::EVM {
            if str_is(checksummed, n) {
                let check_chars = chars_of(checksummed);
                let mut tail: Vec<char> = Vec::new();
                let mut k: usize = 2;
                while k < check_chars.len()
                    invariant
                        2 <= k <= check_chars@.len(),
                        tail@ == check_chars@.subrange(2, k as int),
                    decreases check_chars@.len() - k,
                {
                    tail.push(check_chars[k]);
                    k = k + 1;
                    assert(tail@ =~= check_chars@.subrange(2, k as int));
                }
                assert(tail@ =~= checksummed@.skip(2));
                let value = parse_hex(string_from_chars(&tail).as_str());
                return Ok(Expression::NumberLiteral { loc: *loc, ty: Type::Address(false), value });
            }
            let mut out: Vec<char> = Vec::new();
            push_str(&mut out, "address literal has incorrect checksum, expected '");
            push_str(&mut out, checksummed);
            push_str(&mut out, "'");
            diagnostics.push(Diagnostic::error(*loc, string_from_chars(&out)));
            assert(final(diagnostics)@ =~= old(diagnostics)@
                + seq![error_view(*loc, "address literal has incorrect checksum, expected '"@ + checksummed@ + "'"@)]);
            return Err(());
        } else if str_is(checksummed, n) {
            let mut out: Vec<char> = Vec::new();
            push_str(&mut out, "ethereum address literal '");
            push_str(&mut out, n);
            push_str(&mut out, "' not supported on target ");
            push_str(&mut out, ns.target.name());
            diagnostics.push(Diagnostic::error(*loc, string_from_chars(&out)));
            assert(final(diagnostics)@ =~= old(diagnostics)@ + seq![error_view(
                *loc,
                "ethereum address literal '"@ + n@ + "' not supported on target "@ + ns.target.spec_name(),
            )]);
            return Err(());
        }
    }
    let text = string_from_chars(&digits);
    let val = parse_hex(text.as_str());
    let bytes_length: Option<u8> = match resolve_to {
        ResolveTo::Type(Type::Bytes(length)) => Some(*length),
        _ => None,
    };
    proof {
        if let ResolveTo::Type(t) = resolve_to {
            crate::types::lemma_view_variant(*t);
        }
    }
    if let Some(length) = bytes_length {
        let expected_length = length as usize * 2;
        if !val.is_zero() && digits.len() != expected_length {
            let mut out: Vec<char> = Vec::new();
            push_str(&mut out, "hex literal ");
            push_str(&mut out, n);
            push_str(&mut out, " must be ");
            push_decimal(&mut out, expected_length);
            push_str(&mut out, " digits for type 'bytes");
            push_decimal(&mut out, length as usize);
            push_str(&mut out, "'");
            diagnostics.push(Diagnostic::cast_error(*loc, string_from_chars(&out)));
            assert(final(diagnostics)@ =~= old(diagnostics)@ + seq![cast_error_view(
                *loc,
                "hex literal "@ + n@ + " must be "@ + decimal(expected_length as nat) + " digits for type 'bytes"@
                    + decimal(length as nat) + "'"@,
            )]);
            return Err(());
        }
        return Ok(Expression::NumberLiteral { loc: *loc, ty: Type::Bytes(length), value: val });
    }
    bigint_to_expression(loc, &val, ns, diagnostics, resolve_to, Some(digits.len()))
}

/// Whether `c` is one of `chars`.
fn contains_char(chars: &Vec<char>, c: char) -> (res: bool)
    ensures
        res == chars@.contains(c),
{
    let mut i: usize = 0;
    while i < chars.len()
        invariant
            i <= chars@.len(),
            forall|j: int| 0 <= j < i ==> chars@[j] != c,
        decreases chars@.len() - i,
    {
        if chars[i] == c {
            return true;
        }
        i = i + 1;
    }
    false
}

/// What checking the elements of an array literal finds: whether they
/// are consistent, the length of each dimension from the innermost out,
/// the elements that are not arrays, in order, and the diagnostics.
pub struct SubarrayCheck {
    pub ok: bool,
    pub dims: Seq<u32>,
    pub flat: Seq<pt::Expression>,
    pub diags: Seq<DiagnosticView>,
}

/// Checking the elements `exprs` of an array literal: either the first is
/// an array literal, and then every other one is one of the same length,
/// each checked in turn, with the dimensions found through the first; or
/// none is, and they are the elements. The length of this level is added to
/// the dimensions last, where `with_dims` asks for them.
pub open spec fn subarrays(exprs: Seq<pt::Expression>, with_dims: bool) -> SubarrayCheck
    decreases exprs, 1int, 0int,
{
    if exprs.len() > 0 && exprs[0] is ArrayLiteral {
        let first = exprs[0]->ArrayLiteral_1@;
        proof {
            assert(decreases_to!(exprs => exprs[0]));
        }
        let inner = subarrays(first, with_dims);
        if !inner.ok {
            inner
        } else {
            let rest = sibling_subarrays(exprs, first.len(), 1);
            SubarrayCheck {
                ok: rest.ok,
                dims: if rest.ok && with_dims { inner.dims.push(exprs.len() as u32) } else { inner.dims },
                flat: inner.flat + rest.flat,
                diags: inner.diags + rest.diags,
            }
        }
    } else {
        match first_array_from(exprs, 1) {
            Some(i) => SubarrayCheck {
                ok: false,
                dims: Seq::empty(),
                flat: Seq::empty(),
                diags: seq![error_view(
                    exprs[i].spec_loc(),
                    "array elements should be of the type, element "@ + decimal((i + 1) as nat) + " is unexpected array"@,
                )],
            },
            None => SubarrayCheck {
                ok: true,
                dims: if with_dims { seq![exprs.len() as u32] } else { Seq::empty() },
                flat: exprs,
                diags: Seq::empty(),
            },
        }
    }
}

/// The elements of `exprs` from index `i` on, after a first sub array of
/// length `n`: each must be an array literal of length `n`, and is checked
/// in turn, up to the first that fails.
pub open spec fn sibling_subarrays(exprs: Seq<pt::Expression>, n: nat, i: int) -> SubarrayCheck
    decreases exprs, 0int, exprs.len() - i,
{
    if i < 1 || i >= exprs.len() {
        SubarrayCheck { ok: true, dims: Seq::empty(), flat: Seq::empty(), diags: Seq::empty() }
    } else if exprs[i] is ArrayLiteral {
        let other = exprs[i]->ArrayLiteral_1@;
        if other.len() != n {
            SubarrayCheck {
                ok: false,
                dims: Seq::empty(),
                flat: Seq::empty(),
                diags: seq![error_view(
                    exprs[i].spec_loc(),
                    "array elements should be identical, sub array "@ + decimal((i + 1) as nat) + " has "@
                        + decimal(other.len()) + " elements rather than "@ + decimal(n),
                )],
            }
        } else {
            proof {
                assert(decreases_to!(exprs => exprs[i]));
            }
            let r = subarrays(other, false);
            if !r.ok {
                SubarrayCheck { ok: false, dims: Seq::empty(), flat: r.flat, diags: r.diags }
            } else {
                let rest = sibling_subarrays(exprs, n, i + 1);
                SubarrayCheck { ok: rest.ok, dims: Seq::empty(), flat: r.flat + rest.flat, diags: r.diags + rest.diags }
            }
        }
    } else {
        SubarrayCheck {
            ok: false,
            dims: Seq::empty(),
            flat: Seq::empty(),
            diags: seq![error_view(exprs[i].spec_loc(), "array element "@ + decimal((i + 1) as nat) + " should also be an array"@)],
        }
    }
}

/// The index of the first array literal among `exprs` from `i` on.
pub open spec fn first_array_from(exprs: Seq<pt::Expression>, i: int) -> Option<int>
    decreases exprs.len() - i,
{
    if i < 0 || i >= exprs.len() {
        None
    } else if exprs[i] is ArrayLiteral {
        Some(i)
    } else {
        first_array_from(exprs, i + 1)
    }
}

/// An array literal of elements `exprs` whose levels have the lengths of
/// `shape`, outermost first: at each level but the deepest every element is
/// an array literal, and at the deepest none is.
pub open spec fn uniform_array(exprs: Seq<pt::Expression>, shape: Seq<nat>) -> bool
    decreases shape.len(),
{
    &&& shape.len() >= 1
    &&& exprs.len() == shape[0]
    &&& if shape.len() == 1 {
        forall|i: int| 0 <= i < exprs.len() ==> !(#[trigger] exprs[i] is ArrayLiteral)
    } else {
        &&& shape[0] > 0
        &&& forall|i: int| 0 <= i < exprs.len() ==> (#[trigger] exprs[i] is ArrayLiteral)
            && uniform_array(exprs[i]->ArrayLiteral_1@, shape.drop_first())
    }
}

/// The lengths of the levels of `shape`, innermost first.
pub open spec fn dims_of(shape: Seq<nat>) -> Seq<u32>
    decreases shape.len(),
{
    if shape.len() == 0 {
        Seq::empty()
    } else {
        dims_of(shape.drop_first()).push(shape[0] as u32)
    }
}

/// The elements at level `depth` below `exprs`, in order.
pub open spec fn leaves_of(exprs: Seq<pt::Expression>, depth: nat) -> Seq<pt::Expression>
    decreases depth, 1int, 0int,
{
    if depth <= 1 {
        exprs
    } else {
        leaves_list(exprs, 0, (depth - 1) as nat)
    }
}

/// The elements at level `d` below each of `exprs` from index `i` on, in
/// order.
pub open spec fn leaves_list(exprs: Seq<pt::Expression>, i: int, d: nat) -> Seq<pt::Expression>
    decreases d + 1, 0int, exprs.len() - i,
{
    if i < 0 || i >= exprs.len() {
        Seq::empty()
    } else {
        leaves_of(exprs[i]->ArrayLiteral_1@, d) + leaves_list(exprs, i + 1, d)
    }
}

/// No element from index `i` on is an array literal.
proof fn lemma_no_array_from(exprs: Seq<pt::Expression>, i: int)
    requires
        0 <= i,
        forall|k: int| 0 <= k < exprs.len() ==> !(#[trigger] exprs[k] is ArrayLiteral),
    ensures
        first_array_from(exprs, i) is None,
    decreases exprs.len() - i,
{
    if i < exprs.len() {
        lemma_no_array_from(exprs, i + 1);
    }
}

/// A uniform array literal passes the check.
proof fn lemma_uniform_subarrays(exprs: Seq<pt::Expression>, shape: Seq<nat>, with_dims: bool)
    requires
        uniform_array(exprs, shape),
    ensures
        subarrays(exprs, with_dims).ok,
        subarrays(exprs, with_dims).diags == Seq::<DiagnosticView>::empty(),
        subarrays(exprs, with_dims).flat == leaves_of(exprs, shape.len()),
        subarrays(exprs, with_dims).dims == (if with_dims { dims_of(shape) } else { Seq::<u32>::empty() }),
    decreases shape.len(), 1int, 0int,
{
    if shape.len() == 1 {
        if exprs.len() > 0 {
            assert(!(exprs[0] is ArrayLiteral));
        }
        lemma_no_array_from(exprs, 1);
        assert(shape.drop_first() =~= Seq::<nat>::empty());
        assert(dims_of(shape.drop_first()) == Seq::<u32>::empty());
        assert(first_array_from(exprs, 1) is None);
        assert(subarrays(exprs, with_dims).ok);
    } else {
        assert(exprs[0] is ArrayLiteral);
        let first = exprs[0]->ArrayLiteral_1@;
        lemma_uniform_subarrays(first, shape.drop_first(), with_dims);
        lemma_uniform_siblings(exprs, shape, 1);
        assert(uniform_array(first, shape.drop_first()));
        assert(shape.drop_first()[0] == shape[1]);
        assert(first.len() == shape[1]);
        assert(subarrays(exprs, with_dims).ok);
        let d = (shape.len() - 1) as nat;
        assert(leaves_list(exprs, 0, d) == leaves_of(first, d) + leaves_list(exprs, 1, d));
        assert(Seq::<DiagnosticView>::empty() + Seq::<DiagnosticView>::empty() =~= Seq::<DiagnosticView>::empty());
    }
}

/// The siblings of the first sub array of a uniform array literal pass the
/// check.
proof fn lemma_uniform_siblings(exprs: Seq<pt::Expression>, shape: Seq<nat>, i: int)
    requires
        uniform_array(exprs, shape),
        shape.len() >= 2,
        1 <= i <= exprs.len(),
    ensures
        sibling_subarrays(exprs, shape[1], i).ok,
        sibling_subarrays(exprs, shape[1], i).diags == Seq::<DiagnosticView>::empty(),
        sibling_subarrays(exprs, shape[1], i).flat == leaves_list(exprs, i, (shape.len() - 1) as nat),
    decreases shape.len(), 0int, exprs.len() - i,
{
    if i < exprs.len() {
        assert(exprs[i] is ArrayLiteral);
        let other = exprs[i]->ArrayLiteral_1@;
        assert(uniform_array(other, shape.drop_first()));
        assert(other.len() == shape[1]);
        lemma_uniform_subarrays(other, shape.drop_first(), false);
        lemma_uniform_siblings(exprs, shape, i + 1);
        assert(Seq::<DiagnosticView>::empty() + Seq::<DiagnosticView>::empty() =~= Seq::<DiagnosticView>::empty());
    }
}

/// A nested array literal whose every level holds sub arrays of one
/// length, with the elements at the deepest level, passes the check: its
/// dimensions are the lengths of its levels, innermost first, its elements
/// come out in order, and nothing is reported.
pub proof fn law_uniform_array_literal(exprs: Seq<pt::Expression>, shape: Seq<nat>)
    requires
        uniform_array(exprs, shape),
    ensures
        subarrays(exprs, true).ok,
        subarrays(exprs, true).diags.len() == 0,
        subarrays(exprs, true).dims == dims_of(shape),
        subarrays(exprs, true).flat == leaves_of(exprs, shape.len()),
{
    lemma_uniform_subarrays(exprs, shape, true);
}

/// The expressions that references point to.
pub open spec fn derefs(s: Seq<&pt::Expression>) -> Seq<pt::Expression> {
    s.map_values(|e: &pt::Expression| *e)
}

/// Report an error at `loc` saying `message`.
fn report(loc: Loc, message: Vec<char>, diagnostics: &mut Diagnostics)
    ensures
        final(diagnostics)@ == old(diagnostics)@ + seq![error_view(loc, message@)],
{
    diagnostics.push(Diagnostic::error(loc, string_from_chars(&message)));
    assert(final(diagnostics)@ =~= old(diagnostics)@ + seq![error_view(loc, message@)]);
}

/// Traverse the elements `exprs` of an array literal looking for sub
/// arrays: all the sub arrays must be of the same length. The elements that
/// are not arrays are added to `flatten`, and, where `dims` holds a list,
/// the length of each dimension, from the innermost out.
pub fn check_subarrays<'a>(
    exprs: &'a Vec<pt::Expression>,
    dims: &mut Option<Vec<u32>>,
    flatten: &mut Vec<&'a pt::Expression>,
    diagnostics: &mut Diagnostics,
) -> (res: Result<(), ()>)
    ensures
        ({
            let r = subarrays(exprs@, (*old(dims)) is Some);
            &&& res is Ok == r.ok
            &&& (*final(dims)) is Some == (*old(dims)) is Some
            &&& (*old(dims)) is Some ==> (*final(dims))->0@ == (*old(dims))->0@ + r.dims
            &&& derefs(final(flatten)@) == derefs(old(flatten)@) + r.flat
            &&& final(diagnostics)@ == old(diagnostics)@ + r.diags
        }),
    decreases exprs@,
{
    let ghost with_dims = *dims is Some;
    let ghost r = subarrays(exprs@, with_dims);
    let ghost flat0 = derefs(flatten@);
    let ghost diags0 = diagnostics@;
    let ghost dims0 = if (*dims) is Some { (*dims)->0@ } else { Seq::<u32>::empty() };
    if exprs.len() > 0 {
        if let pt::Expression::ArrayLiteral(_, first) = &exprs[0] {
            proof {
                assert(decreases_to!(exprs@ => exprs@[0]));
            }
            let inner = check_subarrays(first, dims, flatten, diagnostics);
            let ghost ir = subarrays(first@, with_dims);
            if inner.is_err() {
                return Err(());
            }
            let ghost base_flat = derefs(flatten@);
            let ghost base_diags = diagnostics@;
            let ghost sib = sibling_subarrays(exprs@, first@.len(), 1);
            let mut none: Option<Vec<u32>> = None;
            let mut i: usize = 1;
            assert(base_flat + sib.flat =~= derefs(flatten@) + sib.flat);
            while i < exprs.len()
                invariant
                    1 <= i <= exprs@.len(),
                    none is None,
                    exprs@[0] is ArrayLiteral,
                    first@ == exprs@[0]->ArrayLiteral_1@,
                    with_dims == (*old(dims)) is Some,
                    r == subarrays(exprs@, with_dims),
                    ir == subarrays(first@, with_dims),
                    ir.ok,
                    flat0 == derefs(old(flatten)@),
                    diags0 == old(diagnostics)@,
                    dims0 == (if (*old(dims)) is Some { (*old(dims))->0@ } else { Seq::<u32>::empty() }),
                    base_flat == flat0 + ir.flat,
                    base_diags == diags0 + ir.diags,
                    sib == sibling_subarrays(exprs@, first@.len(), 1),
                    sib.ok == sibling_subarrays(exprs@, first@.len(), i as int).ok,
                    base_flat + sib.flat == derefs(flatten@) + sibling_subarrays(exprs@, first@.len(), i as int).flat,
                    base_diags + sib.diags == diagnostics@ + sibling_subarrays(exprs@, first@.len(), i as int).diags,
                    (*dims) is Some == with_dims,
                    with_dims ==> (*dims)->0@ == dims0 + ir.dims,
                    derefs(flatten@).len() >= base_flat.len(),
                decreases exprs@.len() - i,
            {
                let ghost step = sibling_subarrays(exprs@, first@.len(), i as int);
                match &exprs[i] {
                    pt::Expression::ArrayLiteral(_, other) => {
                        if other.len() != first.len() {
                            let mut out: Vec<char> = Vec::new();
                            push_str(&mut out, "array elements should be identical, sub array ");
                            push_decimal(&mut out, i + 1);
                            push_str(&mut out, " has ");
                            push_decimal(&mut out, other.len());
                            push_str(&mut out, " elements rather than ");
                            push_decimal(&mut out, first.len());
                            report(exprs[i].loc(), out, diagnostics);
                            assert(derefs(flatten@) + Seq::<pt::Expression>::empty() =~= derefs(flatten@));
                            return Err(());
                        }
                        proof {
                            assert(decreases_to!(exprs@ => exprs@[i as int]));
                        }
                        let ghost f1 = derefs(flatten@);
                        let ghost d1 = diagnostics@;
                        let inner_other = check_subarrays(other, &mut none, flatten, diagnostics);
                        if inner_other.is_err() {
                            return Err(());
                        }
                        let ghost rest = sibling_subarrays(exprs@, first@.len(), i + 1);
                        assert(f1 + step.flat =~= derefs(flatten@) + rest.flat);
                        assert(d1 + step.diags =~= diagnostics@ + rest.diags);
                    },
                    _ => {
                        let mut out: Vec<char> = Vec::new();
                        push_str(&mut out, "array element ");
                        push_decimal(&mut out, i + 1);
                        push_str(&mut out, " should also be an array");
                        report(exprs[i].loc(), out, diagnostics);
                        assert(derefs(flatten@) + Seq::<pt::Expression>::empty() =~= derefs(flatten@));
                        return Err(());
                    },
                }
                i = i + 1;
            }
            assert(derefs(flatten@) + Seq::<pt::Expression>::empty() =~= derefs(flatten@));
            assert(diagnostics@ + Seq::<DiagnosticView>::empty() =~= diagnostics@);
            match dims {
                Some(d) => {
                    d.push(exprs.len() as u32);
                },
                None => {},
            }
            return Ok(());
        }
    }
    let mut i: usize = 1;
    while i < exprs.len()
        invariant
            1 <= i,
            first_array_from(exprs@, 1) == first_array_from(exprs@, i as int),
            flatten@ == old(flatten)@,
            diagnostics@ == old(diagnostics)@,
            *dims == *old(dims),
            !(exprs@.len() > 0 && exprs@[0] is ArrayLiteral),
        decreases exprs@.len() - i,
    {
        match &exprs[i] {
            pt::Expression::ArrayLiteral(loc, _) => {
                let mut out: Vec<char> = Vec::new();
                push_str(&mut out, "array elements should be of the type, element ");
                push_decimal(&mut out, i + 1);
                push_str(&mut out, " is unexpected array");
                report(*loc, out, diagnostics);
                assert(derefs(flatten@) =~= derefs(old(flatten)@) + Seq::<pt::Expression>::empty());
                assert(first_array_from(exprs@, i as int) == Some(i as int));
                proof {
                    if (*dims) is Some {
                        assert((*dims)->0@ =~= (*old(dims))->0@ + Seq::<u32>::empty());
                    }
                }
                return Err(());
            },
            _ => {},
        }
        i = i + 1;
    }
    let ghost flat_start = flatten@;
    let mut k: usize = 0;
    while k < exprs.len()
        invariant
            k <= exprs@.len(),
            flatten@ == flat_start + exprs@.take(k as int).map_values(|e: pt::Expression| &e),
        decreases exprs@.len() - k,
    {
        flatten.push(&exprs[k]);
        k = k + 1;
        assert(flatten@ =~= flat_start + exprs@.take(k as int).map_values(|e: pt::Expression| &e));
    }
    assert(derefs(flatten@) =~= derefs(old(flatten)@) + exprs@);
    assert(diagnostics@ =~= old(diagnostics)@ + Seq::<DiagnosticView>::empty());
    match dims {
        Some(d) => {
            d.push(exprs.len() as u32);
            assert(d@ =~= dims0 + seq![exprs@.len() as u32]);
        },
        None => {},
    }
    Ok(())
}


/// A number literal of digits `integer`, with no exponent or a
/// non-negative one that fits a byte, and a unit, is the integer literal
/// of the digits' value times ten to the exponent times the unit.
pub proof fn law_number_literal_scales(
    loc: Loc,
    integer: Seq<char>,
    exp: Seq<char>,
    ns: &Namespace,
    unit: int,
    resolve_to: ResolveTo,
)
    requires
        exp.len() == 0 || (all_digits(exp) && decimal_value(exp) <= 255),
    ensures
        number_literal_outcome(loc, integer, exp, ns, unit, resolve_to)
            == integer_literal(loc, decimal_value(integer) * pow(10, decimal_value(exp)) * unit, ns, resolve_to, None),
{
    let i = decimal_value(integer) as int;
    if exp.len() == 0 {
        assert(decimal_value(exp) == 0);
        vstd::arithmetic::power::lemma_pow0(10);
        assert(i * pow(10, 0) * unit == i * unit);
    } else {
        assert(is_digit(exp[0]));
        assert(exp[0] != '-' && exp[0] != '+');
        assert(u8_text_value(exp) == Some(decimal_value(exp) as u8));
    }
}

} // verus!
