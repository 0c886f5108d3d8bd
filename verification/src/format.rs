//! Format strings: `"x={} y={:x}".format(x, y)`. The format string is a
//! subset of what python/rust supports, this is mostly for debugging
//! purposes so pretty-printing should not matter.

use vstd::prelude::*;
use vstd::utf8::*;
use crate::ast::{Expression, ExpressionView, FormatArg, lemma_view_format, view_format};
use crate::diagnostics::{Diagnostic, DiagnosticView, Diagnostics, Loc, error_view};
use crate::integers::{deref_view, lemma_deref_view};
use crate::text::{push_str, string_from_chars};
use crate::pt::StringLiteral;
use crate::types::{Type, TypeView};
use crate::utf8::{byte_offset, encode_chars, lemma_byte_offset_mono, lemma_encode_utf8_take_step, utf8_width};

verus! {

/// The location of the character at byte `offset` of a literal at `loc`.
pub open spec fn loc_at(loc: Loc, offset: int) -> Loc {
    match loc {
        Loc::File(file_no, start, end) => Loc::File(file_no, (start + offset) as usize, end),
        _ => loc,
    }
}

/// The characters of one literal, each with its location.
pub open spec fn literal_stream(sl: StringLiteral) -> Seq<(Loc, char)> {
    Seq::new(sl.string@.len(), |j: int| (loc_at(sl.loc, byte_offset(sl.string@, j)), sl.string@[j]))
}

/// The characters of the literals from index `k` on: a literal without
/// characters ends them.
pub open spec fn rest_stream(lits: Seq<StringLiteral>, k: int) -> Seq<(Loc, char)>
    decreases lits.len() - k,
{
    if k < 0 || k >= lits.len() || lits[k].string@.len() == 0 {
        Seq::empty()
    } else {
        literal_stream(lits[k]) + rest_stream(lits, k + 1)
    }
}

/// The characters of a format string made of the literals `lits`, each with
/// its location: all of the first literal, then the others up to the first
/// one without characters.
pub open spec fn format_stream(lits: Seq<StringLiteral>) -> Seq<(Loc, char)> {
    literal_stream(lits[0]) + rest_stream(lits, 1)
}

/// No location of a character of a literal overflows.
pub open spec fn literal_offsets_fit(lits: Seq<StringLiteral>) -> bool {
    forall|k: int| 0 <= k < lits.len() ==> (#[trigger] lits[k]).offsets_fit()
}

fn push_literal_stream(out: &mut Vec<(Loc, char)>, sl: &StringLiteral)
    requires
        sl.offsets_fit(),
    ensures
        final(out)@ == old(out)@ + literal_stream(*sl),
{
    let chars = crate::text::chars_of(sl.string.as_str());
    let mut offset: usize = 0;
    let mut j: usize = 0;
    while j < chars.len()
        invariant
            chars@ == sl.string@,
            j <= chars@.len(),
            sl.loc is File ==> offset == byte_offset(chars@, j as int),
            sl.loc matches Loc::File(_, start, _) ==> start + encode_utf8(chars@).len() <= usize::MAX,
            out@ == old(out)@ + literal_stream(*sl).take(j as int),
        decreases chars@.len() - j,
    {
        proof {
            vstd::utf8::char_is_scalar(chars@[j as int]);
            lemma_encode_utf8_take_step(chars@, j as int);
            lemma_byte_offset_mono(chars@, j as int, chars@.len() as int);
            lemma_byte_offset_mono(chars@, j as int + 1, chars@.len() as int);
        }
        let loc = match sl.loc {
            Loc::File(file_no, start, end) => Loc::File(file_no, start + offset, end),
            other => other,
        };
        out.push((loc, chars[j]));
        if let Loc::File(..) = sl.loc {
            offset = offset + utf8_width(chars[j] as u32);
        }
        j = j + 1;
        assert(out@ =~= old(out)@ + literal_stream(*sl).take(j as int));
    }
    assert(literal_stream(*sl).take(j as int) =~= literal_stream(*sl));
}

/// The characters of a format string with their locations.
pub fn format_chars(literals: &Vec<StringLiteral>) -> (res: Vec<(Loc, char)>)
    requires
        literals@.len() > 0,
        literal_offsets_fit(literals@),
    ensures
        res@ == format_stream(literals@),
{
    let mut out: Vec<(Loc, char)> = Vec::new();
    push_literal_stream(&mut out, &literals[0]);
    let mut k: usize = 1;
    let mut stop = false;
    assert(out@ =~= literal_stream(literals@[0]));
    while k < literals.len() && !stop
        invariant
            1 <= k <= literals@.len(),
            stop ==> rest_stream(literals@, k as int) == Seq::<(Loc, char)>::empty(),
            literal_offsets_fit(literals@),
            format_stream(literals@) == out@ + rest_stream(literals@, k as int),
        decreases literals@.len() - k + (if stop { 0int } else { 1int }),
    {
        if literals[k].string.as_str().is_empty() {
            stop = true;
        } else {
            let ghost before = out@;
            push_literal_stream(&mut out, &literals[k]);
            assert(before + (literal_stream(literals@[k as int]) + rest_stream(literals@, k + 1))
                =~= out@ + rest_stream(literals@, k + 1));
            k = k + 1;
        }
    }
    assert(out@ + Seq::<(Loc, char)>::empty() =~= out@);
    out
}

/// The characters of a format string with their locations, and the index of
/// the next one to hand out.
pub struct FormatIterator {
    chars: Vec<(Loc, char)>,
    pos: usize,
}

impl FormatIterator {
    /// The characters.
    pub closed spec fn stream(&self) -> Seq<(Loc, char)> {
        self.chars@
    }

    /// The index of the next character to hand out.
    pub closed spec fn pos(&self) -> int {
        self.pos as int
    }

    /// The position is within the characters.
    pub closed spec fn wf(&self) -> bool {
        self.pos <= self.chars@.len()
    }

    /// Walk the characters of a format string made of `literals`; there is
    /// at least one.
    pub fn new(literals: &Vec<StringLiteral>) -> (res: FormatIterator)
        requires
            literals@.len() > 0,
            literal_offsets_fit(literals@),
        ensures
            res.wf(),
            res.stream() == format_stream(literals@),
            res.pos() == 0,
    {
        FormatIterator { chars: format_chars(literals), pos: 0 }
    }

    /// The next character and its location, if any is left.
    pub fn next(&mut self) -> (res: Option<(Loc, char)>)
        requires
            old(self).wf(),
        ensures
            final(self).wf(),
            final(self).stream() == old(self).stream(),
            old(self).pos() < old(self).stream().len() ==> final(self).pos() == old(self).pos() + 1
                && res == Some(old(self).stream()[old(self).pos()]),
            old(self).pos() >= old(self).stream().len() ==> final(self).pos() == old(self).pos() && res is None,
    {
        if self.pos < self.chars.len() {
            let i = self.pos;
            self.pos = self.pos + 1;
            Some(self.chars[i])
        } else {
            None
        }
    }

    /// Whether every character was handed out.
    pub fn at_end(&self) -> (res: bool)
        requires
            self.wf(),
        ensures
            res == (self.pos() >= self.stream().len()),
    {
        self.pos >= self.chars.len()
    }

    /// The next character and its location, if any is left, without moving.
    pub fn peek(&self) -> (res: Option<(Loc, char)>)
        requires
            self.wf(),
        ensures
            self.pos() < self.stream().len() ==> res == Some(self.stream()[self.pos()]),
            self.pos() >= self.stream().len() ==> res is None,
    {
        if self.pos < self.chars.len() {
            Some(self.chars[self.pos])
        } else {
            None
        }
    }
}

/// The message about an unexpected character in a format specifier.
pub open spec fn unexpected_char_message(ch: char) -> Seq<char> {
    "unexpected format char '"@ + seq![ch] + "'"@
}

/// The message about an unexpected character where the closing brace
/// belongs.
pub open spec fn unexpected_closing_message(ch: char) -> Seq<char> {
    "unexpected format char '"@ + seq![ch] + "', expected closing '}'"@
}

/// Parsing a format specifier that starts at index `p`, after the opening
/// brace at `loc`: the specifier or an error, the index after what was
/// read, and the diagnostics.
pub open spec fn specifier_spec(s: Seq<(Loc, char)>, p: int, loc: Loc) -> (Result<FormatArg, ()>, int, Seq<DiagnosticView>) {
    if p >= s.len() {
        (Err(()), p, seq![error_view(loc, "missing closing '}'"@)])
    } else if s[p].1 == '}' {
        (Ok(FormatArg::Default), p + 1, Seq::empty())
    } else if s[p].1 == ':' {
        let p1 = p + 1;
        if p1 >= s.len() {
            (Err(()), p1, seq![error_view(loc, "missing format specifier"@)])
        } else if s[p1].1 == '}' {
            (Ok(FormatArg::Default), p1 + 1, Seq::empty())
        } else if s[p1].1 == 'x' || s[p1].1 == 'b' {
            let arg = if s[p1].1 == 'x' { FormatArg::Hex } else { FormatArg::Binary };
            let last_loc = s[p1].0;
            let p2 = p1 + 1;
            if p2 >= s.len() {
                (Err(()), p2, seq![error_view(last_loc, "missing closing '}'"@)])
            } else if s[p2].1 == '}' {
                (Ok(arg), p2 + 1, Seq::empty())
            } else {
                (Err(()), p2 + 1, seq![error_view(s[p2].0, unexpected_closing_message(s[p2].1))])
            }
        } else {
            (Err(()), p1 + 1, seq![error_view(s[p1].0, unexpected_char_message(s[p1].1))])
        }
    } else {
        (Err(()), p + 1, seq![error_view(s[p].0, unexpected_char_message(s[p].1))])
    }
}

fn char_message(prefix: &str, ch: char, suffix: &str) -> (res: String)
    ensures
        res@ == prefix@ + seq![ch] + suffix@,
{
    let mut out: Vec<char> = Vec::new();
    push_str(&mut out, prefix);
    out.push(ch);
    push_str(&mut out, suffix);
    string_from_chars(&out)
}

/// Parse the format specifier after an opening brace at `loc`: `{}`,
/// `{:}`, `{:x}` or `{:b}`.
pub fn parse_format_specifier(loc: Loc, format_iterator: &mut FormatIterator, diagnostics: &mut Diagnostics) -> (res: Result<FormatArg, ()>)
    requires
        old(format_iterator).wf(),
    ensures
        final(format_iterator).wf(),
        final(format_iterator).stream() == old(format_iterator).stream(),
        ({
            let (r, q, d) = specifier_spec(old(format_iterator).stream(), old(format_iterator).pos(), loc);
            &&& res == r
            &&& final(format_iterator).pos() == q
            &&& final(diagnostics)@ == old(diagnostics)@ + d
        }),
{
    let mut last_loc = loc;
    let arg;
    assert(old(diagnostics)@ + Seq::<DiagnosticView>::empty() =~= old(diagnostics)@);
    match format_iterator.next() {
        Some((_, '}')) => Ok(FormatArg::Default),
        Some((_, ':')) => {
            match format_iterator.next() {
                Some((l, 'x')) => {
                    arg = FormatArg::Hex;
                    last_loc = l;
                },
                Some((l, 'b')) => {
                    last_loc = l;
                    arg = FormatArg::Binary;
                },
                Some((_, '}')) => {
                    return Ok(FormatArg::Default);
                },
                Some((l, ch)) => {
                    diagnostics.push(Diagnostic::error(l, char_message("unexpected format char '", ch, "'")));
                    return Err(());
                },
                None => {
                    diagnostics.push(Diagnostic::error(last_loc, String::from_str("missing format specifier")));
                    return Err(());
                },
            }
            match format_iterator.next() {
                Some((_, '}')) => Ok(arg),
                Some((l, ch)) => {
                    diagnostics.push(Diagnostic::error(l, char_message("unexpected format char '", ch, "', expected closing '}'")));
                    Err(())
                },
                None => {
                    diagnostics.push(Diagnostic::error(last_loc, String::from_str("missing closing '}'")));
                    Err(())
                },
            }
        },
        Some((l, ch)) => {
            diagnostics.push(Diagnostic::error(l, char_message("unexpected format char '", ch, "'")));
            Err(())
        },
        None => {
            diagnostics.push(Diagnostic::error(last_loc, String::from_str("missing closing '}'")));
            Err(())
        },
    }
}

/// A specifier moves past the opening brace.
pub proof fn lemma_specifier_advances(s: Seq<(Loc, char)>, p: int, loc: Loc)
    ensures
        specifier_spec(s, p, loc).1 >= p,
        p < s.len() ==> specifier_spec(s, p, loc).1 > p,
{
}

/// The types an argument printed in binary or hex may have.
pub open spec fn integer_format_type(t: TypeView) -> bool {
    t is Uint || t is Int || t is Address
}

/// The types an argument printed by default may have.
pub open spec fn default_format_type(t: TypeView) -> bool {
    t is Uint || t is Int || t is Bytes || t is Enum || t is Address || t is Contract || t is String
        || t is DynamicBytes || t is Bool
}

/// The literal text collected so far as a format part at `loc`, if any.
pub open spec fn flush(parts: Seq<(FormatArg, ExpressionView)>, acc: Seq<char>, loc: Loc) -> Seq<(FormatArg, ExpressionView)> {
    if acc.len() > 0 {
        parts.push((FormatArg::StringLiteral, ExpressionView::BytesLiteral { loc, ty: TypeView::String, value: encode_utf8(acc) }))
    } else {
        parts
    }
}

/// Diagnostics in front of an outcome.
pub open spec fn after(d: Seq<DiagnosticView>, rest: (Result<ExpressionView, ()>, Seq<DiagnosticView>)) -> (Result<ExpressionView, ()>, Seq<DiagnosticView>) {
    (rest.0, d + rest.1)
}

/// Lexing the format string `s` from index `p`, with literal text `acc`
/// collected, the parts so far, and the arguments from index `next` left:
/// the format string expression at `loc`, or an error; and the diagnostics.
pub open spec fn format_from(
    s: Seq<(Loc, char)>,
    p: int,
    acc: Seq<char>,
    parts: Seq<(FormatArg, ExpressionView)>,
    args: Seq<ExpressionView>,
    next: int,
    loc: Loc,
) -> (Result<ExpressionView, ()>, Seq<DiagnosticView>)
    decreases s.len() - p,
{
    if p < 0 || p >= s.len() {
        if 0 <= next < args.len() {
            (Err(()), seq![error_view(loc, "too many argument for format string"@)])
        } else {
            (Ok(ExpressionView::FormatString { loc, format: flush(parts, acc, loc) }), Seq::empty())
        }
    } else {
        let (l, ch) = s[p];
        if ch == '}' {
            if p + 1 < s.len() && s[p + 1].1 == '}' {
                format_from(s, p + 2, acc.push('}'), parts, args, next, loc)
            } else {
                (Err(()), seq![error_view(l, "unmatched '}'"@)])
            }
        } else if ch == '{' {
            if p + 1 < s.len() && s[p + 1].1 == '{' {
                format_from(s, p + 2, acc.push('{'), parts, args, next, loc)
            } else {
                let parts1 = flush(parts, acc, l);
                let (r, q, d) = specifier_spec(s, p + 1, l);
                match r {
                    Err(_) => (Err(()), d),
                    Ok(f) => if next < 0 || next >= args.len() {
                        (Err(()), d.push(error_view(l, "missing argument to format"@)))
                    } else {
                        let arg = args[next];
                        let t = deref_view(arg.ty());
                        if (f == FormatArg::Binary || f == FormatArg::Hex) && !integer_format_type(t) {
                            (Err(()), d.push(error_view(arg.loc(), "argument must be signed or unsigned integer type"@)))
                        } else if !(f == FormatArg::Binary || f == FormatArg::Hex) && !default_format_type(t) {
                            (Err(()), d.push(error_view(
                                arg.loc(),
                                "argument must be a bool, enum, address, contract, string, or bytes, int, uint"@,
                            )))
                        } else {
                            after(d, format_from(s, q, Seq::empty(), parts1.push((f, arg)), args, next + 1, loc))
                        }
                    },
                }
            }
        } else {
            format_from(s, p + 1, acc.push(ch), parts, args, next, loc)
        }
    }
}

/// The views of the arguments.
pub open spec fn view_args(args: Seq<Expression>) -> Seq<ExpressionView> {
    args.map_values(|e: Expression| e@)
}

/// Handle a placeholder: the opening brace at index `p` of the stream
/// (already read), at `l`. Flush the literal text, parse the specifier, take
/// the next argument and check its type. Tell whether lexing goes on.
fn placeholder(
    loc: &Loc,
    l: Loc,
    format_iterator: &mut FormatIterator,
    string_literal: &mut Vec<char>,
    format_args: &mut Vec<(FormatArg, Expression)>,
    resolved_args: &mut Vec<Expression>,
    next: &mut usize,
    diagnostics: &mut Diagnostics,
    Ghost(args): Ghost<Seq<ExpressionView>>,
    Ghost(p): Ghost<int>,
) -> (res: bool)
    requires
        old(format_iterator).wf(),
        0 <= p < old(format_iterator).stream().len(),
        old(format_iterator).pos() == p + 1,
        old(format_iterator).stream()[p] == (l, '{'),
        !(p + 1 < old(format_iterator).stream().len() && old(format_iterator).stream()[p + 1].1 == '{'),
        *old(next) <= args.len(),
        args.len() <= usize::MAX,
        view_args(old(resolved_args)@) == args.skip(*old(next) as int),
        forall|k: int| 0 <= k < args.len() ==> (#[trigger] args[k]).has_one_type(),
    ensures
        final(format_iterator).wf(),
        final(format_iterator).stream() == old(format_iterator).stream(),
        final(format_iterator).pos() > p,
        res ==> *final(next) <= args.len(),
        res ==> view_args(final(resolved_args)@) == args.skip(*final(next) as int),
        ({
            let s = old(format_iterator).stream();
            let before = format_from(s, p, old(string_literal)@, view_format(old(format_args)@), args, *old(next) as int, *loc);
            if res {
                &&& final(format_iterator).pos() > p
                &&& before == after(
                    final(diagnostics)@.skip(old(diagnostics)@.len() as int),
                    format_from(s, final(format_iterator).pos(), final(string_literal)@, view_format(final(format_args)@), args, *final(next) as int, *loc),
                )
                &&& final(diagnostics)@.len() >= old(diagnostics)@.len()
                &&& final(diagnostics)@.take(old(diagnostics)@.len() as int) == old(diagnostics)@
            } else {
                &&& before.0 is Err
                &&& final(diagnostics)@ == old(diagnostics)@ + before.1
            }
        }),
{
    let ghost s = format_iterator.stream();
    let ghost parts0 = view_format(format_args@);
    let ghost acc0 = string_literal@;
    if string_literal.len() > 0 {
        let value = encode_chars(string_literal);
        format_args.push((FormatArg::StringLiteral, Expression::BytesLiteral { loc: l, ty: Type::String, value }));
        *string_literal = Vec::new();
    }
    proof {
        lemma_view_format(old(format_args)@);
        lemma_view_format(format_args@);
        assert(view_format(format_args@) =~= flush(parts0, acc0, l));
        assert(string_literal@ =~= Seq::<char>::empty());
    }
    let ghost parts1 = view_format(format_args@);
    let ghost (r, q, d) = specifier_spec(s, p + 1, l);
    proof {
        lemma_specifier_advances(s, p + 1, l);
    }
    let specifier = match parse_format_specifier(l, format_iterator, diagnostics) {
        Ok(f) => f,
        Err(()) => {
            return false;
        },
    };
    assert(view_args(resolved_args@).len() == resolved_args@.len());
    if resolved_args.len() == 0 {
        diagnostics.push(Diagnostic::error(l, String::from_str("missing argument to format")));
        assert(diagnostics@ =~= old(diagnostics)@ + d.push(error_view(l, "missing argument to format"@)));
        return false;
    }
    let ghost n0 = *next as int;
    let arg = resolved_args.remove(0);
    assert(arg@ == args[n0]) by {
        assert(view_args(old(resolved_args)@)[0] == args.skip(n0)[0]);
    }
    assert(view_args(resolved_args@) =~= args.skip(n0 + 1)) by {
        assert(view_args(old(resolved_args)@) == args.skip(n0));
        assert(resolved_args@ =~= old(resolved_args)@.skip(1));
        assert forall|k: int| 0 <= k < view_args(resolved_args@).len()
            implies view_args(resolved_args@)[k] == args.skip(n0 + 1)[k] by {
            assert(view_args(resolved_args@)[k] == view_args(old(resolved_args)@)[k + 1]);
        }
    }
    let arg_ty = arg.ty();
    proof {
        lemma_deref_view(&arg_ty);
    }
    let arg_ty = arg_ty.deref_any();
    let integer_spec = match specifier {
        FormatArg::Binary => true,
        FormatArg::Hex => true,
        _ => false,
    };
    if integer_spec {
        let fits = match arg_ty {
            Type::Uint(_) => true,
            Type::Int(_) => true,
            Type::Address(_) => true,
            _ => false,
        };
        if !fits {
            diagnostics.push(Diagnostic::error(arg.loc(), String::from_str("argument must be signed or unsigned integer type")));
            assert(diagnostics@ =~= old(diagnostics)@ + d.push(error_view(arg@.loc(), "argument must be signed or unsigned integer type"@)));
            return false;
        }
    } else {
        let fits = match arg_ty {
            Type::Uint(_) => true,
            Type::Int(_) => true,
            Type::Bytes(_) => true,
            Type::Enum(_) => true,
            Type::Address(_) => true,
            Type::Contract(_) => true,
            Type::String => true,
            Type::DynamicBytes => true,
            Type::Bool => true,
            _ => false,
        };
        if !fits {
            diagnostics.push(Diagnostic::error(
                arg.loc(),
                String::from_str("argument must be a bool, enum, address, contract, string, or bytes, int, uint"),
            ));
            assert(diagnostics@ =~= old(diagnostics)@ + d.push(error_view(
                arg@.loc(),
                "argument must be a bool, enum, address, contract, string, or bytes, int, uint"@,
            )));
            return false;
        }
    }
    let ghost arg_view = arg@;
    format_args.push((specifier, arg));
    *next = *next + 1;
    proof {
        lemma_view_format(format_args@);
        assert(view_format(format_args@) =~= parts1.push((specifier, arg_view)));
        assert(diagnostics@.skip(old(diagnostics)@.len() as int) =~= d);
        assert(diagnostics@.take(old(diagnostics)@.len() as int) =~= old(diagnostics)@);
        lemma_specifier_advances(s, p + 1, l);
    }
    true
}

/// Resolve a format string at `loc` made of `literals`, with the arguments
/// `resolved_args`, already resolved: each `{}`, `{:}`, `{:x}` or `{:b}`
/// takes the next argument, whose type must fit the specifier; `}}` is a
/// closing brace and `{{` an opening one.
pub fn string_format(loc: &Loc, literals: &Vec<StringLiteral>, resolved_args: Vec<Expression>, diagnostics: &mut Diagnostics) -> (res: Result<Expression, ()>)
    requires
        literals@.len() > 0,
        literal_offsets_fit(literals@),
        forall|i: int| 0 <= i < resolved_args@.len() ==> (#[trigger] resolved_args@[i])@.has_one_type(),
    ensures
        ({
            let outcome = format_from(format_stream(literals@), 0, Seq::empty(), Seq::empty(), view_args(resolved_args@), 0, *loc);
            &&& res is Ok == outcome.0 is Ok
            &&& res is Ok ==> res->Ok_0@ == outcome.0->Ok_0
            &&& final(diagnostics)@ == old(diagnostics)@ + outcome.1
        }),
{
    let ghost args = view_args(resolved_args@);
    let ghost stream = format_stream(literals@);
    assert(args.len() == resolved_args@.len());
    assert(resolved_args@.len() == resolved_args.len());
    let mut remaining = resolved_args;
    let mut format_iterator = FormatIterator::new(literals);
    let mut format_args: Vec<(FormatArg, Expression)> = Vec::new();
    let mut string_literal: Vec<char> = Vec::new();
    let mut next: usize = 0;
    let ghost total = format_from(stream, 0, Seq::empty(), Seq::empty(), args, 0, *loc);
    proof {
        lemma_view_format(format_args@);
        assert(view_format(format_args@) =~= Seq::<(FormatArg, ExpressionView)>::empty());
        assert(string_literal@ =~= Seq::<char>::empty());
        assert(args.skip(0) =~= args);
    }
    assert(old(diagnostics)@ + total.1 =~= diagnostics@ + total.1);
    let mut failed = false;
    while !failed && !format_iterator.at_end()
        invariant
            format_iterator.wf(),
            format_iterator.stream() == stream,
            !failed ==> next <= args.len(),
            args.len() <= usize::MAX,
            forall|k: int| 0 <= k < args.len() ==> (#[trigger] args[k]).has_one_type(),
            !failed ==> view_args(remaining@) == args.skip(next as int),
            total == format_from(stream, 0, Seq::empty(), Seq::empty(), args, 0, *loc),
            failed ==> total.0 is Err && old(diagnostics)@ + total.1 == diagnostics@,
            !failed ==> total.0 == format_from(stream, format_iterator.pos(), string_literal@, view_format(format_args@), args, next as int, *loc).0,
            !failed ==> old(diagnostics)@ + total.1 == diagnostics@ + format_from(stream, format_iterator.pos(), string_literal@, view_format(format_args@), args, next as int, *loc).1,
        decreases stream.len() - format_iterator.pos() + (if failed { 0int } else { 1int }),
    {
        let ghost p = format_iterator.pos();
        let ghost diags0 = diagnostics@;
        let ghost cur = format_from(stream, p, string_literal@, view_format(format_args@), args, next as int, *loc);
        let (l, ch) = format_iterator.next().unwrap();
        if ch == '}' {
            match format_iterator.peek() {
                Some((_, '}')) => {
                    format_iterator.next();
                    string_literal.push(ch);
                },
                _ => {
                    diagnostics.push(Diagnostic::error(l, String::from_str("unmatched '}'")));
                    assert(diagnostics@ =~= diags0 + cur.1);
                    failed = true;
                },
            }
        } else if ch == '{' {
            match format_iterator.peek() {
                Some((_, '{')) => {
                    format_iterator.next();
                    string_literal.push(ch);
                },
                _ => {
                    let goes_on = placeholder(
                        loc,
                        l,
                        &mut format_iterator,
                        &mut string_literal,
                        &mut format_args,
                        &mut remaining,
                        &mut next,
                        diagnostics,
                        Ghost(args),
                        Ghost(p),
                    );
                    if !goes_on {
                        failed = true;
                    } else {
                        let ghost rest = format_from(stream, format_iterator.pos(), string_literal@, view_format(format_args@), args, next as int, *loc);
                        assert(diags0 + cur.1 =~= diagnostics@ + rest.1) by {
                            assert(diagnostics@ =~= diags0 + diagnostics@.skip(diags0.len() as int));
                        }
                    }
                },
            }
        } else {
            string_literal.push(ch);
        }
    }
    if failed {
        return Err(());
    }
    let ghost cur = format_from(stream, format_iterator.pos(), string_literal@, view_format(format_args@), args, next as int, *loc);
    assert(view_args(remaining@).len() == remaining@.len());
    if remaining.len() > 0 {
        diagnostics.push(Diagnostic::error(*loc, String::from_str("too many argument for format string")));
        return Err(());
    }
    let ghost parts0 = view_format(format_args@);
    let ghost fa0 = format_args@;
    if string_literal.len() > 0 {
        let value = encode_chars(&string_literal);
        format_args.push((FormatArg::StringLiteral, Expression::BytesLiteral { loc: *loc, ty: Type::String, value }));
    }
    proof {
        lemma_view_format(fa0);
        lemma_view_format(format_args@);
        assert(view_format(format_args@) =~= flush(parts0, string_literal@, *loc));
    }
    assert(diagnostics@ + Seq::<DiagnosticView>::empty() =~= diagnostics@);
    Ok(Expression::FormatString { loc: *loc, format: format_args })
}

/// The arguments that a list of format parts prints, in order: those of
/// every part that is not literal text.
pub open spec fn placed_args(parts: Seq<(FormatArg, ExpressionView)>) -> Seq<ExpressionView>
    decreases parts.len(),
{
    if parts.len() == 0 {
        Seq::empty()
    } else {
        let rest = placed_args(parts.drop_last());
        if parts.last().0 == FormatArg::StringLiteral {
            rest
        } else {
            rest.push(parts.last().1)
        }
    }
}

/// Lexing on from index `p` places each argument left exactly once, in
/// order, where it succeeds.
proof fn lemma_format_places_args(
    s: Seq<(Loc, char)>,
    p: int,
    acc: Seq<char>,
    parts: Seq<(FormatArg, ExpressionView)>,
    args: Seq<ExpressionView>,
    next: int,
    loc: Loc,
)
    requires
        0 <= next <= args.len(),
        format_from(s, p, acc, parts, args, next, loc).0 is Ok,
    ensures
        format_from(s, p, acc, parts, args, next, loc).0->Ok_0 matches ExpressionView::FormatString { format, .. }
            && placed_args(format) == placed_args(parts) + args.skip(next),
    decreases s.len() - p,
{
    if p < 0 || p >= s.len() {
        assert(next == args.len());
        assert(placed_args(flush(parts, acc, loc)) == placed_args(parts)) by {
            if acc.len() > 0 {
                assert(flush(parts, acc, loc).drop_last() =~= parts);
            }
        }
        assert(args.skip(next) =~= Seq::<ExpressionView>::empty());
        assert(placed_args(parts) + args.skip(next) =~= placed_args(parts));
    } else {
        let (l, ch) = s[p];
        if ch == '}' {
            lemma_format_places_args(s, p + 2, acc.push('}'), parts, args, next, loc);
        } else if ch == '{' {
            if p + 1 < s.len() && s[p + 1].1 == '{' {
                lemma_format_places_args(s, p + 2, acc.push('{'), parts, args, next, loc);
            } else {
                let parts1 = flush(parts, acc, l);
                let (r, q, d) = specifier_spec(s, p + 1, l);
                lemma_specifier_advances(s, p + 1, l);
                let f = r->Ok_0;
                let arg = args[next];
                assert(placed_args(parts1) == placed_args(parts)) by {
                    if acc.len() > 0 {
                        assert(parts1.drop_last() =~= parts);
                    }
                }
                let parts2 = parts1.push((f, arg));
                assert(f != FormatArg::StringLiteral);
                assert(parts2.drop_last() =~= parts1);
                assert(placed_args(parts2) == placed_args(parts).push(arg));
                lemma_format_places_args(s, q, Seq::empty(), parts2, args, next + 1, loc);
                assert(placed_args(parts).push(arg) + args.skip(next + 1) =~= placed_args(parts) + args.skip(next));
            }
        } else {
            lemma_format_places_args(s, p + 1, acc.push(ch), parts, args, next, loc);
        }
    }
}

/// Where a format string is accepted, it prints every argument exactly
/// once, in the order given: its placeholders are as many as the
/// arguments.
pub proof fn law_format_places_each_argument_once(s: Seq<(Loc, char)>, args: Seq<ExpressionView>, loc: Loc)
    requires
        format_from(s, 0, Seq::empty(), Seq::empty(), args, 0, loc).0 is Ok,
    ensures
        format_from(s, 0, Seq::empty(), Seq::empty(), args, 0, loc).0->Ok_0 matches ExpressionView::FormatString { format, .. }
            && placed_args(format) == args,
{
    lemma_format_places_args(s, 0, Seq::empty(), Seq::empty(), args, 0, loc);
    assert(placed_args(Seq::<(FormatArg, ExpressionView)>::empty()) + args.skip(0) =~= args);
}


/// A `{}` placeholder takes the next argument where its type, through a
/// reference, is an integer, a fixed or dynamic byte array, a string, a
/// bool, an enum, an address or a contract: lexing goes on after the
/// placeholder with the literal text so far and that argument, printed by
/// default, added to the parts, and nothing is reported for it.
pub proof fn law_default_placeholder_takes_printable_argument(
    s: Seq<(Loc, char)>,
    p: int,
    acc: Seq<char>,
    parts: Seq<(FormatArg, ExpressionView)>,
    args: Seq<ExpressionView>,
    next: int,
    loc: Loc,
)
    requires
        0 <= p,
        p + 1 < s.len(),
        s[p].1 == '{',
        s[p + 1].1 == '}',
        0 <= next < args.len(),
        ({
            let t = deref_view(args[next].ty());
            t is Uint || t is Int || t is Bytes || t is DynamicBytes || t is String || t is Bool || t is Enum
                || t is Address || t is Contract
        }),
    ensures
        format_from(s, p, acc, parts, args, next, loc).0
            == format_from(s, p + 2, Seq::empty(), flush(parts, acc, s[p].0).push((FormatArg::Default, args[next])), args, next + 1, loc).0,
        format_from(s, p, acc, parts, args, next, loc).1
            == format_from(s, p + 2, Seq::empty(), flush(parts, acc, s[p].0).push((FormatArg::Default, args[next])), args, next + 1, loc).1,
{
    let rest = format_from(s, p + 2, Seq::empty(), flush(parts, acc, s[p].0).push((FormatArg::Default, args[next])), args, next + 1, loc);
    assert(Seq::<DiagnosticView>::empty() + rest.1 =~= rest.1);
}


/// A `{:x}` or `{:b}` placeholder takes the next argument where its type,
/// through a reference, is a signed or unsigned integer or an address, and
/// prints it in hex or binary; nothing is reported for it.
pub proof fn law_radix_placeholder_takes_integer_argument(
    s: Seq<(Loc, char)>,
    p: int,
    acc: Seq<char>,
    parts: Seq<(FormatArg, ExpressionView)>,
    args: Seq<ExpressionView>,
    next: int,
    loc: Loc,
)
    requires
        0 <= p,
        p + 3 < s.len(),
        s[p].1 == '{',
        s[p + 1].1 == ':',
        s[p + 2].1 == 'x' || s[p + 2].1 == 'b',
        s[p + 3].1 == '}',
        0 <= next < args.len(),
        ({
            let t = deref_view(args[next].ty());
            t is Uint || t is Int || t is Address
        }),
    ensures
        ({
            let f = if s[p + 2].1 == 'x' { FormatArg::Hex } else { FormatArg::Binary };
            let rest = format_from(s, p + 4, Seq::empty(), flush(parts, acc, s[p].0).push((f, args[next])), args, next + 1, loc);
            &&& format_from(s, p, acc, parts, args, next, loc).0 == rest.0
            &&& format_from(s, p, acc, parts, args, next, loc).1 == rest.1
        }),
{
    let f = if s[p + 2].1 == 'x' { FormatArg::Hex } else { FormatArg::Binary };
    let rest = format_from(s, p + 4, Seq::empty(), flush(parts, acc, s[p].0).push((f, args[next])), args, next + 1, loc);
    assert(Seq::<DiagnosticView>::empty() + rest.1 =~= rest.1);
}

/// A `{}` placeholder refuses an argument whose type, through a reference,
/// is none of those that print by default: the format string fails with
/// one error at the argument.
pub proof fn law_default_placeholder_refuses_other_argument(
    s: Seq<(Loc, char)>,
    p: int,
    acc: Seq<char>,
    parts: Seq<(FormatArg, ExpressionView)>,
    args: Seq<ExpressionView>,
    next: int,
    loc: Loc,
)
    requires
        0 <= p,
        p + 1 < s.len(),
        s[p].1 == '{',
        s[p + 1].1 == '}',
        0 <= next < args.len(),
        ({
            let t = deref_view(args[next].ty());
            !(t is Uint || t is Int || t is Bytes || t is DynamicBytes || t is String || t is Bool || t is Enum
                || t is Address || t is Contract)
        }),
    ensures
        format_from(s, p, acc, parts, args, next, loc).0 is Err,
        format_from(s, p, acc, parts, args, next, loc).1.len() == 1,
        format_from(s, p, acc, parts, args, next, loc).1[0].loc == args[next].loc(),
{
}

} // verus!
