use solang_sema::ast::{Expression, FormatArg};
use solang_sema::diagnostics::{Diagnostics, Loc};
use solang_sema::format::{parse_format_specifier, string_format, FormatIterator};
use solang_sema::pt::StringLiteral;
use solang_sema::types::Type;

fn literal(start: usize, s: &str) -> StringLiteral {
    StringLiteral { loc: Loc::File(0, start, start + s.len() + 2), unicode: false, string: s.to_string() }
}

fn variable(ty: Type, var_no: usize) -> Expression {
    Expression::Variable { loc: Loc::File(0, 100 + var_no, 101 + var_no), ty, var_no }
}

fn only_message(diagnostics: &Diagnostics) -> String {
    assert_eq!(diagnostics.len(), 1);
    diagnostics.get(0).message.clone()
}

#[test]
fn format_with_arguments() {
    let mut diagnostics = Diagnostics::new();
    let loc = Loc::File(0, 0, 40);
    let literals = vec![literal(0, "x={} y={:x}"), literal(20, "!}}")];
    let args = vec![variable(Type::Uint(8), 1), variable(Type::Int(16), 2)];
    match string_format(&loc, &literals, args, &mut diagnostics).unwrap() {
        Expression::FormatString { loc: l, format } => {
            assert_eq!(l, loc);
            assert_eq!(format.len(), 5);
            match &format[0] {
                (FormatArg::StringLiteral, Expression::BytesLiteral { loc, ty: Type::String, value }) => {
                    assert_eq!(value, &b"x=".to_vec());
                    assert_eq!(*loc, Loc::File(0, 2, 13));
                },
                other => panic!("{:?}", other),
            }
            assert!(matches!(&format[1], (FormatArg::Default, Expression::Variable { var_no: 1, .. })));
            match &format[2] {
                (FormatArg::StringLiteral, Expression::BytesLiteral { value, .. }) => assert_eq!(value, &b" y=".to_vec()),
                other => panic!("{:?}", other),
            }
            assert!(matches!(&format[3], (FormatArg::Hex, Expression::Variable { var_no: 2, .. })));
            match &format[4] {
                (FormatArg::StringLiteral, Expression::BytesLiteral { loc: l, value, .. }) => {
                    assert_eq!(value, &b"!}".to_vec());
                    assert_eq!(*l, loc);
                },
                other => panic!("{:?}", other),
            }
        },
        other => panic!("{:?}", other),
    }
    assert!(diagnostics.is_empty());
}

#[test]
fn format_escaped_braces_in_text() {
    let mut diagnostics = Diagnostics::new();
    let loc = Loc::File(0, 0, 40);
    match string_format(&loc, &vec![literal(0, "a{{b}}c")], vec![], &mut diagnostics).unwrap() {
        Expression::FormatString { format, .. } => match &format[0] {
            (FormatArg::StringLiteral, Expression::BytesLiteral { value, .. }) => assert_eq!(value, &b"a{b}c".to_vec()),
            other => panic!("{:?}", other),
        },
        other => panic!("{:?}", other),
    }
}

#[test]
fn format_escaped_braces() {
    let mut diagnostics = Diagnostics::new();
    let loc = Loc::File(0, 0, 40);
    match string_format(&loc, &vec![literal(0, "{{a}}")], vec![], &mut diagnostics).unwrap() {
        Expression::FormatString { format, .. } => {
            assert_eq!(format.len(), 1);
            match &format[0] {
                (FormatArg::StringLiteral, Expression::BytesLiteral { value, .. }) => assert_eq!(value, &b"{a}".to_vec()),
                other => panic!("{:?}", other),
            }
        },
        other => panic!("{:?}", other),
    }
}

#[test]
fn format_errors() {
    let loc = Loc::File(0, 0, 40);
    let mut diagnostics = Diagnostics::new();
    assert!(string_format(&loc, &vec![literal(0, "a}b")], vec![], &mut diagnostics).is_err());
    assert_eq!(only_message(&diagnostics), "unmatched '}'");
    assert_eq!(diagnostics.get(0).loc, Loc::File(0, 1, 5));

    let mut diagnostics = Diagnostics::new();
    assert!(string_format(&loc, &vec![literal(0, "{}")], vec![], &mut diagnostics).is_err());
    assert_eq!(only_message(&diagnostics), "missing argument to format");

    let mut diagnostics = Diagnostics::new();
    assert!(string_format(&loc, &vec![literal(0, "x")], vec![variable(Type::Bool, 1)], &mut diagnostics).is_err());
    assert_eq!(only_message(&diagnostics), "too many argument for format string");

    let mut diagnostics = Diagnostics::new();
    assert!(string_format(&loc, &vec![literal(0, "{:b}")], vec![variable(Type::String, 1)], &mut diagnostics).is_err());
    assert_eq!(only_message(&diagnostics), "argument must be signed or unsigned integer type");
    assert_eq!(diagnostics.get(0).loc, Loc::File(0, 101, 102));

    let mut diagnostics = Diagnostics::new();
    let mapping = Type::Mapping(Box::new(Type::Bool), Box::new(Type::Bool));
    assert!(string_format(&loc, &vec![literal(0, "{}")], vec![variable(mapping, 1)], &mut diagnostics).is_err());
    assert_eq!(
        only_message(&diagnostics),
        "argument must be a bool, enum, address, contract, string, or bytes, int, uint"
    );
}

#[test]
fn format_specifiers() {
    let mut diagnostics = Diagnostics::new();
    let literals = vec![literal(0, ":x}")];
    let mut it = FormatIterator::new(&literals);
    assert_eq!(parse_format_specifier(Loc::Implicit, &mut it, &mut diagnostics), Ok(FormatArg::Hex));

    let literals = vec![literal(0, ":}")];
    let mut it = FormatIterator::new(&literals);
    assert_eq!(parse_format_specifier(Loc::Implicit, &mut it, &mut diagnostics), Ok(FormatArg::Default));

    let literals = vec![literal(0, ":b}")];
    let mut it = FormatIterator::new(&literals);
    assert_eq!(parse_format_specifier(Loc::Implicit, &mut it, &mut diagnostics), Ok(FormatArg::Binary));
    assert!(diagnostics.is_empty());

    let literals = vec![literal(0, ":q}")];
    let mut it = FormatIterator::new(&literals);
    assert!(parse_format_specifier(Loc::Implicit, &mut it, &mut diagnostics).is_err());
    assert_eq!(only_message(&diagnostics), "unexpected format char 'q'");

    let mut diagnostics = Diagnostics::new();
    let literals = vec![literal(0, ":xy")];
    let mut it = FormatIterator::new(&literals);
    assert!(parse_format_specifier(Loc::Implicit, &mut it, &mut diagnostics).is_err());
    assert_eq!(only_message(&diagnostics), "unexpected format char 'y', expected closing '}'");

    let mut diagnostics = Diagnostics::new();
    let literals = vec![literal(0, ":x")];
    let mut it = FormatIterator::new(&literals);
    assert!(parse_format_specifier(Loc::Implicit, &mut it, &mut diagnostics).is_err());
    assert_eq!(only_message(&diagnostics), "missing closing '}'");
    assert_eq!(diagnostics.get(0).loc, Loc::File(0, 1, 4));
}

#[test]
fn format_iterator_walks_literals() {
    let literals = vec![literal(0, "ab"), literal(10, "c")];
    let mut it = FormatIterator::new(&literals);
    assert_eq!(it.next(), Some((Loc::File(0, 0, 4), 'a')));
    assert_eq!(it.peek(), Some((Loc::File(0, 1, 4), 'b')));
    assert_eq!(it.next(), Some((Loc::File(0, 1, 4), 'b')));
    assert_eq!(it.next(), Some((Loc::File(0, 10, 13), 'c')));
    assert!(it.at_end());
    assert_eq!(it.next(), None);
}
