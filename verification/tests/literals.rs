use solang_sema::ast::Expression;
use solang_sema::diagnostics::{Diagnostics, ErrorType, Level, Loc};
use solang_sema::expression::ResolveTo;
use solang_sema::integers::{bigdecimal_to_expression, bigint_to_expression};
use solang_sema::literals::{
    address_literal, checksum_address, decoded_address, hex_literal, hex_number_literal, number_literal, rational_number_literal,
    string_literal, unit_literal, Base58Error,
};
use solang_sema::namespace::{Namespace, Target};
use solang_sema::number::{Number, Rational};
use solang_sema::literals::check_subarrays;
use solang_sema::pt::{self as parse, HexLiteral, Identifier, StringLiteral};
use solang_sema::types::Type;

fn namespace(target: Target, address_length: usize) -> Namespace {
    Namespace {
        files: vec![],
        target,
        address_length,
        value_length: 16,
        enums: vec![],
        structs: vec![],
        user_types: vec![],
        functions: vec![],
        contracts: vec![],
        function_symbols: vec![],
        diagnostics: Diagnostics::new(),
    }
}

fn number(negative: bool, magnitude: &[u8]) -> Number {
    Number { negative, magnitude: magnitude.to_vec() }
}

fn loc() -> Loc {
    Loc::File(0, 10, 50)
}

/// The type, sign and magnitude of a number literal.
fn number_parts(e: &Expression) -> (String, bool, Vec<u8>) {
    match e {
        Expression::NumberLiteral { ty, value, .. } => (format!("{:?}", ty), value.negative, value.magnitude.clone()),
        other => panic!("not a number literal: {:?}", other),
    }
}

/// The numerator and denominator of a rational literal.
fn rational_parts(e: &Expression) -> (bool, Vec<u8>, Vec<u8>) {
    match e {
        Expression::RationalNumberLiteral { ty: Type::Rational, value, .. } => {
            (value.numer.negative, value.numer.magnitude.clone(), value.denom.magnitude.clone())
        },
        other => panic!("not a rational literal: {:?}", other),
    }
}

fn only_message(diagnostics: &Diagnostics) -> String {
    assert_eq!(diagnostics.len(), 1);
    diagnostics.get(0).message.clone()
}

#[test]
fn number_literal_plain() {
    let ns = namespace(Target::EVM, 20);
    let mut diagnostics = Diagnostics::new();
    let e = number_literal(&loc(), "123", "", &ns, &number(false, &[1]), &mut diagnostics, ResolveTo::Unknown).unwrap();
    assert_eq!(number_parts(&e), ("Uint(8)".to_string(), false, vec![123]));
    assert!(diagnostics.is_empty());
}

#[test]
fn number_literal_positive_exponent() {
    let ns = namespace(Target::EVM, 20);
    let mut diagnostics = Diagnostics::new();
    let e = number_literal(&loc(), "1", "3", &ns, &number(false, &[1]), &mut diagnostics, ResolveTo::Unknown).unwrap();
    assert_eq!(number_parts(&e), ("Uint(16)".to_string(), false, vec![0x03, 0xe8]));
}

#[test]
fn number_literal_negative_exponent_whole() {
    let ns = namespace(Target::EVM, 20);
    let mut diagnostics = Diagnostics::new();
    let e = number_literal(&loc(), "150", "-1", &ns, &number(false, &[2]), &mut diagnostics, ResolveTo::Unknown).unwrap();
    assert_eq!(number_parts(&e), ("Uint(8)".to_string(), false, vec![30]));
}

#[test]
fn number_literal_negative_exponent_fraction() {
    let ns = namespace(Target::EVM, 20);
    let mut diagnostics = Diagnostics::new();
    let e = number_literal(&loc(), "15", "-1", &ns, &number(false, &[7]), &mut diagnostics, ResolveTo::Unknown).unwrap();
    // 15 / 10 in lowest terms; the unit does not apply to a fraction
    assert_eq!(rational_parts(&e), (false, vec![3], vec![2]));
    assert!(diagnostics.is_empty());
}

#[test]
fn number_literal_exponent_too_large() {
    let ns = namespace(Target::EVM, 20);
    let mut diagnostics = Diagnostics::new();
    let res = number_literal(&loc(), "1", "256", &ns, &number(false, &[1]), &mut diagnostics, ResolveTo::Unknown);
    assert!(res.is_err());
    assert_eq!(only_message(&diagnostics), "exponent '256' too large");
    let d = diagnostics.get(0);
    assert_eq!(d.level, Level::Error);
    assert_eq!(d.ty, ErrorType::SyntaxError);
    assert_eq!(d.loc, loc());

    let mut diagnostics = Diagnostics::new();
    let res = number_literal(&loc(), "1", "-300", &ns, &number(false, &[1]), &mut diagnostics, ResolveTo::Unknown);
    assert!(res.is_err());
    assert_eq!(only_message(&diagnostics), "exponent '-300' too large");
}

#[test]
fn number_literal_with_ether_unit() {
    let mut ns = namespace(Target::EVM, 20);
    let mut diagnostics = Diagnostics::new();
    let unit = Identifier { loc: loc(), name: "ether".to_string() };
    let ether = unit_literal(&loc(), &Some(unit), &mut ns, &mut diagnostics);
    assert!(diagnostics.is_empty());
    let e = number_literal(&loc(), "1", "", &ns, &ether, &mut diagnostics, ResolveTo::Unknown).unwrap();
    assert_eq!(
        number_parts(&e),
        ("Uint(64)".to_string(), false, vec![0x0d, 0xe0, 0xb6, 0xb3, 0xa7, 0x64, 0x00, 0x00])
    );
}

#[test]
fn number_literal_to_requested_type() {
    let ns = namespace(Target::EVM, 20);
    let mut diagnostics = Diagnostics::new();
    let ty = Type::Uint(256);
    let e = number_literal(&loc(), "5", "", &ns, &number(false, &[1]), &mut diagnostics, ResolveTo::Type(&ty)).unwrap();
    assert_eq!(number_parts(&e), ("Uint(256)".to_string(), false, vec![5]));

    let ty = Type::Bool;
    let res = number_literal(&loc(), "5", "", &ns, &number(false, &[1]), &mut diagnostics, ResolveTo::Type(&ty));
    assert!(res.is_err());
    assert_eq!(only_message(&diagnostics), "expected 'bool', found integer");
    assert_eq!(diagnostics.get(0).ty, ErrorType::CastError);
}

#[test]
fn zero_resolves_to_fixed_bytes() {
    let ns = namespace(Target::EVM, 20);
    let mut diagnostics = Diagnostics::new();
    let ty = Type::Bytes(4);
    let e = number_literal(&loc(), "0", "", &ns, &number(false, &[1]), &mut diagnostics, ResolveTo::Type(&ty)).unwrap();
    assert_eq!(number_parts(&e), ("Bytes(4)".to_string(), false, vec![0]));

    let res = number_literal(&loc(), "5", "", &ns, &number(false, &[1]), &mut diagnostics, ResolveTo::Type(&ty));
    assert!(res.is_err());
    assert_eq!(only_message(&diagnostics), "expected 'bytes4', found integer");
}

#[test]
fn number_literal_largest_and_too_large() {
    let ns = namespace(Target::EVM, 20);
    let mut diagnostics = Diagnostics::new();
    let max = "115792089237316195423570985008687907853269984665640564039457584007913129639935";
    let e = number_literal(&loc(), max, "", &ns, &number(false, &[1]), &mut diagnostics, ResolveTo::Unknown).unwrap();
    let (ty, negative, magnitude) = number_parts(&e);
    assert_eq!(ty, "Uint(256)");
    assert!(!negative);
    assert_eq!(magnitude, vec![0xff; 32]);

    let over = "115792089237316195423570985008687907853269984665640564039457584007913129639936";
    let res = number_literal(&loc(), over, "", &ns, &number(false, &[1]), &mut diagnostics, ResolveTo::Unknown);
    assert!(res.is_err());
    assert_eq!(only_message(&diagnostics), format!("{} is too large", over));
}

#[test]
fn bigint_negative_sizes() {
    let ns = namespace(Target::EVM, 20);
    let mut diagnostics = Diagnostics::new();
    let e = bigint_to_expression(&loc(), &number(true, &[1]), &ns, &mut diagnostics, ResolveTo::Unknown, None).unwrap();
    assert_eq!(number_parts(&e), ("Int(8)".to_string(), true, vec![1]));
    let e = bigint_to_expression(&loc(), &number(true, &[128]), &ns, &mut diagnostics, ResolveTo::Unknown, None).unwrap();
    assert_eq!(number_parts(&e), ("Int(8)".to_string(), true, vec![128]));
    // int8 holds -128 to 127: -129 needs int16
    let e = bigint_to_expression(&loc(), &number(true, &[129]), &ns, &mut diagnostics, ResolveTo::Unknown, None).unwrap();
    assert_eq!(number_parts(&e).0, "Int(16)");
    // -32768 fits in int16, -32769 needs int24
    let e = bigint_to_expression(&loc(), &number(true, &[0x80, 0x00]), &ns, &mut diagnostics, ResolveTo::Unknown, None).unwrap();
    assert_eq!(number_parts(&e).0, "Int(16)");
    let e = bigint_to_expression(&loc(), &number(true, &[0x80, 0x01]), &ns, &mut diagnostics, ResolveTo::Unknown, None).unwrap();
    assert_eq!(number_parts(&e).0, "Int(24)");
    assert!(diagnostics.is_empty());
}

#[test]
fn bigint_negative_limit() {
    let ns = namespace(Target::EVM, 20);
    let mut diagnostics = Diagnostics::new();
    // -(2^255) fits in int256
    let mut min = vec![0u8; 32];
    min[0] = 0x80;
    let e = bigint_to_expression(&loc(), &number(true, &min), &ns, &mut diagnostics, ResolveTo::Unknown, None).unwrap();
    assert_eq!(number_parts(&e).0, "Int(256)");
    // -(2^255) - 1 does not
    let mut below = min.clone();
    below[31] = 1;
    let res = bigint_to_expression(&loc(), &number(true, &below), &ns, &mut diagnostics, ResolveTo::Unknown, None);
    assert!(res.is_err());
    assert_eq!(
        only_message(&diagnostics),
        "-57896044618658097711785492504343953926634992332820282019728792003956564819969 is too large"
    );
}

#[test]
fn bigint_hex_lengths() {
    let ns = namespace(Target::EVM, 20);
    let mut diagnostics = Diagnostics::new();
    let e = bigint_to_expression(&loc(), &number(false, &[1]), &ns, &mut diagnostics, ResolveTo::Unknown, Some(4)).unwrap();
    assert_eq!(number_parts(&e).0, "Uint(16)");
    let e = bigint_to_expression(&loc(), &number(false, &[0x0f]), &ns, &mut diagnostics, ResolveTo::Unknown, Some(3)).unwrap();
    assert_eq!(number_parts(&e).0, "Uint(4)");
    let e = bigint_to_expression(&loc(), &number(false, &[0]), &ns, &mut diagnostics, ResolveTo::Unknown, None).unwrap();
    assert_eq!(number_parts(&e), ("Uint(8)".to_string(), false, vec![0]));
}

#[test]
fn rational_literals() {
    let ns = namespace(Target::EVM, 20);
    let mut diagnostics = Diagnostics::new();
    let one = number(false, &[1]);
    let e = rational_number_literal(&loc(), "1", "5", "", &one, &ns, &mut diagnostics, ResolveTo::Unknown).unwrap();
    assert_eq!(rational_parts(&e), (false, vec![3], vec![2]));
    let e = rational_number_literal(&loc(), "0", "25", "", &one, &ns, &mut diagnostics, ResolveTo::Unknown).unwrap();
    assert_eq!(rational_parts(&e), (false, vec![1], vec![4]));
    let e = rational_number_literal(&loc(), "1", "25", "-2", &one, &ns, &mut diagnostics, ResolveTo::Unknown).unwrap();
    assert_eq!(rational_parts(&e), (false, vec![1], vec![80]));
    assert!(diagnostics.is_empty());
}

#[test]
fn rational_literals_that_are_whole() {
    let ns = namespace(Target::EVM, 20);
    let mut diagnostics = Diagnostics::new();
    let one = number(false, &[1]);
    let e = rational_number_literal(&loc(), "", "5", "1", &one, &ns, &mut diagnostics, ResolveTo::Unknown).unwrap();
    assert_eq!(number_parts(&e), ("Uint(8)".to_string(), false, vec![5]));
    let e = rational_number_literal(&loc(), "0", "000", "", &one, &ns, &mut diagnostics, ResolveTo::Unknown).unwrap();
    assert_eq!(number_parts(&e), ("Uint(8)".to_string(), false, vec![0]));
    // 2.5 minutes
    let minutes = number(false, &[60]);
    let e = rational_number_literal(&loc(), "2", "5", "", &minutes, &ns, &mut diagnostics, ResolveTo::Unknown).unwrap();
    assert_eq!(number_parts(&e), ("Uint(8)".to_string(), false, vec![150]));
    assert!(diagnostics.is_empty());
}

#[test]
fn rational_literal_bad_exponent() {
    let ns = namespace(Target::EVM, 20);
    let mut diagnostics = Diagnostics::new();
    let res = rational_number_literal(&loc(), "1", "5", "1000", &number(false, &[1]), &ns, &mut diagnostics, ResolveTo::Unknown);
    assert!(res.is_err());
    assert_eq!(only_message(&diagnostics), "exponent '1000' too large");
}

#[test]
fn units() {
    let mut ns = namespace(Target::EVM, 20);
    let mut diagnostics = Diagnostics::new();
    let value = |name: &str, ns: &mut Namespace, diagnostics: &mut Diagnostics| {
        let unit = Identifier { loc: loc(), name: name.to_string() };
        unit_literal(&loc(), &Some(unit), ns, diagnostics).magnitude
    };
    assert_eq!(unit_literal(&loc(), &None, &mut ns, &mut diagnostics).magnitude, vec![1]);
    assert_eq!(value("seconds", &mut ns, &mut diagnostics), vec![1]);
    assert_eq!(value("minutes", &mut ns, &mut diagnostics), vec![60]);
    assert_eq!(value("hours", &mut ns, &mut diagnostics), vec![0x0e, 0x10]);
    assert_eq!(value("days", &mut ns, &mut diagnostics), vec![0x01, 0x51, 0x80]);
    assert_eq!(value("weeks", &mut ns, &mut diagnostics), vec![0x09, 0x3a, 0x80]);
    assert_eq!(value("wei", &mut ns, &mut diagnostics), vec![1]);
    assert_eq!(value("gwei", &mut ns, &mut diagnostics), vec![0x3b, 0x9a, 0xca, 0x00]);
    assert!(diagnostics.is_empty());
}

#[test]
fn currency_unit_of_another_chain() {
    let mut ns = namespace(Target::Solana, 32);
    let mut diagnostics = Diagnostics::new();
    let unit = Identifier { loc: loc(), name: "gwei".to_string() };
    let v = unit_literal(&loc(), &Some(unit), &mut ns, &mut diagnostics);
    assert_eq!(v.magnitude, vec![0x3b, 0x9a, 0xca, 0x00]);
    assert_eq!(only_message(&diagnostics), "ethereum currency unit used while targeting Solana");
    assert_eq!(diagnostics.get(0).level, Level::Warning);

    let mut ns = namespace(Target::EVM, 20);
    let mut diagnostics = Diagnostics::new();
    let unit = Identifier { loc: loc(), name: "sol".to_string() };
    let v = unit_literal(&loc(), &Some(unit), &mut ns, &mut diagnostics);
    assert_eq!(v.magnitude, vec![0x3b, 0x9a, 0xca, 0x00]);
    assert_eq!(only_message(&diagnostics), "solana currency unit used while targeting EVM");

    let mut ns = namespace(Target::Solana, 32);
    let mut diagnostics = Diagnostics::new();
    let unit = Identifier { loc: loc(), name: "lamports".to_string() };
    assert_eq!(unit_literal(&loc(), &Some(unit), &mut ns, &mut diagnostics).magnitude, vec![1]);
    assert!(diagnostics.is_empty());
}

#[test]
fn unknown_unit() {
    let mut ns = namespace(Target::EVM, 20);
    let mut diagnostics = Diagnostics::new();
    let unit = Identifier { loc: loc(), name: "furlongs".to_string() };
    let v = unit_literal(&loc(), &Some(unit), &mut ns, &mut diagnostics);
    assert_eq!(v.magnitude, vec![1]);
    assert_eq!(only_message(&diagnostics), "unknown unit 'furlongs'");
    assert_eq!(diagnostics.get(0).level, Level::Error);
}

#[test]
fn hex_literals() {
    let mut diagnostics = Diagnostics::new();
    let v = vec![
        HexLiteral { loc: Loc::File(0, 0, 10), hex: "0a1B".to_string() },
        HexLiteral { loc: Loc::File(0, 11, 20), hex: "ff".to_string() },
    ];
    match hex_literal(&v, &mut diagnostics, ResolveTo::Unknown).unwrap() {
        Expression::BytesLiteral { loc, ty: Type::Bytes(3), value } => {
            assert_eq!(value, vec![0x0a, 0x1b, 0xff]);
            assert_eq!(loc, Loc::File(0, 0, 20));
        },
        other => panic!("{:?}", other),
    }
    match hex_literal(&v, &mut diagnostics, ResolveTo::Type(&Type::DynamicBytes)).unwrap() {
        Expression::AllocDynamicBytes { ty: Type::DynamicBytes, init: Some(init), length, .. } => {
            assert_eq!(init, vec![0x0a, 0x1b, 0xff]);
            assert_eq!(number_parts(&length), ("Uint(32)".to_string(), false, vec![3]));
        },
        other => panic!("{:?}", other),
    }
    assert!(diagnostics.is_empty());
}

#[test]
fn hex_literal_odd_length() {
    let mut diagnostics = Diagnostics::new();
    let v = vec![
        HexLiteral { loc: Loc::File(0, 0, 10), hex: "0a".to_string() },
        HexLiteral { loc: Loc::File(0, 11, 20), hex: "abc".to_string() },
    ];
    assert!(hex_literal(&v, &mut diagnostics, ResolveTo::Unknown).is_err());
    assert_eq!(only_message(&diagnostics), "hex string \"abc\" has odd number of characters");
    assert_eq!(diagnostics.get(0).loc, Loc::File(0, 11, 20));
}

#[test]
fn string_literals() {
    let mut diagnostics = Diagnostics::new();
    let v = vec![
        StringLiteral { loc: Loc::File(0, 0, 4), unicode: false, string: "hi".to_string() },
        StringLiteral { loc: Loc::File(0, 5, 10), unicode: false, string: "a\\n".to_string() },
    ];
    match string_literal(&v, 0, &mut diagnostics, ResolveTo::Unknown) {
        Expression::BytesLiteral { loc, ty: Type::Bytes(4), value } => {
            assert_eq!(value, b"hia\n".to_vec());
            assert_eq!(loc, Loc::File(0, 0, 10));
        },
        other => panic!("{:?}", other),
    }
    match string_literal(&v, 0, &mut diagnostics, ResolveTo::Type(&Type::String)) {
        Expression::AllocDynamicBytes { ty: Type::String, init: Some(init), .. } => assert_eq!(init, b"hia\n".to_vec()),
        other => panic!("{:?}", other),
    }
    assert!(diagnostics.is_empty());
}

#[test]
fn solana_address() {
    let mut ns = namespace(Target::Solana, 32);
    let mut diagnostics = Diagnostics::new();
    let e = address_literal(&loc(), "TokenkegQfeZyiNwAJbNbGKPFXCWuBvf9Ss623VQ5DA", &mut ns, &mut diagnostics).unwrap();
    let expected: Vec<u8> = vec![
        0x06, 0xdd, 0xf6, 0xe1, 0xd7, 0x65, 0xa1, 0x93, 0xd9, 0xcb, 0xe1, 0x46, 0xce, 0xeb, 0x79, 0xac, 0x1c, 0xb4,
        0x85, 0xed, 0x5f, 0x5b, 0x37, 0x91, 0x3a, 0x8c, 0xf5, 0x85, 0x7e, 0xff, 0x00, 0xa9,
    ];
    assert_eq!(number_parts(&e), ("Address(false)".to_string(), false, expected));

    let e = address_literal(&loc(), "11111111111111111111111111111111", &mut ns, &mut diagnostics).unwrap();
    assert_eq!(number_parts(&e), ("Address(false)".to_string(), false, vec![0]));
    assert!(diagnostics.is_empty());
}

#[test]
fn substrate_address() {
    let mut ns = namespace(Target::Substrate { address_length: 32, value_length: 16 }, 32);
    let mut diagnostics = Diagnostics::new();
    let e = address_literal(&loc(), "5GrwvaEF5zXb26Fz9rcQpDWS57CtERHpNehXCPcNoHGKutQY", &mut ns, &mut diagnostics).unwrap();
    let expected: Vec<u8> = vec![
        0xd4, 0x35, 0x93, 0xc7, 0x15, 0xfd, 0xd3, 0x1c, 0x61, 0x14, 0x1a, 0xbd, 0x04, 0xa9, 0x9f, 0xd6, 0x82, 0x2c,
        0x85, 0x58, 0x85, 0x4c, 0xcd, 0xe3, 0x9a, 0x56, 0x84, 0xe7, 0xa5, 0x6d, 0xa2, 0x7d,
    ];
    assert_eq!(number_parts(&e), ("Address(false)".to_string(), false, expected));
    assert!(diagnostics.is_empty());
}

#[test]
fn substrate_address_bad_checksum() {
    let mut ns = namespace(Target::Substrate { address_length: 32, value_length: 16 }, 32);
    let mut diagnostics = Diagnostics::new();
    let address = "5GrwvaEF5zXb26Fz9rcQpDWS57CtERHpNehXCPcNoHGKutQZ";
    assert!(address_literal(&loc(), address, &mut ns, &mut diagnostics).is_err());
    assert_eq!(only_message(&diagnostics), format!("address literal {} hash incorrect checksum", address));
}

#[test]
fn address_errors() {
    let mut ns = namespace(Target::Solana, 32);
    let mut diagnostics = Diagnostics::new();
    assert!(address_literal(&loc(), "1111O", &mut ns, &mut diagnostics).is_err());
    assert_eq!(only_message(&diagnostics), "address literal 1111O invalid character 'O'");
    assert_eq!(diagnostics.get(0).loc, Loc::File(0, 14, 14));

    let mut diagnostics = Diagnostics::new();
    assert!(address_literal(&loc(), "2", &mut ns, &mut diagnostics).is_err());
    assert_eq!(only_message(&diagnostics), "address literal 2 incorrect length of 1");

    let mut ns = namespace(Target::EVM, 20);
    let mut diagnostics = Diagnostics::new();
    assert!(address_literal(&loc(), "2", &mut ns, &mut diagnostics).is_err());
    assert_eq!(only_message(&diagnostics), "address literal 2 not supported on EVM");
}

#[test]
fn address_from_decoded_bytes() {
    let ns = namespace(Target::Substrate { address_length: 2, value_length: 16 }, 2);
    let mut diagnostics = Diagnostics::new();
    let res = decoded_address(&loc(), "x", Err(Base58Error::InvalidLength), &ns, &mut diagnostics);
    assert!(res.is_err());
    assert_eq!(only_message(&diagnostics), "address literal x invalid base58 length");

    let mut diagnostics = Diagnostics::new();
    let res = decoded_address(&loc(), "x", Ok(vec![1, 2, 3]), &ns, &mut diagnostics);
    assert!(res.is_err());
    assert_eq!(only_message(&diagnostics), "address literal x incorrect length of 3");

    let mut diagnostics = Diagnostics::new();
    let v = vec![42, 0, 7, 9, 8];
    let e = checksum_address(&loc(), "x", &v, &vec![9, 8, 1], 2, &mut diagnostics).unwrap();
    assert_eq!(number_parts(&e), ("Address(false)".to_string(), false, vec![7]));
    assert!(checksum_address(&loc(), "x", &v, &vec![9, 9], 2, &mut diagnostics).is_err());
    assert_eq!(only_message(&diagnostics), "address literal x hash incorrect checksum");
}

#[test]
fn rational_to_expression() {
    let ns = namespace(Target::EVM, 20);
    let mut diagnostics = Diagnostics::new();
    let half = Rational { numer: number(false, &[1]), denom: number(false, &[2]) };
    let e = bigdecimal_to_expression(&loc(), &half, &ns, &mut diagnostics, ResolveTo::Type(&Type::Rational)).unwrap();
    assert_eq!(rational_parts(&e), (false, vec![1], vec![2]));
    assert!(bigdecimal_to_expression(&loc(), &half, &ns, &mut diagnostics, ResolveTo::Unknown).is_err());
    assert!(diagnostics.is_empty());
    let ty = Type::Uint(8);
    assert!(bigdecimal_to_expression(&loc(), &half, &ns, &mut diagnostics, ResolveTo::Type(&ty)).is_err());
    assert_eq!(only_message(&diagnostics), "expected \u{2018}uint8\u{2019}, found rational");
}

const CHECKSUMMED: &str = "0x5aAeb6053F3E94C9b9A09f33669435E7Ef1BeAed";
const LOWER: &str = "0x5aaeb6053f3e94c9b9a09f33669435e7ef1beaed";

fn address_bytes() -> Vec<u8> {
    vec![
        0x5a, 0xae, 0xb6, 0x05, 0x3f, 0x3e, 0x94, 0xc9, 0xb9, 0xa0, 0x9f, 0x33, 0x66, 0x94, 0x35, 0xe7, 0xef, 0x1b,
        0xea, 0xed,
    ]
}

#[test]
fn ethereum_address_literal() {
    let mut ns = namespace(Target::EVM, 20);
    let mut diagnostics = Diagnostics::new();
    let e = hex_number_literal(&loc(), CHECKSUMMED, CHECKSUMMED, &mut ns, &mut diagnostics, ResolveTo::Unknown).unwrap();
    assert_eq!(number_parts(&e), ("Address(false)".to_string(), false, address_bytes()));
    assert!(diagnostics.is_empty());

    assert!(hex_number_literal(&loc(), LOWER, CHECKSUMMED, &mut ns, &mut diagnostics, ResolveTo::Unknown).is_err());
    assert_eq!(
        only_message(&diagnostics),
        format!("address literal has incorrect checksum, expected '{}'", CHECKSUMMED)
    );
}

#[test]
fn ethereum_address_on_other_targets() {
    let mut ns = namespace(Target::Solana, 32);
    let mut diagnostics = Diagnostics::new();
    assert!(hex_number_literal(&loc(), CHECKSUMMED, CHECKSUMMED, &mut ns, &mut diagnostics, ResolveTo::Unknown).is_err());
    assert_eq!(
        only_message(&diagnostics),
        format!("ethereum address literal '{}' not supported on target Solana", CHECKSUMMED)
    );

    let mut diagnostics = Diagnostics::new();
    let e = hex_number_literal(&loc(), LOWER, CHECKSUMMED, &mut ns, &mut diagnostics, ResolveTo::Unknown).unwrap();
    assert_eq!(number_parts(&e), ("Uint(160)".to_string(), false, address_bytes()));
}

#[test]
fn hex_numbers_for_fixed_bytes() {
    let mut ns = namespace(Target::EVM, 20);
    let mut diagnostics = Diagnostics::new();
    let two = Type::Bytes(2);
    let e = hex_number_literal(&loc(), "0x1234", "", &mut ns, &mut diagnostics, ResolveTo::Type(&two)).unwrap();
    assert_eq!(number_parts(&e), ("Bytes(2)".to_string(), false, vec![0x12, 0x34]));
    let four = Type::Bytes(4);
    let e = hex_number_literal(&loc(), "0x0", "", &mut ns, &mut diagnostics, ResolveTo::Type(&four)).unwrap();
    assert_eq!(number_parts(&e), ("Bytes(4)".to_string(), false, vec![0]));
    assert!(diagnostics.is_empty());
    assert!(hex_number_literal(&loc(), "0x1234", "", &mut ns, &mut diagnostics, ResolveTo::Type(&four)).is_err());
    assert_eq!(only_message(&diagnostics), "hex literal 0x1234 must be 8 digits for type 'bytes4'");
    assert_eq!(diagnostics.get(0).ty, ErrorType::CastError);
}

#[test]
fn hex_numbers() {
    let mut ns = namespace(Target::EVM, 20);
    let mut diagnostics = Diagnostics::new();
    let e = hex_number_literal(&loc(), "0x1_0", "", &mut ns, &mut diagnostics, ResolveTo::Unknown).unwrap();
    assert_eq!(number_parts(&e), ("Uint(8)".to_string(), false, vec![0x10]));
    let e = hex_number_literal(&loc(), "0xabc", "", &mut ns, &mut diagnostics, ResolveTo::Unknown).unwrap();
    assert_eq!(number_parts(&e), ("Uint(12)".to_string(), false, vec![0x0a, 0xbc]));
    assert!(diagnostics.is_empty());
}

fn leaf(n: usize) -> parse::Expression {
    parse::Expression::Other(Loc::File(0, n, n + 1))
}

fn array(start: usize, elements: Vec<parse::Expression>) -> parse::Expression {
    parse::Expression::ArrayLiteral(Loc::File(0, start, start + 10), elements)
}

fn leaf_starts(flatten: &[&parse::Expression]) -> Vec<usize> {
    flatten
        .iter()
        .map(|e| match e.loc() {
            Loc::File(_, start, _) => start,
            _ => usize::MAX,
        })
        .collect()
}

#[test]
fn nested_array_literal_dimensions() {
    let exprs = vec![array(10, vec![leaf(1), leaf(2)]), array(20, vec![leaf(3), leaf(4)]), array(30, vec![leaf(5), leaf(6)])];
    let mut dims = Some(vec![]);
    let mut flatten = vec![];
    let mut diagnostics = Diagnostics::new();
    assert!(check_subarrays(&exprs, &mut dims, &mut flatten, &mut diagnostics).is_ok());
    assert_eq!(dims, Some(vec![2, 3]));
    assert_eq!(leaf_starts(&flatten), vec![1, 2, 3, 4, 5, 6]);
    assert!(diagnostics.is_empty());

    let empty: Vec<parse::Expression> = vec![];
    let mut dims = Some(vec![]);
    let mut flatten = vec![];
    assert!(check_subarrays(&empty, &mut dims, &mut flatten, &mut diagnostics).is_ok());
    assert_eq!(dims, Some(vec![0]));
    assert!(flatten.is_empty());
}

#[test]
fn array_literal_shape_errors() {
    let mut diagnostics = Diagnostics::new();
    let exprs = vec![array(10, vec![leaf(1), leaf(2)]), array(20, vec![leaf(3)])];
    assert!(check_subarrays(&exprs, &mut Some(vec![]), &mut vec![], &mut diagnostics).is_err());
    assert_eq!(only_message(&diagnostics), "array elements should be identical, sub array 2 has 1 elements rather than 2");
    assert_eq!(diagnostics.get(0).loc, Loc::File(0, 20, 30));

    let mut diagnostics = Diagnostics::new();
    let exprs = vec![array(10, vec![leaf(1)]), leaf(2)];
    assert!(check_subarrays(&exprs, &mut None, &mut vec![], &mut diagnostics).is_err());
    assert_eq!(only_message(&diagnostics), "array element 2 should also be an array");
    assert_eq!(diagnostics.get(0).loc, Loc::File(0, 2, 3));

    let mut diagnostics = Diagnostics::new();
    let exprs = vec![leaf(1), array(20, vec![leaf(2)])];
    assert!(check_subarrays(&exprs, &mut None, &mut vec![], &mut diagnostics).is_err());
    assert_eq!(only_message(&diagnostics), "array elements should be of the type, element 2 is unexpected array");
    assert_eq!(diagnostics.get(0).loc, Loc::File(0, 20, 30));
}

#[test]
fn long_base58_text_is_too_long() {
    let mut ns = namespace(Target::Solana, 32);
    let mut diagnostics = Diagnostics::new();
    let text = "z".repeat(133);
    assert!(address_literal(&loc(), &text, &mut ns, &mut diagnostics).is_err());
    assert_eq!(diagnostics.len(), 1);
}
