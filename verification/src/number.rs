//! Integers of any size, as semantic analysis holds literal values.

use vstd::prelude::*;
use vstd::arithmetic::power::pow;
use num_bigint::BigInt;
use num_traits::Num;
use num_bigint::Sign::{Minus, Plus};
use num_rational::BigRational;
use std::str::FromStr;

verus! {

/// The value of big-endian bytes.
pub open spec fn be_value(bytes: Seq<u8>) -> nat
    decreases bytes.len(),
{
    if bytes.len() == 0 {
        0
    } else {
        be_value(bytes.drop_last()) * 256 + bytes.last() as nat
    }
}

/// The value of a sign and big-endian magnitude bytes.
pub open spec fn signed_value(negative: bool, magnitude: Seq<u8>) -> int {
    if negative {
        -(be_value(magnitude) as int)
    } else {
        be_value(magnitude) as int
    }
}

/// An integer of any size: its sign and the big-endian bytes of its
/// magnitude, as `num_bigint` writes them: no leading zero byte, and zero
/// as the single byte 0, never negative.
#[derive(Debug)]
pub struct Number {
    pub negative: bool,
    pub magnitude: Vec<u8>,
}

impl Number {
    /// The value.
    pub open spec fn value(&self) -> int {
        signed_value(self.negative, self.magnitude@)
    }

    /// The bytes are in the canonical form.
    pub open spec fn wf(&self) -> bool {
        &&& self.magnitude@.len() > 0
        &&& self.magnitude@[0] == 0 ==> self.magnitude@.len() == 1
        &&& self.negative ==> self.magnitude@[0] != 0
    }

    /// Whether the value is zero.
    pub fn is_zero(&self) -> (res: bool)
        requires
            self.wf(),
        ensures
            res == (self.value() == 0),
    {
        proof {
            lemma_canonical_zero(self.magnitude@);
        }
        self.magnitude[0] == 0
    }

    /// Whether the value is one.
    pub fn is_one(&self) -> (res: bool)
        requires
            self.wf(),
        ensures
            res == (self.value() == 1),
    {
        proof {
            lemma_canonical_small(self.magnitude@);
        }
        !self.negative && self.magnitude.len() == 1 && self.magnitude[0] == 1
    }

    /// A copy of this number.
    pub fn copy(&self) -> (res: Number)
        ensures
            res.negative == self.negative,
            res.magnitude@ == self.magnitude@,
    {
        Number { negative: self.negative, magnitude: self.magnitude.clone() }
    }

    /// Whether two numbers are written the same.
    pub fn same(&self, other: &Number) -> (res: bool)
        ensures
            res == (self.negative == other.negative && self.magnitude@ == other.magnitude@),
    {
        if self.negative != other.negative || self.magnitude.len() != other.magnitude.len() {
            return false;
        }
        let mut i: usize = 0;
        while i < self.magnitude.len()
            invariant
                i <= self.magnitude@.len(),
                self.magnitude@.len() == other.magnitude@.len(),
                forall|j: int| 0 <= j < i ==> self.magnitude@[j] == other.magnitude@[j],
            decreases self.magnitude@.len() - i,
        {
            if self.magnitude[i] != other.magnitude[i] {
                return false;
            }
            i = i + 1;
        }
        assert(self.magnitude@ =~= other.magnitude@);
        true
    }
}

impl Number {
    /// The number `v`.
    pub fn from_u64(v: u64) -> (res: Number)
        ensures
            res.wf(),
            res.value() == v as int,
    {
        if v == 0 {
            let zero: Vec<u8> = vec![0u8];
            assert(zero@.drop_last() =~= Seq::<u8>::empty());
            assert(be_value(zero@.drop_last()) == 0);
            assert(be_value(zero@) == zero@.last());
            return Number { negative: false, magnitude: zero };
        }
        let mut bytes: Vec<u8> = Vec::new();
        let mut rest: u64 = v;
        // little-endian first
        while rest > 0
            invariant
                be_value(bytes@.reverse()) as int + rest as int * pow256(bytes@.len()) == v as int,
                bytes@.len() > 0 ==> (bytes@.last() != 0 || rest > 0),
                bytes@.len() > 0 || rest == v,
                v > 0,
            decreases rest,
        {
            let ghost old_bytes = bytes@;
            bytes.push((rest % 256) as u8);
            proof {
                lemma_be_value_reverse_push(old_bytes, (rest % 256) as u8);
                lemma_pow256_step(old_bytes.len());
                assert(rest as int == (rest / 256) as int * 256 + (rest % 256) as int);
                assert((rest / 256) as int * pow256(bytes@.len()) == (rest / 256) as int * 256 * pow256(old_bytes.len())) by (nonlinear_arith)
                    requires pow256(bytes@.len()) == 256 * pow256(old_bytes.len());
                assert(rest as int * pow256(old_bytes.len()) == ((rest / 256) as int * 256 + (rest % 256) as int) * pow256(old_bytes.len()));
                assert(((rest / 256) as int * 256 + (rest % 256) as int) * pow256(old_bytes.len())
                    == (rest / 256) as int * 256 * pow256(old_bytes.len()) + (rest % 256) as int * pow256(old_bytes.len())) by (nonlinear_arith);
            }
            rest = rest / 256;
        }
        let mut magnitude: Vec<u8> = Vec::new();
        let mut i: usize = bytes.len();
        while i > 0
            invariant
                i <= bytes@.len(),
                magnitude@ == bytes@.reverse().take((bytes@.len() - i) as int),
            decreases i,
        {
            magnitude.push(bytes[i - 1]);
            i = i - 1;
            assert(magnitude@ =~= bytes@.reverse().take((bytes@.len() - i) as int));
        }
        assert(bytes@.reverse().take(bytes@.len() as int) =~= bytes@.reverse());
        proof {
            assert(magnitude@[0] == bytes@.last());
        }
        Number { negative: false, magnitude }
    }
}

/// 256 to the power `n`.
pub open spec fn pow256(n: nat) -> int
    decreases n,
{
    if n == 0 { 1 } else { 256 * pow256((n - 1) as nat) }
}

proof fn lemma_pow256_step(n: nat)
    ensures
        pow256(n + 1) == 256 * pow256(n),
{
}

/// A byte pushed onto little-endian bytes becomes the new most significant
/// byte.
pub proof fn lemma_be_value_reverse_push(le: Seq<u8>, b: u8)
    ensures
        be_value(le.push(b).reverse()) == be_value(le.reverse()) + b as int * pow256(le.len()),
    decreases le.len(),
{
    if le.len() == 0 {
        assert(le.push(b).reverse() =~= seq![b]);
        assert(seq![b].drop_last() =~= Seq::<u8>::empty());
        assert(le.reverse() =~= Seq::<u8>::empty());
    } else {
        let rest = le.drop_first();
        assert(le.push(b).reverse().drop_last() =~= rest.push(b).reverse());
        assert(le.push(b).reverse().last() == le[0]);
        assert(le.reverse().drop_last() =~= rest.reverse());
        assert(le.reverse().last() == le[0]);
        lemma_be_value_reverse_push(rest, b);
        lemma_pow256_step(rest.len());
        assert(b as int * pow256(le.len()) == 256 * (b as int * pow256(rest.len()))) by (nonlinear_arith)
            requires pow256(le.len()) == 256 * pow256(rest.len());
    }
}

/// The value of big-endian bytes is at least their first byte times the
/// weight of its position.
pub proof fn lemma_be_value_lower(bytes: Seq<u8>)
    requires
        bytes.len() > 0,
    ensures
        be_value(bytes) >= bytes[0] as int * pow256((bytes.len() - 1) as nat),
    decreases bytes.len(),
{
    if bytes.len() > 1 {
        let init = bytes.drop_last();
        lemma_be_value_lower(init);
        assert(init[0] == bytes[0]);
        lemma_pow256_step((init.len() - 1) as nat);
        assert(bytes[0] as int * pow256((bytes.len() - 1) as nat) == (bytes[0] as int * pow256((init.len() - 1) as nat)) * 256) by (nonlinear_arith)
            requires pow256((bytes.len() - 1) as nat) == 256 * pow256((init.len() - 1) as nat);
    } else {
        assert(bytes.drop_last().len() == 0);
    }
}

/// Powers of 256 are positive, and at least 256 past the first.
pub proof fn lemma_pow256_lower(n: nat)
    ensures
        pow256(n) >= 1,
        n >= 1 ==> pow256(n) >= 256,
    decreases n,
{
    if n > 0 {
        lemma_pow256_lower((n - 1) as nat);
    }
}

/// Canonical bytes have value zero exactly when they are the single byte 0.
pub proof fn lemma_canonical_zero(bytes: Seq<u8>)
    requires
        bytes.len() > 0,
        bytes[0] == 0 ==> bytes.len() == 1,
    ensures
        (be_value(bytes) == 0) == (bytes[0] == 0),
{
    lemma_be_value_lower(bytes);
    lemma_pow256_lower((bytes.len() - 1) as nat);
    if bytes[0] == 0 {
        assert(bytes.drop_last().len() == 0);
        assert(be_value(bytes.drop_last()) == 0);
        assert(bytes.last() == bytes[0]);
    } else {
        assert(bytes[0] as int * pow256((bytes.len() - 1) as nat) >= 1) by (nonlinear_arith)
            requires bytes[0] as int >= 1, pow256((bytes.len() - 1) as nat) >= 1;
    }
}

/// Canonical bytes have value one exactly when they are the single byte 1.
pub proof fn lemma_canonical_small(bytes: Seq<u8>)
    requires
        bytes.len() > 0,
        bytes[0] == 0 ==> bytes.len() == 1,
    ensures
        (be_value(bytes) == 1) == (bytes.len() == 1 && bytes[0] == 1),
{
    lemma_be_value_lower(bytes);
    lemma_pow256_lower((bytes.len() - 1) as nat);
    if bytes.len() == 1 {
        assert(bytes.drop_last().len() == 0);
        assert(be_value(bytes.drop_last()) == 0);
        assert(bytes.last() == bytes[0]);
    } else {
        assert(bytes[0] as int * pow256((bytes.len() - 1) as nat) >= 256) by (nonlinear_arith)
            requires bytes[0] as int >= 1, pow256((bytes.len() - 1) as nat) >= 256;
    }
}

/// The decimal text of an integer.
pub open spec fn int_text(v: int) -> Seq<char> {
    if v < 0 {
        seq!['-'] + crate::text::decimal((-v) as nat)
    } else {
        crate::text::decimal(v as nat)
    }
}

/// The decimal text of a number, by the `Display` of `num_bigint::BigInt`.
#[verifier::external_body]
pub(crate) fn number_text(n: &Number) -> (res: String)
    ensures
        res@ == int_text(n.value()),
{
    let sign = if n.negative { Minus } else { Plus };
    num_bigint::BigInt::from_bytes_be(sign, &n.magnitude).to_string()
}

/// The value of big-endian bytes after others is that of the first part
/// shifted by the length of the second, plus that of the second.
pub proof fn lemma_be_value_append(a: Seq<u8>, b: Seq<u8>)
    ensures
        be_value(a + b) == be_value(a) * pow256(b.len()) + be_value(b),
    decreases b.len(),
{
    if b.len() == 0 {
        assert(a + b =~= a);
    } else {
        let init = b.drop_last();
        lemma_be_value_append(a, init);
        assert((a + b).drop_last() =~= a + init);
        assert((a + b).last() == b.last());
        lemma_pow256_step(init.len());
        assert((be_value(a) * pow256(init.len()) + be_value(init)) * 256 + b.last()
            == be_value(a) * pow256(b.len()) + (be_value(init) * 256 + b.last())) by (nonlinear_arith)
            requires pow256(b.len()) == 256 * pow256(init.len());
    }
}

/// Bytes that are all zero have value zero.
pub proof fn lemma_be_value_zeros(a: Seq<u8>)
    requires
        forall|i: int| 0 <= i < a.len() ==> a[i] == 0,
    ensures
        be_value(a) == 0,
    decreases a.len(),
{
    if a.len() > 0 {
        lemma_be_value_zeros(a.drop_last());
    }
}

impl Number {
    /// The non-negative number whose big-endian bytes are `bytes`, leading
    /// zeros and all.
    pub fn from_be_bytes(bytes: &[u8]) -> (res: Number)
        ensures
            res.wf(),
            res.value() == be_value(bytes@),
    {
        let mut i: usize = 0;
        while i < bytes.len() && bytes[i] == 0
            invariant
                i <= bytes@.len(),
                forall|j: int| 0 <= j < i ==> bytes@[j] == 0,
            decreases bytes@.len() - i,
        {
            i = i + 1;
        }
        proof {
            lemma_be_value_zeros(bytes@.take(i as int));
            lemma_be_value_append(bytes@.take(i as int), bytes@.skip(i as int));
            assert(bytes@.take(i as int) + bytes@.skip(i as int) =~= bytes@);
        }
        if i == bytes.len() {
            return Number::from_u64(0);
        }
        let mut magnitude: Vec<u8> = Vec::new();
        let mut k: usize = i;
        while k < bytes.len()
            invariant
                i <= k <= bytes@.len(),
                magnitude@ == bytes@.subrange(i as int, k as int),
            decreases bytes@.len() - k,
        {
            magnitude.push(bytes[k]);
            k = k + 1;
            assert(magnitude@ =~= bytes@.subrange(i as int, k as int));
        }
        assert(magnitude@ =~= bytes@.skip(i as int));
        Number { negative: false, magnitude }
    }
}

/// Whether a character is a decimal digit.
pub open spec fn is_digit(c: char) -> bool {
    '0' <= c <= '9'
}

/// Whether every character is a decimal digit.
pub open spec fn all_digits(s: Seq<char>) -> bool {
    forall|i: int| 0 <= i < s.len() ==> is_digit(#[trigger] s[i])
}

/// The value of a string of decimal digits.
pub open spec fn decimal_value(s: Seq<char>) -> nat
    decreases s.len(),
{
    if s.len() == 0 {
        0
    } else {
        decimal_value(s.drop_last()) * 10 + (s.last() as nat - '0' as nat) as nat
    }
}

/// The fewest bits that write `v`.
pub open spec fn bit_length(v: nat) -> nat
    decreases v,
{
    if v == 0 {
        0
    } else {
        1 + bit_length(v / 2)
    }
}

/// The absolute value.
pub open spec fn abs(v: int) -> nat {
    if v < 0 { (-v) as nat } else { v as nat }
}

/// The integer that a string of decimal digits writes, by the `FromStr` of
/// `num_bigint::BigInt`: for a non-empty string of decimal digits, their
/// value; `to_bytes_be` hands back canonical bytes (a single 0 for zero,
/// otherwise no leading zero byte).
#[verifier::external_body]
pub(crate) fn parse_decimal(s: &str) -> (res: Number)
    requires
        s@.len() > 0,
        all_digits(s@),
    ensures
        res.wf(),
        res.value() == decimal_value(s@),
{
    let (sign, magnitude) = BigInt::from_str(s).unwrap().to_bytes_be();
    Number { negative: matches!(sign, Minus), magnitude }
}

/// The value of a string of hexadecimal digits, upper or lower case.
pub open spec fn hex_value(s: Seq<char>) -> nat
    decreases s.len(),
{
    if s.len() == 0 {
        0
    } else {
        hex_value(s.drop_last()) * 16 + crate::strings::hex_digit_value(s.last())->0 as nat
    }
}

/// Whether every character is a hexadecimal digit.
pub open spec fn all_hex_digits(s: Seq<char>) -> bool {
    forall|i: int| 0 <= i < s.len() ==> (#[trigger] crate::strings::hex_digit_value(s[i])) is Some
}

/// The integer that a string of hexadecimal digits writes, by
/// `Num::from_str_radix` of `num_bigint::BigInt` with radix 16.
#[verifier::external_body]
pub(crate) fn parse_hex(s: &str) -> (res: Number)
    requires
        s@.len() > 0,
        all_hex_digits(s@),
    ensures
        res.wf(),
        res.value() == hex_value(s@),
{
    let (sign, magnitude) = BigInt::from_str_radix(s, 16).unwrap().to_bytes_be();
    Number { negative: matches!(sign, Minus), magnitude }
}

/// The product of two numbers, by `Mul` of `num_bigint::BigInt`.
#[verifier::external_body]
pub(crate) fn number_mul(a: &Number, b: &Number) -> (res: Number)
    ensures
        res.wf(),
        res.value() == a.value() * b.value(),
{
    let x = BigInt::from_bytes_be(if a.negative { Minus } else { Plus }, &a.magnitude);
    let y = BigInt::from_bytes_be(if b.negative { Minus } else { Plus }, &b.magnitude);
    let (sign, magnitude) = (x * y).to_bytes_be();
    Number { negative: matches!(sign, Minus), magnitude }
}

/// A number raised to a power, by `num_bigint::BigInt::pow`.
#[verifier::external_body]
pub(crate) fn number_pow(a: &Number, exponent: u32) -> (res: Number)
    ensures
        res.wf(),
        res.value() == pow(a.value(), exponent as nat),
{
    let x = BigInt::from_bytes_be(if a.negative { Minus } else { Plus }, &a.magnitude);
    let (sign, magnitude) = x.pow(exponent).to_bytes_be();
    Number { negative: matches!(sign, Minus), magnitude }
}

/// A number plus a small one, by `Add<u32>` of `num_bigint::BigInt`.
#[verifier::external_body]
pub(crate) fn number_add_u32(a: &Number, b: u32) -> (res: Number)
    ensures
        res.wf(),
        res.value() == a.value() + b,
{
    let x = BigInt::from_bytes_be(if a.negative { Minus } else { Plus }, &a.magnitude);
    let (sign, magnitude) = (x + b).to_bytes_be();
    Number { negative: matches!(sign, Minus), magnitude }
}

/// The fewest bits that write the magnitude of a number, by
/// `num_bigint::BigInt::bits`.
#[verifier::external_body]
pub(crate) fn number_bits(a: &Number) -> (res: u64)
    ensures
        res == bit_length(abs(a.value())),
{
    BigInt::from_bytes_be(if a.negative { Minus } else { Plus }, &a.magnitude).bits()
}

/// A rational number as `num_rational` keeps it: numerator and positive
/// denominator in lowest terms.
#[derive(Debug)]
pub struct Rational {
    pub numer: Number,
    pub denom: Number,
}

/// Whether `k` divides `v`.
pub open spec fn divides(k: int, v: int) -> bool {
    v % k == 0
}

/// `numer / denom` is `n / d` in lowest terms, with a positive denominator.
pub open spec fn lowest_terms(numer: int, denom: int, n: int, d: int) -> bool {
    &&& denom > 0
    &&& numer * d == n * denom
    &&& forall|k: int| k > 1 ==> !(#[trigger] divides(k, numer) && divides(k, denom))
}

impl Rational {
    /// Both parts are canonical.
    pub open spec fn wf(&self) -> bool {
        self.numer.wf() && self.denom.wf()
    }

    /// The rational number zero.
    pub fn zero() -> (res: Rational)
        ensures
            res.wf(),
            res.numer.value() == 0,
            res.denom.value() == 1,
    {
        Rational { numer: Number::from_u64(0), denom: Number::from_u64(1) }
    }

    /// Whether this is an integer: whether the denominator is one.
    pub fn is_integer(&self) -> (res: bool)
        requires
            self.wf(),
        ensures
            res == (self.denom.value() == 1),
    {
        self.denom.is_one()
    }
}

/// The fraction `numer / denom` in lowest terms, by
/// `num_rational::Ratio::new`, which divides both by their greatest common
/// divisor and makes the denominator positive.
#[verifier::external_body]
pub(crate) fn rational_new(numer: &Number, denom: &Number) -> (res: Rational)
    requires
        denom.value() != 0,
    ensures
        res.wf(),
        lowest_terms(res.numer.value(), res.denom.value(), numer.value(), denom.value()),
{
    let x = BigInt::from_bytes_be(if numer.negative { Minus } else { Plus }, &numer.magnitude);
    let y = BigInt::from_bytes_be(if denom.negative { Minus } else { Plus }, &denom.magnitude);
    let r = BigRational::new(x, y);
    let (ns, nm) = r.numer().to_bytes_be();
    let (ds, dm) = r.denom().to_bytes_be();
    let negative = matches!(ns, Minus);
    Rational { numer: Number { negative, magnitude: nm }, denom: Number { negative: matches!(ds, Minus), magnitude: dm } }
}

/// A fraction times an integer, in lowest terms, by `Mul<BigInt>` of
/// `num_rational::BigRational`.
#[verifier::external_body]
pub(crate) fn rational_mul(r: &Rational, n: &Number) -> (res: Rational)
    requires
        r.denom.value() != 0,
    ensures
        res.wf(),
        lowest_terms(res.numer.value(), res.denom.value(), r.numer.value() * n.value(), r.denom.value()),
{
    let a = BigInt::from_bytes_be(if r.numer.negative { Minus } else { Plus }, &r.numer.magnitude);
    let b = BigInt::from_bytes_be(if r.denom.negative { Minus } else { Plus }, &r.denom.magnitude);
    let x = BigInt::from_bytes_be(if n.negative { Minus } else { Plus }, &n.magnitude);
    let p = BigRational::new_raw(a, b) * x;
    let (ns, nm) = p.numer().to_bytes_be();
    let (ds, dm) = p.denom().to_bytes_be();
    let negative = matches!(ns, Minus);
    Rational { numer: Number { negative, magnitude: nm }, denom: Number { negative: matches!(ds, Minus), magnitude: dm } }
}

/// The value of a `u8` written in decimal digits after an optional `+`,
/// as `u8::from_str` reads it; `None` where it reads none.
pub open spec fn u8_text_value(s: Seq<char>) -> Option<u8> {
    let digits = if s.len() > 0 && s[0] == '+' { s.drop_first() } else { s };
    if digits.len() > 0 && all_digits(digits) && decimal_value(digits) <= 255 {
        Some(decimal_value(digits) as u8)
    } else {
        None
    }
}

/// Digits after others: the value of the first part shifted by the length
/// of the second, plus that of the second.
pub proof fn lemma_decimal_append(a: Seq<char>, b: Seq<char>)
    ensures
        decimal_value(a + b) == decimal_value(a) * pow(10, b.len()) + decimal_value(b),
    decreases b.len(),
{
    if b.len() == 0 {
        assert(a + b =~= a);
        vstd::arithmetic::power::lemma_pow0(10);
    } else {
        let init = b.drop_last();
        lemma_decimal_append(a, init);
        assert((a + b).drop_last() =~= a + init);
        assert((a + b).last() == b.last());
        vstd::arithmetic::power::lemma_pow1(10);
        vstd::arithmetic::power::lemma_pow_adds(10, init.len(), 1);
        let d = (b.last() as nat - '0' as nat) as nat;
        assert((decimal_value(a) * pow(10, init.len()) + decimal_value(init)) * 10 + d
            == decimal_value(a) * pow(10, b.len()) + (decimal_value(init) * 10 + d)) by (nonlinear_arith)
            requires pow(10, b.len()) == pow(10, init.len()) * 10;
    }
}

/// Digits that are all `0` have value zero.
pub proof fn lemma_decimal_zeros(a: Seq<char>)
    requires
        forall|i: int| 0 <= i < a.len() ==> a[i] == '0',
    ensures
        decimal_value(a) == 0,
    decreases a.len(),
{
    if a.len() > 0 {
        lemma_decimal_zeros(a.drop_last());
    }
}

/// A string of digits is worth at least any of its prefixes.
pub proof fn lemma_decimal_prefix(s: Seq<char>, k: int)
    requires
        0 <= k <= s.len(),
        all_digits(s),
    ensures
        decimal_value(s.take(k)) <= decimal_value(s),
    decreases s.len() - k,
{
    if k < s.len() {
        lemma_decimal_prefix(s, k + 1);
        assert(s.take(k + 1).drop_last() =~= s.take(k));
        assert(is_digit(s[k]));
    } else {
        assert(s.take(k) =~= s);
    }
}

/// Read a `u8` from the characters of `s` from `start` on, as
/// `u8::from_str` does.
pub fn parse_u8(s: &Vec<char>, start: usize) -> (res: Option<u8>)
    requires
        start <= s@.len(),
    ensures
        res == u8_text_value(s@.skip(start as int)),
{
    let ghost text = s@.skip(start as int);
    let mut first = start;
    if start < s.len() && s[start] == '+' {
        first = start + 1;
    }
    let ghost digits = s@.skip(first as int);
    assert(digits =~= (if text.len() > 0 && text[0] == '+' { text.drop_first() } else { text }));
    if first == s.len() {
        return None;
    }
    let mut acc: u32 = 0;
    let mut i: usize = first;
    while i < s.len()
        invariant
            first <= i <= s@.len(),
            first < s@.len(),
            digits == s@.skip(first as int),
            text == s@.skip(start as int),
            digits == (if text.len() > 0 && text[0] == '+' { text.drop_first() } else { text }),
            all_digits(digits.take(i - first)),
            acc == decimal_value(digits.take(i - first)),
            acc <= 255,
        decreases s@.len() - i,
    {
        let c = s[i];
        if c < '0' || c > '9' {
            assert(!is_digit(digits[i - first]));
            return None;
        }
        let d = (c as u32) - ('0' as u32);
        assert(digits.take(i - first + 1).drop_last() =~= digits.take(i - first));
        acc = acc * 10 + d;
        i = i + 1;
        assert(all_digits(digits.take(i - first)));
        if acc > 255 {
            proof {
                if all_digits(digits) {
                    lemma_decimal_prefix(digits, i - first);
                }
            }
            return None;
        }
    }
    assert(digits.take(i - first) =~= digits);
    Some(acc as u8)
}

/// A fraction in lowest terms of `n / d` has denominator one exactly when
/// `d` divides `n`, and then its numerator is the quotient.
pub proof fn lemma_lowest_terms_integer(p: int, q: int, n: int, d: int)
    requires
        d > 0,
        lowest_terms(p, q, n, d),
    ensures
        (q == 1) == (n % d == 0),
        q == 1 ==> p == n / d,
{
    if q == 1 {
        assert(n == p * d);
        vstd::arithmetic::div_mod::lemma_mod_multiples_basic(p, d);
        assert(n == d * p) by (nonlinear_arith) requires n == p * d;
        vstd::arithmetic::div_mod::lemma_div_multiples_vanish(p, d);
    }
    if n % d == 0 {
        vstd::arithmetic::div_mod::lemma_fundamental_div_mod(n, d);
        let k = n / d;
        assert(p * d == (k * q) * d) by (nonlinear_arith) requires p * d == n * q, n == d * k;
        assert(p == k * q) by (nonlinear_arith) requires p * d == (k * q) * d, d > 0;
        vstd::arithmetic::div_mod::lemma_mod_multiples_basic(k, q);
        vstd::arithmetic::div_mod::lemma_mod_multiples_basic(1, q);
        assert(divides(q, p));
        assert(divides(q, q));
    }
}

/// A fraction in lowest terms of `a / b`, where `a / b` equals `n / d`, is
/// one of `n / d` too.
pub proof fn lemma_lowest_terms_same_value(p: int, q: int, a: int, b: int, n: int, d: int)
    requires
        lowest_terms(p, q, a, b),
        b > 0,
        a * d == n * b,
    ensures
        lowest_terms(p, q, n, d),
{
    assert(p * d * b == n * q * b) by (nonlinear_arith) requires p * b == a * q, a * d == n * b;
    assert(p * d == n * q) by (nonlinear_arith) requires p * d * b == n * q * b, b > 0;
}

} // verus!
