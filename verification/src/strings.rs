//! Escape sequences in string literals.

use vstd::prelude::*;
use vstd::utf8::*;
use crate::diagnostics::{Diagnostic, DiagnosticView, Diagnostics, Level, Loc, error_view};
use crate::text::{push_str, string_from_chars};
use vstd::arithmetic::power::pow;
use crate::utf8::{byte_offset, is_scalar_value, lemma_byte_offset_mono, lemma_encode_utf8_take_step, push_utf8, utf8_width};

verus! {

/// The characters of a string together with the byte offset of each, and a
/// position: the index of the next character to hand out.
pub struct CharIndices {
    chars: Vec<char>,
    offsets: Vec<usize>,
    pos: usize,
}

impl CharIndices {
    /// The characters.
    pub closed spec fn chars(&self) -> Seq<char> {
        self.chars@
    }

    /// The index of the next character to hand out.
    pub closed spec fn pos(&self) -> int {
        self.pos as int
    }

    /// The offsets are those of the characters in the UTF-8 encoding, and
    /// the position is within the characters.
    pub closed spec fn wf(&self) -> bool {
        &&& self.offsets@.len() == self.chars@.len()
        &&& self.pos <= self.chars@.len()
        &&& forall|k: int| 0 <= k < self.chars@.len()
            ==> #[trigger] self.offsets@[k] == byte_offset(self.chars@, k)
        &&& encode_utf8(self.chars@).len() <= usize::MAX
    }

    /// Walk the characters of `s` from the first.
    pub fn new(s: &str) -> (res: CharIndices)
        requires
            encode_utf8(s@).len() <= usize::MAX,
        ensures
            res.wf(),
            res.chars() == s@,
            res.pos() == 0,
    {
        let chars = crate::text::chars_of(s);
        let mut offsets: Vec<usize> = Vec::new();
        let mut offset: usize = 0;
        let mut k: usize = 0;
        while k < chars.len()
            invariant
                chars@ == s@,
                k <= chars@.len(),
                offsets@.len() == k,
                offset == byte_offset(chars@, k as int),
                encode_utf8(chars@).len() <= usize::MAX,
                forall|j: int| 0 <= j < k ==> #[trigger] offsets@[j] == byte_offset(chars@, j),
            decreases chars@.len() - k,
        {
            offsets.push(offset);
            proof {
                vstd::utf8::char_is_scalar(chars@[k as int]);
                lemma_encode_utf8_take_step(chars@, k as int);
                lemma_byte_offset_mono(chars@, k as int + 1, chars@.len() as int);
            }
            let width = utf8_width(chars[k] as u32);
            offset = offset + width;
            k = k + 1;
        }
        CharIndices { chars, offsets, pos: 0 }
    }

    /// The next character and its byte offset, if any is left.
    pub fn next(&mut self) -> (res: Option<(usize, char)>)
        requires
            old(self).wf(),
        ensures
            final(self).wf(),
            final(self).chars() == old(self).chars(),
            old(self).pos() < old(self).chars().len() ==> {
                &&& final(self).pos() == old(self).pos() + 1
                &&& res == Some((
                    byte_offset(old(self).chars(), old(self).pos()) as usize,
                    old(self).chars()[old(self).pos()],
                ))
            },
            old(self).pos() >= old(self).chars().len() ==> {
                &&& final(self).pos() == old(self).pos()
                &&& res is None
            },
    {
        if self.pos < self.chars.len() {
            let i = self.pos;
            self.pos = self.pos + 1;
            Some((self.offsets[i], self.chars[i]))
        } else {
            None
        }
    }
}

/// The value of a hexadecimal digit.
pub open spec fn hex_digit_value(c: char) -> Option<u32> {
    if '0' <= c <= '9' {
        Some((c as u32 - '0' as u32) as u32)
    } else if 'a' <= c <= 'f' {
        Some((c as u32 - 'a' as u32 + 10) as u32)
    } else if 'A' <= c <= 'F' {
        Some((c as u32 - 'A' as u32 + 10) as u32)
    } else {
        None
    }
}

/// The value of `c` as a hexadecimal digit.
pub fn to_hex_digit(c: char) -> (res: Option<u32>)
    ensures
        res == hex_digit_value(c),
{
    if '0' <= c && c <= '9' {
        Some(c as u32 - '0' as u32)
    } else if 'a' <= c && c <= 'f' {
        Some(c as u32 - 'a' as u32 + 10)
    } else if 'A' <= c && c <= 'F' {
        Some(c as u32 - 'A' as u32 + 10)
    } else {
        None
    }
}

/// Reading `n` more hexadecimal digits of `s` from index `p` onto `acc`:
/// the value, or the byte offset of the character after the one that is not
/// a digit (`usize::MAX` where there is none); and the index after the
/// characters consumed. On a bad digit the character after it is consumed too.
pub open spec fn digits_spec(s: Seq<char>, p: int, n: nat, acc: u32) -> (Result<u32, usize>, int)
    decreases n,
{
    if n == 0 {
        (Ok(acc), p)
    } else if 0 <= p < s.len() {
        match hex_digit_value(s[p]) {
            Some(v) => digits_spec(s, p + 1, (n - 1) as nat, ((acc as int * 16) % 0x1_0000_0000 + v) as u32),
            None => if p + 1 < s.len() {
                (Err(byte_offset(s, p + 1) as usize), p + 2)
            } else {
                (Err(usize::MAX), p + 1)
            },
        }
    } else {
        (Err(usize::MAX), p)
    }
}

/// Reading digits moves forward and stays within the characters.
pub proof fn lemma_digits_range(s: Seq<char>, p: int, n: nat, acc: u32)
    requires
        0 <= p <= s.len(),
    ensures
        p <= digits_spec(s, p, n, acc).1 <= s.len(),
        n > 0 && p < s.len() ==> p < digits_spec(s, p, n, acc).1,
    decreases n,
{
    if n > 0 && p < s.len() {
        if let Some(v) = hex_digit_value(s[p]) {
            lemma_digits_range(s, p + 1, (n - 1) as nat, ((acc as int * 16) % 0x1_0000_0000 + v) as u32);
        }
    }
}

/// The `n` characters of `s` from index `p` are all hexadecimal digits.
pub open spec fn hex_run(s: Seq<char>, p: int, n: nat) -> bool {
    &&& 0 <= p
    &&& p + n <= s.len()
    &&& forall|k: int| p <= k < p + n ==> (#[trigger] hex_digit_value(s[k])) is Some
}

/// The base-16 value of the `n` hexadecimal digits of `s` from index `p`.
pub open spec fn hex_run_value(s: Seq<char>, p: int, n: nat) -> int
    decreases n,
{
    if n == 0 {
        0
    } else {
        hex_digit_value(s[p])->0 as int * pow(16, (n - 1) as nat) + hex_run_value(s, p + 1, (n - 1) as nat)
    }
}

/// The value of `n` hexadecimal digits is below 16 to the `n`.
proof fn lemma_hex_run_bound(s: Seq<char>, p: int, n: nat)
    requires
        hex_run(s, p, n),
    ensures
        0 <= hex_run_value(s, p, n) < pow(16, n),
    decreases n,
{
    if n > 0 {
        let k = pow(16, (n - 1) as nat);
        let d = hex_digit_value(s[p])->0 as int;
        assert(hex_digit_value(s[p]) is Some);
        assert(d <= 15);
        assert(hex_run(s, p + 1, (n - 1) as nat)) by {
            assert forall|j: int| p + 1 <= j < p + 1 + (n - 1) implies (#[trigger] hex_digit_value(s[j])) is Some by {
                assert(p <= j < p + n);
            }
        }
        lemma_hex_run_bound(s, p + 1, (n - 1) as nat);
        vstd::arithmetic::power::lemma_pow_positive(16, (n - 1) as nat);
        vstd::arithmetic::mul::lemma_mul_inequality(d, 15, k);
        vstd::arithmetic::mul::lemma_mul_inequality(0, d, k);
        assert(pow(16, n) == 16 * k) by {
            reveal(pow);
        }
    } else {
        reveal(pow);
    }
}

/// Reading `n` digits onto `acc` succeeds exactly on a run of `n`
/// hexadecimal digits, consumes them, and gives `acc` followed by their
/// value, modulo 2^32.
proof fn lemma_digits_value(s: Seq<char>, p: int, n: nat, acc: u32)
    requires
        0 <= p <= s.len(),
    ensures
        (digits_spec(s, p, n, acc).0 is Ok) == hex_run(s, p, n),
        hex_run(s, p, n) ==> {
            &&& digits_spec(s, p, n, acc).1 == p + n
            &&& digits_spec(s, p, n, acc).0->Ok_0 as int
                == (acc as int * pow(16, n) + hex_run_value(s, p, n)) % 0x1_0000_0000
        },
    decreases n,
{
    let m: int = 0x1_0000_0000;
    if n == 0 {
        assert(pow(16, 0) == 1) by {
            reveal(pow);
        }
        vstd::arithmetic::div_mod::lemma_small_mod(acc as nat, m as nat);
    } else if p < s.len() {
        match hex_digit_value(s[p]) {
            Some(v) => {
                assert(v <= 15);
                assert((acc << 4u32) as int == (acc as int * 16) % 0x1_0000_0000) by (bit_vector);
                assert((acc << 4u32) as int + 15 < 0x1_0000_0000) by (bit_vector);
                let a1 = ((acc as int * 16) % m + v) as u32;
                assert(a1 as int == (acc as int * 16) % m + v);
                lemma_digits_value(s, p + 1, (n - 1) as nat, a1);
                assert(hex_run(s, p, n) == hex_run(s, p + 1, (n - 1) as nat)) by {
                    if hex_run(s, p + 1, (n - 1) as nat) {
                        assert forall|j: int| p <= j < p + n implies (#[trigger] hex_digit_value(s[j])) is Some by {
                            if j > p {
                                assert(p + 1 <= j < p + 1 + (n - 1));
                            }
                        }
                    }
                    if hex_run(s, p, n) {
                        assert forall|j: int| p + 1 <= j < p + 1 + (n - 1) implies (#[trigger] hex_digit_value(s[j])) is Some by {
                            assert(p <= j < p + n);
                        }
                    }
                }
                if hex_run(s, p, n) {
                    let k = pow(16, (n - 1) as nat);
                    let r = hex_run_value(s, p + 1, (n - 1) as nat);
                    let x = acc as int * 16;
                    assert(pow(16, n) == 16 * k) by {
                        reveal(pow);
                    }
                    assert(x * k == acc as int * pow(16, n)) by {
                        vstd::arithmetic::mul::lemma_mul_is_associative(acc as int, 16, k);
                    }
                    assert(a1 as int * k == (x % m) * k + v * k) by {
                        vstd::arithmetic::mul::lemma_mul_is_distributive_add_other_way(k, x % m, v as int);
                    }
                    vstd::arithmetic::div_mod::lemma_mul_mod_noop_left(x, k, m);
                    vstd::arithmetic::div_mod::lemma_add_mod_noop((x % m) * k, v * k + r, m);
                    vstd::arithmetic::div_mod::lemma_add_mod_noop(x * k, v * k + r, m);
                    assert(hex_run_value(s, p, n) == v * k + r);
                }
            },
            None => {
                assert(!(hex_digit_value(s[p]) is Some));
            },
        }
    } else {
    }
}

/// Reading `n` hexadecimal digits succeeds exactly where the `n`
/// characters from `p` are hexadecimal digits. It then consumes exactly
/// them and gives their base-16 value modulo 2^32, which for up to eight
/// digits is the value itself.
pub proof fn law_get_digits_value(s: Seq<char>, p: int, n: nat)
    requires
        0 <= p <= s.len(),
    ensures
        (digits_spec(s, p, n, 0).0 is Ok) == hex_run(s, p, n),
        hex_run(s, p, n) ==> {
            &&& digits_spec(s, p, n, 0).1 == p + n
            &&& digits_spec(s, p, n, 0).0->Ok_0 as int == hex_run_value(s, p, n) % 0x1_0000_0000
            &&& 0 <= hex_run_value(s, p, n) < pow(16, n)
            &&& n <= 8 ==> digits_spec(s, p, n, 0).0->Ok_0 as int == hex_run_value(s, p, n)
        },
{
    lemma_digits_value(s, p, n, 0);
    if hex_run(s, p, n) {
        lemma_hex_run_bound(s, p, n);
        if n <= 8 {
            vstd::arithmetic::power::lemma_pow_increases(16, n, 8);
            assert(pow(16, 8) == 0x1_0000_0000) by {
                reveal_with_fuel(pow, 9);
            }
            vstd::arithmetic::div_mod::lemma_small_mod(hex_run_value(s, p, n) as nat, 0x1_0000_0000);
        }
    }
}

/// Get the hex digits for an escaped \x or \u. Returns either the value or
/// the offset of the character after the first one that is not a hex digit.
pub fn get_digits(input: &mut CharIndices, len: usize) -> (res: Result<u32, usize>)
    requires
        old(input).wf(),
    ensures
        final(input).wf(),
        final(input).chars() == old(input).chars(),
        (res, final(input).pos()) == digits_spec(old(input).chars(), old(input).pos(), len as nat, 0),
{
    let mut n: u32 = 0;
    let mut i: usize = 0;
    while i < len
        invariant
            input.wf(),
            input.chars() == old(input).chars(),
            i <= len,
            digits_spec(old(input).chars(), old(input).pos(), len as nat, 0)
                == digits_spec(input.chars(), input.pos(), (len - i) as nat, n),
        decreases len - i,
    {
        match input.next() {
            Some((_, ch)) => {
                match to_hex_digit(ch) {
                    Some(v) => {
                        assert((n << 4u32) as int == (n as int * 16) % 0x1_0000_0000) by (bit_vector);
                        assert(v <= 15);
                        assert((n << 4u32) as int + 15 < 0x1_0000_0000) by (bit_vector);
                        n = (n << 4u32) + v;
                        i = i + 1;
                    },
                    None => {
                        let offset = match input.next() {
                            Some((j, _)) => j,
                            None => usize::MAX,
                        };
                        return Err(offset);
                    },
                }
            },
            None => {
                return Err(usize::MAX);
            },
        }
    }
    Ok(n)
}

/// What unescaping a piece yields: whether it is valid, its bytes, and the
/// diagnostics reported for it.
pub type Unescaped = (bool, Seq<u8>, Seq<DiagnosticView>);

/// A piece followed by the rest.
pub open spec fn then(first: Unescaped, rest: Option<Unescaped>) -> Option<Unescaped> {
    match rest {
        Some(r) => Some((first.0 && r.0, first.1 + r.1, first.2 + r.2)),
        None => None,
    }
}

/// The location `[start + a, start + b)` in file `file_no`.
pub open spec fn offset_loc(file_no: usize, start: usize, a: int, b: int) -> Loc {
    Loc::File(file_no, (start + a) as usize, (start + b) as usize)
}

/// The message for an unknown escape character.
pub open spec fn unknown_escape_message(ch: char) -> Seq<char> {
    "unknown escape character '"@ + seq![ch] + "'"@
}

/// The byte a one-character escape stands for, if `c` names one.
pub open spec fn simple_escape(c: char) -> Option<u8> {
    if c == '\\' { Some(0x5cu8) }
    else if c == '\'' { Some(0x27u8) }
    else if c == '"' { Some(0x22u8) }
    else if c == 'b' { Some(0x08u8) }
    else if c == 'f' { Some(0x0cu8) }
    else if c == 'n' { Some(0x0au8) }
    else if c == 'r' { Some(0x0du8) }
    else if c == 't' { Some(0x09u8) }
    else if c == 'v' { Some(0x0bu8) }
    else { None }
}

/// The next piece of `s` at index `p`: one character, or one escape
/// sequence; what it yields, and the index after it. `None` where a
/// backslash ends the string.
pub open spec fn unescape_piece(s: Seq<char>, p: int, start: usize, file_no: usize) -> Option<(Unescaped, int)> {
    if s[p] != '\\' {
        Some(((true, encode_scalar(s[p] as u32), Seq::empty()), p + 1))
    } else if p + 1 >= s.len() {
        None
    } else {
        let c = s[p + 1];
        let i = byte_offset(s, p + 1);
        let len = encode_utf8(s).len() as int;
        if c == '\n' {
            Some(((true, Seq::empty(), Seq::empty()), p + 2))
        } else if simple_escape(c) is Some {
            Some(((true, seq![simple_escape(c)->0], Seq::empty()), p + 2))
        } else if c == 'x' || c == 'u' {
            let n: nat = if c == 'x' { 2 } else { 4 };
            let (r, q) = digits_spec(s, p + 2, n, 0);
            let piece = match r {
                Ok(v) => if c == 'x' {
                    (true, seq![v as u8], Seq::empty())
                } else if is_scalar(v) {
                    (true, encode_scalar(v), Seq::empty())
                } else {
                    (false, Seq::empty(), seq![error_view(offset_loc(file_no, start, i, i + 6), "Found an invalid unicode character"@)])
                },
                Err(offset) => (false, Seq::empty(), seq![error_view(
                    offset_loc(file_no, start, i, if len < offset { len } else { offset as int }),
                    if c == 'x' {
                        "\\x escape should be followed by two hex digits"@
                    } else {
                        "\\u escape should be followed by four hex digits"@
                    },
                )]),
            };
            Some((piece, q))
        } else {
            Some(((false, Seq::empty(), seq![error_view(
                offset_loc(file_no, start, i, i + encode_scalar(c as u32).len()),
                unknown_escape_message(c),
            )]), p + 2))
        }
    }
}

/// A piece moves forward and stays within the characters.
pub proof fn lemma_piece_advances(s: Seq<char>, p: int, start: usize, file_no: usize)
    requires
        0 <= p < s.len(),
        unescape_piece(s, p, start, file_no) is Some,
    ensures
        p < unescape_piece(s, p, start, file_no).unwrap().1 <= s.len(),
{
    if s[p] == '\\' && p + 1 < s.len() {
        lemma_digits_range(s, p + 2, 2, 0);
        lemma_digits_range(s, p + 2, 4, 0);
    }
}

/// Unescaping the characters of `s` from index `p` on, where `s` begins at
/// byte `start` of file `file_no`. `None` where a backslash ends the string.
pub open spec fn unescape_from(s: Seq<char>, p: int, start: usize, file_no: usize) -> Option<Unescaped>
    decreases s.len() - p,
{
    if p < 0 || p >= s.len() {
        Some((true, Seq::empty(), Seq::empty()))
    } else {
        match unescape_piece(s, p, start, file_no) {
            Some((piece, q)) => {
                proof {
                    lemma_piece_advances(s, p, start, file_no);
                }
                then(piece, unescape_from(s, q, start, file_no))
            },
            None => None,
        }
    }
}

/// Unescaping all of `s`.
pub open spec fn unescape_spec(s: Seq<char>, start: usize, file_no: usize) -> Option<Unescaped> {
    unescape_from(s, 0, start, file_no)
}

/// Text without a backslash from index `p` on unescapes to its UTF-8
/// bytes, valid and without diagnostics.
proof fn lemma_unescape_plain(s: Seq<char>, p: int, start: usize, file_no: usize)
    requires
        0 <= p <= s.len(),
        !s.contains('\\'),
    ensures
        unescape_from(s, p, start, file_no) == Some((true, encode_utf8(s.skip(p)), Seq::<DiagnosticView>::empty())),
    decreases s.len() - p,
{
    if p < s.len() {
        assert(s[p] != '\\');
        lemma_unescape_plain(s, p + 1, start, file_no);
        assert(s.skip(p).drop_first() =~= s.skip(p + 1));
        assert(s.skip(p)[0] == s[p]);
        assert(Seq::<DiagnosticView>::empty() + Seq::<DiagnosticView>::empty() =~= Seq::<DiagnosticView>::empty());
    } else {
        assert(s.skip(p) =~= Seq::<char>::empty());
    }
}

/// Text without a backslash unescapes to its UTF-8 bytes: it is valid, and
/// nothing is reported.
pub proof fn law_unescape_plain_text(s: Seq<char>, start: usize, file_no: usize)
    requires
        !s.contains('\\'),
    ensures
        unescape_spec(s, start, file_no) == Some((true, encode_utf8(s), Seq::<DiagnosticView>::empty())),
{
    lemma_unescape_plain(s, 0, start, file_no);
    assert(s.skip(0) =~= s);
}

/// A diagnostic of unescaping text that begins at byte `start` of file
/// `file_no`: an error at a range of that file from `start` on.
pub open spec fn unescape_diagnostic(d: DiagnosticView, start: usize, file_no: usize) -> bool {
    &&& d.level == Level::Error
    &&& d.loc matches Loc::File(f, a, b) && f == file_no && start <= a <= b
}

/// What unescaping reports: it is valid exactly where it reports nothing,
/// and each report is an error within the file, from `start` on.
pub open spec fn reports_well(u: Unescaped, start: usize, file_no: usize) -> bool {
    &&& u.0 <==> u.2.len() == 0
    &&& forall|i: int| 0 <= i < u.2.len() ==> unescape_diagnostic(#[trigger] u.2[i], start, file_no)
}

/// A bad digit is reported by the byte offset of a later character, or by
/// `usize::MAX` where the text ends.
proof fn lemma_digits_err_offset(s: Seq<char>, q: int, n: nat, acc: u32)
    requires
        0 <= q <= s.len(),
        encode_utf8(s).len() <= usize::MAX,
    ensures
        digits_spec(s, q, n, acc).0 matches Err(o) ==> o == usize::MAX
            || exists|j: int| q < j <= s.len() && o as int == byte_offset(s, j),
    decreases n,
{
    if n > 0 && q < s.len() {
        match hex_digit_value(s[q]) {
            Some(v) => {
                lemma_digits_err_offset(s, q + 1, (n - 1) as nat, ((acc as int * 16) % 0x1_0000_0000 + v) as u32);
            },
            None => {
                if q + 1 < s.len() {
                    lemma_byte_offset_mono(s, q + 1, s.len() as int);
                    assert(q < q + 1 <= s.len());
                }
            },
        }
    }
}

/// Each piece reports well.
proof fn lemma_piece_reports(s: Seq<char>, p: int, start: usize, file_no: usize)
    requires
        0 <= p < s.len(),
        unescape_piece(s, p, start, file_no) is Some,
        start + encode_utf8(s).len() + 6 <= usize::MAX,
    ensures
        reports_well((unescape_piece(s, p, start, file_no)->0).0, start, file_no),
{
    if s[p] == '\\' && p + 1 < s.len() {
        let c = s[p + 1];
        let i = byte_offset(s, p + 1);
        let len = encode_utf8(s).len() as int;
        lemma_byte_offset_mono(s, p + 1, s.len() as int);
        if c == 'x' || c == 'u' {
            let n: nat = if c == 'x' { 2 } else { 4 };
            lemma_digits_err_offset(s, p + 2, n, 0);
            if let Err(o) = digits_spec(s, p + 2, n, 0).0 {
                if o != usize::MAX {
                    let j = choose|j: int| p + 2 < j <= s.len() && o as int == byte_offset(s, j);
                    lemma_byte_offset_mono(s, p + 1, j);
                }
            }
        } else if !(c == '\n') && !(simple_escape(c) is Some) {
            lemma_encode_utf8_take_step(s, p + 1);
            lemma_byte_offset_mono(s, p + 2, s.len() as int);
        }
    }
}

/// Unescaping from any index on reports well.
proof fn lemma_unescape_from_reports(s: Seq<char>, p: int, start: usize, file_no: usize)
    requires
        0 <= p <= s.len(),
        unescape_from(s, p, start, file_no) is Some,
        start + encode_utf8(s).len() + 6 <= usize::MAX,
    ensures
        reports_well(unescape_from(s, p, start, file_no)->0, start, file_no),
    decreases s.len() - p,
{
    if p < s.len() {
        let (piece, q) = unescape_piece(s, p, start, file_no)->0;
        lemma_piece_advances(s, p, start, file_no);
        lemma_piece_reports(s, p, start, file_no);
        lemma_unescape_from_reports(s, q, start, file_no);
        let rest = unescape_from(s, q, start, file_no)->0;
        let all = piece.2 + rest.2;
        assert forall|i: int| 0 <= i < all.len() implies unescape_diagnostic(#[trigger] all[i], start, file_no) by {
            if i < piece.2.len() {
                assert(all[i] == piece.2[i]);
            } else {
                assert(all[i] == rest.2[i - piece.2.len()]);
            }
        }
    }
}

/// Unescaping only reports errors, each within the file from where the
/// text begins on, and the text is valid exactly where nothing is reported.
pub proof fn law_unescape_reports(s: Seq<char>, start: usize, file_no: usize)
    requires
        unescape_spec(s, start, file_no) is Some,
        start + encode_utf8(s).len() + 6 <= usize::MAX,
    ensures
        reports_well(unescape_spec(s, start, file_no)->0, start, file_no),
{
    lemma_unescape_from_reports(s, 0, start, file_no);
}

fn unknown_escape(ch: char) -> (res: String)
    ensures
        res@ == unknown_escape_message(ch),
{
    let mut v: Vec<char> = Vec::new();
    push_str(&mut v, "unknown escape character '");
    v.push(ch);
    push_str(&mut v, "'");
    string_from_chars(&v)
}

fn simple_escape_byte(c: char) -> (res: Option<u8>)
    ensures
        res == simple_escape(c),
{
    if c == '\\' { Some(0x5cu8) }
    else if c == '\'' { Some(0x27u8) }
    else if c == '"' { Some(0x22u8) }
    else if c == 'b' { Some(0x08u8) }
    else if c == 'f' { Some(0x0cu8) }
    else if c == 'n' { Some(0x0au8) }
    else if c == 'r' { Some(0x0du8) }
    else if c == 't' { Some(0x09u8) }
    else if c == 'v' { Some(0x0bu8) }
    else { None }
}

/// Unescape the piece at the position of `indeces`: append its bytes to
/// `bytes`, report its diagnostics, move past it and tell whether it is valid.
fn unescape_next(
    indeces: &mut CharIndices,
    start: usize,
    file_no: usize,
    len: usize,
    bytes: &mut Vec<u8>,
    diagnostics: &mut Diagnostics,
) -> (res: bool)
    requires
        old(indeces).wf(),
        0 <= old(indeces).pos() < old(indeces).chars().len(),
        unescape_piece(old(indeces).chars(), old(indeces).pos(), start, file_no) is Some,
        len == encode_utf8(old(indeces).chars()).len(),
        start + len + 6 <= usize::MAX,
    ensures
        final(indeces).wf(),
        final(indeces).chars() == old(indeces).chars(),
        ({
            let (piece, q) = unescape_piece(old(indeces).chars(), old(indeces).pos(), start, file_no)->0;
            &&& res == piece.0
            &&& final(bytes)@ == old(bytes)@ + piece.1
            &&& final(diagnostics)@ == old(diagnostics)@ + piece.2
            &&& final(indeces).pos() == q
        }),
{
    let ghost s = indeces.chars();
    let ghost p = indeces.pos();
    let (_, ch) = indeces.next().unwrap();
    if ch != '\\' {
        proof { vstd::utf8::char_is_scalar(ch); }
        push_utf8(bytes, ch as u32);
        assert(diagnostics@ =~= old(diagnostics)@ + Seq::<DiagnosticView>::empty());
        return true;
    }
    let (i, c) = indeces.next().unwrap();
    proof {
        lemma_byte_offset_mono(s, p + 1, s.len() as int);
        vstd::utf8::char_is_scalar(c);
    }
    assert(diagnostics@ =~= old(diagnostics)@ + Seq::<DiagnosticView>::empty());
    assert(bytes@ =~= old(bytes)@ + Seq::<u8>::empty());
    if c == '\n' {
        return true;
    }
    match simple_escape_byte(c) {
        Some(b) => {
            bytes.push(b);
            assert(bytes@ =~= old(bytes)@ + seq![b]);
            return true;
        },
        None => {},
    }
    if c == 'x' {
        match get_digits(indeces, 2) {
            Ok(v) => {
                bytes.push(v as u8);
                assert(bytes@ =~= old(bytes)@ + seq![v as u8]);
                true
            },
            Err(offset) => {
                let end = if len < offset { len } else { offset };
                diagnostics.push(Diagnostic::error(
                    Loc::File(file_no, start + i, start + end),
                    String::from_str("\\x escape should be followed by two hex digits"),
                ));
                false
            },
        }
    } else if c == 'u' {
        match get_digits(indeces, 4) {
            Ok(codepoint) => {
                if is_scalar_value(codepoint) {
                    push_utf8(bytes, codepoint);
                    true
                } else {
                    diagnostics.push(Diagnostic::error(
                        Loc::File(file_no, start + i, start + i + 6),
                        String::from_str("Found an invalid unicode character"),
                    ));
                    false
                }
            },
            Err(offset) => {
                let end = if len < offset { len } else { offset };
                diagnostics.push(Diagnostic::error(
                    Loc::File(file_no, start + i, start + end),
                    String::from_str("\\u escape should be followed by four hex digits"),
                ));
                false
            },
        }
    } else {
        let width = utf8_width(c as u32);
        diagnostics.push(Diagnostic::error(
            Loc::File(file_no, start + i, start + i + width),
            unknown_escape(c),
        ));
        false
    }
}

/// Unescape a string literal: the bytes it stands for, and whether every
/// escape in it is valid. Each invalid escape is reported as an error whose
/// location is relative to `start`, the offset of the literal in file `file_no`.
pub fn unescape(literal: &str, start: usize, file_no: usize, diagnostics: &mut Diagnostics) -> (res: (bool, Vec<u8>))
    requires
        unescape_spec(literal@, start, file_no) is Some,
        start + encode_utf8(literal@).len() + 6 <= usize::MAX,
    ensures
        ({
            let r = unescape_spec(literal@, start, file_no)->0;
            &&& res.0 == r.0
            &&& res.1@ == r.1
            &&& final(diagnostics)@ == old(diagnostics)@ + r.2
        }),
{
    let ghost s = literal@;
    let ghost total = unescape_spec(s, start, file_no)->0;
    let mut indeces = CharIndices::new(literal);
    let len = literal.len();
    let mut bytes: Vec<u8> = Vec::new();
    let mut valid = true;
    assert(old(diagnostics)@ + total.2 =~= diagnostics@ + total.2);
    assert(Seq::<u8>::empty() + total.1 =~= total.1);
    while indeces.pos < indeces.chars.len()
        invariant
            indeces.wf(),
            indeces.chars() == s,
            len == encode_utf8(s).len(),
            start + encode_utf8(s).len() + 6 <= usize::MAX,
            unescape_from(s, indeces.pos(), start, file_no) is Some,
            ({
                let r = unescape_from(s, indeces.pos(), start, file_no)->0;
                &&& total.0 == (valid && r.0)
                &&& total.1 == bytes@ + r.1
                &&& old(diagnostics)@ + total.2 == diagnostics@ + r.2
            }),
        decreases s.len() - indeces.pos(),
    {
        let ghost p = indeces.pos();
        let ghost bytes0 = bytes@;
        let ghost diags0 = diagnostics@;
        let ghost (piece, q) = unescape_piece(s, p, start, file_no)->0;
        proof { lemma_piece_advances(s, p, start, file_no); }
        let ghost rest = unescape_from(s, q, start, file_no)->0;
        let ok = unescape_next(&mut indeces, start, file_no, len, &mut bytes, diagnostics);
        valid = valid && ok;
        assert(bytes0 + (piece.1 + rest.1) =~= bytes@ + rest.1);
        assert(diags0 + (piece.2 + rest.2) =~= diagnostics@ + rest.2);
    }
    assert(bytes@ + Seq::<u8>::empty() =~= bytes@);
    assert(diagnostics@ + Seq::<DiagnosticView>::empty() =~= diagnostics@);
    (valid, bytes)
}

} // verus!
