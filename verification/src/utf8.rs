//! UTF-8 encoding of characters, and byte offsets of characters in a string.

use vstd::prelude::*;
use vstd::utf8::*;

verus! {

/// The byte offset of the character at index `k` of `s` in its UTF-8 encoding.
pub open spec fn byte_offset(s: Seq<char>, k: int) -> int {
    encode_utf8(s.take(k)).len() as int
}

/// Encoding a concatenation encodes each part.
pub proof fn lemma_encode_utf8_concat(a: Seq<char>, b: Seq<char>)
    ensures
        encode_utf8(a + b) == encode_utf8(a) + encode_utf8(b),
    decreases a.len(),
{
    if a.len() == 0 {
        assert(a + b =~= b);
        assert(encode_utf8(a) =~= Seq::<u8>::empty());
        assert(encode_utf8(a) + encode_utf8(b) =~= encode_utf8(b));
    } else {
        assert((a + b).drop_first() =~= a.drop_first() + b);
        lemma_encode_utf8_concat(a.drop_first(), b);
        assert(encode_utf8(a + b) =~= encode_utf8(a) + encode_utf8(b));
    }
}

/// The encoding of one more character extends the encoding by that character.
pub proof fn lemma_encode_utf8_take_step(s: Seq<char>, k: int)
    requires
        0 <= k < s.len(),
    ensures
        encode_utf8(s.take(k + 1)) == encode_utf8(s.take(k)) + encode_scalar(s[k] as u32),
{
    assert(s.take(k + 1) =~= s.take(k) + seq![s[k]]);
    lemma_encode_utf8_concat(s.take(k), seq![s[k]]);
    assert(seq![s[k]].drop_first() =~= Seq::<char>::empty());
    assert(encode_utf8(Seq::<char>::empty()) =~= Seq::<u8>::empty());
    assert(encode_utf8(seq![s[k]]) =~= encode_scalar(s[k] as u32));
}

/// Byte offsets grow with the character index and never pass the encoded length.
pub proof fn lemma_byte_offset_mono(s: Seq<char>, j: int, k: int)
    requires
        0 <= j <= k <= s.len(),
    ensures
        byte_offset(s, j) <= byte_offset(s, k) <= encode_utf8(s).len(),
        j < k ==> byte_offset(s, j) + encode_scalar(s[j] as u32).len() <= byte_offset(s, k),
    decreases 2 * s.len() - j - k,
{
    assert(s.take(s.len() as int) =~= s);
    if j < k {
        lemma_encode_utf8_take_step(s, j);
        lemma_byte_offset_mono(s, j + 1, k);
    } else if k < s.len() {
        lemma_byte_offset_mono(s, k, s.len() as int);
    }
}

/// The number of bytes in the UTF-8 encoding of a Unicode scalar value.
pub fn utf8_width(scalar: u32) -> (res: usize)
    requires
        is_scalar(scalar),
    ensures
        res == encode_scalar(scalar).len(),
        1 <= res <= 4,
{
    if scalar <= 0x7F {
        1
    } else if scalar <= 0x7FF {
        2
    } else if scalar <= 0xFFFF {
        3
    } else {
        4
    }
}

/// Append the UTF-8 encoding of the Unicode scalar value `scalar` to `out`.
pub fn push_utf8(out: &mut Vec<u8>, scalar: u32)
    requires
        is_scalar(scalar),
    ensures
        final(out)@ == old(out)@ + encode_scalar(scalar),
{
    if scalar <= 0x7F {
        out.push((scalar & 0x7F) as u8);
    } else if scalar <= 0x7FF {
        out.push(0xC0 | ((scalar >> 6) & 0x1F) as u8);
        out.push(0x80 | (scalar & 0x3F) as u8);
    } else if scalar <= 0xFFFF {
        out.push(0xE0 | ((scalar >> 12) & 0x0F) as u8);
        out.push(0x80 | ((scalar >> 6) & 0x3F) as u8);
        out.push(0x80 | (scalar & 0x3F) as u8);
    } else {
        out.push(0xF0 | ((scalar >> 18) & 0x7) as u8);
        out.push(0x80 | ((scalar >> 12) & 0x3F) as u8);
        out.push(0x80 | ((scalar >> 6) & 0x3F) as u8);
        out.push(0x80 | (scalar & 0x3F) as u8);
    }
    assert(final(out)@ =~= old(out)@ + encode_scalar(scalar));
}

/// Whether `v` is a Unicode scalar value, that is, whether a `char` has it.
pub fn is_scalar_value(v: u32) -> (res: bool)
    ensures
        res == is_scalar(v),
{
    v <= 0xD7FF || (0xE000 <= v && v <= 0x10FFFF)
}

/// The UTF-8 encoding of `chars`.
pub fn encode_chars(chars: &Vec<char>) -> (res: Vec<u8>)
    ensures
        res@ == encode_utf8(chars@),
{
    let mut out: Vec<u8> = Vec::new();
    let mut i: usize = 0;
    while i < chars.len()
        invariant
            i <= chars@.len(),
            out@ == encode_utf8(chars@.take(i as int)),
        decreases chars@.len() - i,
    {
        proof {
            vstd::utf8::char_is_scalar(chars@[i as int]);
            lemma_encode_utf8_take_step(chars@, i as int);
        }
        push_utf8(&mut out, chars[i] as u32);
        i = i + 1;
    }
    assert(chars@.take(i as int) =~= chars@);
    out
}

} // verus!
