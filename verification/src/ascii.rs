//! Where an ASCII character stands in the UTF-8 bytes of a text.
//!
//! UTF-8 writes an ASCII character as one byte, the byte of its number,
//! and every other character as two to four bytes that are all above the
//! ASCII range. So a text can be searched for an ASCII character byte by
//! byte: the first byte that equals it stands for its first occurrence,
//! and the bytes before and after that byte are the text before and after
//! it. The lemmas here prove this from the definition of
//! [`encode_utf8`].

use vstd::prelude::*;
use vstd::utf8::*;

verus! {

/// Whether `c` is an ASCII character.
pub open spec fn is_ascii_char(c: char) -> bool {
    c as u32 <= 0x7f
}

/// An ASCII character is written as one byte: the byte of its number.
pub proof fn lemma_encode_ascii(c: char)
    requires
        is_ascii_char(c),
    ensures
        encode_scalar(c as u32) == seq![c as u8],
        encode_utf8(seq![c]) == seq![c as u8],
{
    let v = c as u32;
    assert((v & 0x7F) as u8 == v as u8) by (bit_vector)
        requires
            v <= 0x7f,
    ;
    assert(seq![c].drop_first() =~= Seq::<char>::empty());
    assert(encode_utf8(seq![c]) =~= seq![c as u8]) by {
        reveal_with_fuel(encode_utf8, 2);
    }
}

/// No byte of another character is the byte of the ASCII character `c`.
pub proof fn lemma_encode_other(d: char, c: char)
    requires
        is_ascii_char(c),
        d != c,
    ensures
        forall|i: int|
            0 <= i < encode_scalar(d as u32).len() ==> #[trigger] encode_scalar(d as u32)[i]
                != c as u8,
{
    let v = d as u32;
    let w = c as u32;
    char_is_scalar(d);
    if has_width_1_encoding(v) {
        assert(v != w) by {
            if v == w {
                char_u32_cast(d, v);
                char_u32_cast(c, w);
            }
        }
        assert((v & 0x7F) as u8 != w as u8) by (bit_vector)
            requires
                v <= 0x7f,
                w <= 0x7f,
                v != w,
        ;
    } else {
        assert(w as u8 <= 0x7f) by (bit_vector)
            requires
                w <= 0x7f,
        ;
        assert((0xC0u8 | ((v >> 6) & 0x1F) as u8) >= 0x80) by (bit_vector);
        assert((0xE0u8 | ((v >> 12) & 0x0F) as u8) >= 0x80) by (bit_vector);
        assert((0xF0u8 | ((v >> 18) & 0x7) as u8) >= 0x80) by (bit_vector);
        assert((0x80u8 | (v & 0x3F) as u8) >= 0x80) by (bit_vector);
        assert((0x80u8 | ((v >> 6) & 0x3F) as u8) >= 0x80) by (bit_vector);
        assert((0x80u8 | ((v >> 12) & 0x3F) as u8) >= 0x80) by (bit_vector);
    }
}

/// The bytes of two texts in a row are the bytes of the first, then the
/// bytes of the second.
pub proof fn lemma_encode_concat(a: Seq<char>, b: Seq<char>)
    ensures
        encode_utf8(a + b) == encode_utf8(a) + encode_utf8(b),
    decreases a.len(),
{
    if a.len() == 0 {
        assert(a + b =~= b);
        assert(encode_utf8(a) + encode_utf8(b) =~= encode_utf8(b));
    } else {
        let first = encode_scalar(a[0] as u32);
        assert((a + b)[0] == a[0]);
        assert((a + b).drop_first() =~= a.drop_first() + b);
        lemma_encode_concat(a.drop_first(), b);
        assert(first + (encode_utf8(a.drop_first()) + encode_utf8(b)) =~= (first + encode_utf8(
            a.drop_first(),
        )) + encode_utf8(b));
    }
}

/// Two texts with the same bytes are the same text.
pub proof fn lemma_encode_injective(a: Seq<char>, b: Seq<char>)
    requires
        encode_utf8(a) == encode_utf8(b),
    ensures
        a == b,
{
    encode_utf8_decode_utf8(a);
    encode_utf8_decode_utf8(b);
}

/// The bytes of the first `k` characters end at a character boundary.
pub proof fn lemma_prefix_is_boundary(chars: Seq<char>, k: int)
    requires
        0 <= k <= chars.len(),
    ensures
        encode_utf8(chars.take(k)).len() <= encode_utf8(chars).len(),
        encode_utf8(chars).subrange(0, encode_utf8(chars.take(k)).len() as int) == encode_utf8(
            chars.take(k),
        ),
        encode_utf8(chars).subrange(
            encode_utf8(chars.take(k)).len() as int,
            encode_utf8(chars).len() as int,
        ) == encode_utf8(chars.skip(k)),
        is_char_boundary(encode_utf8(chars), encode_utf8(chars.take(k)).len() as int),
    decreases k,
{
    let bytes = encode_utf8(chars);
    let head = encode_utf8(chars.take(k));
    let tail = encode_utf8(chars.skip(k));
    assert(chars =~= chars.take(k) + chars.skip(k));
    lemma_encode_concat(chars.take(k), chars.skip(k));
    assert(bytes.subrange(0, head.len() as int) =~= head);
    assert(bytes.subrange(head.len() as int, bytes.len() as int) =~= tail);
    encode_utf8_valid_utf8(chars);
    if k > 0 {
        let rest = chars.drop_first();
        encode_utf8_first_scalar(chars);
        assert(pop_first_scalar(bytes) =~= encode_utf8(rest));
        lemma_prefix_is_boundary(rest, k - 1);
        assert(chars.take(k) =~= seq![chars[0]] + rest.take(k - 1));
        lemma_encode_concat(seq![chars[0]], rest.take(k - 1));
        assert(seq![chars[0]].drop_first() =~= Seq::<char>::empty());
        assert(encode_utf8(seq![chars[0]]) =~= encode_scalar(chars[0] as u32)) by {
            reveal_with_fuel(encode_utf8, 2);
        }
        assert(head.len() == length_of_first_scalar(bytes) + encode_utf8(rest.take(k - 1)).len());
        assert(length_of_first_scalar(bytes) > 0);
    }
}

/// The first byte that equals the ASCII character `c` stands for the
/// first `c` of the text: where it is byte `p`, there is a `k` such that
/// character `k` is `c`, no character before it is, and the characters
/// before it take up the `p` bytes before that byte.
pub proof fn lemma_first_byte_is_first_char(chars: Seq<char>, c: char, p: int) -> (k: int)
    requires
        is_ascii_char(c),
        0 <= p < encode_utf8(chars).len(),
        encode_utf8(chars)[p] == c as u8,
        forall|q: int| 0 <= q < p ==> encode_utf8(chars)[q] != c as u8,
    ensures
        0 <= k < chars.len(),
        chars[k] == c,
        !chars.take(k).contains(c),
        encode_utf8(chars.take(k)).len() == p,
        encode_utf8(chars.take(k + 1)).len() == p + 1,
    decreases chars.len(),
{
    let bytes = encode_utf8(chars);
    let first = encode_scalar(chars[0] as u32);
    let rest = chars.drop_first();
    assert(bytes =~= first + encode_utf8(rest));
    if chars[0] == c {
        lemma_encode_ascii(c);
        assert(bytes[0] == c as u8);
        assert(chars.take(0) =~= Seq::<char>::empty());
        assert(chars.take(1) =~= seq![c]);
        0
    } else {
        lemma_encode_other(chars[0], c);
        assert(p >= first.len()) by {
            if p < first.len() {
                assert(bytes[p] == first[p]);
            }
        }
        let shifted = p - first.len();
        assert forall|q: int| 0 <= q < shifted implies encode_utf8(rest)[q] != c as u8 by {
            assert(encode_utf8(rest)[q] == bytes[q + first.len()]);
        }
        assert(encode_utf8(rest)[shifted] == bytes[p]);
        let below = lemma_first_byte_is_first_char(rest, c, shifted);
        let k = below + 1;
        assert(seq![chars[0]].drop_first() =~= Seq::<char>::empty());
        assert(encode_utf8(seq![chars[0]]) =~= first) by {
            reveal_with_fuel(encode_utf8, 2);
        }
        assert(chars.take(k) =~= seq![chars[0]] + rest.take(below));
        lemma_encode_concat(seq![chars[0]], rest.take(below));
        assert(chars.take(k + 1) =~= seq![chars[0]] + rest.take(below + 1));
        lemma_encode_concat(seq![chars[0]], rest.take(below + 1));
        assert(!chars.take(k).contains(c)) by {
            if chars.take(k).contains(c) {
                let j = choose|j: int| 0 <= j < chars.take(k).len() && chars.take(k)[j] == c;
                assert(j > 0);
                assert(rest.take(below)[j - 1] == c);
            }
        }
        k
    }
}

/// A text none of whose bytes equals the ASCII character `c` does not
/// hold `c`.
pub proof fn lemma_no_byte_no_char(chars: Seq<char>, c: char)
    requires
        is_ascii_char(c),
        forall|q: int| 0 <= q < encode_utf8(chars).len() ==> encode_utf8(chars)[q] != c as u8,
    ensures
        !chars.contains(c),
{
    if chars.contains(c) {
        let k = choose|k: int| 0 <= k < chars.len() && chars[k] == c;
        let before = chars.take(k);
        let after = chars.skip(k + 1);
        assert(chars =~= before + (seq![c] + after));
        lemma_encode_concat(before, seq![c] + after);
        lemma_encode_concat(seq![c], after);
        lemma_encode_ascii(c);
        let p = encode_utf8(before).len() as int;
        assert(encode_utf8(chars)[p] == c as u8);
    }
}

} // verus!
