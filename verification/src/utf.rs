//! Byte and UTF-16 measures of character sequences, and the facts about
//! UTF-8 encoding that the text editing code relies on.

use vstd::prelude::*;
use vstd::utf8::*;

verus! {

broadcast use vstd::seq::group_seq_axioms;

/// Number of bytes in the UTF-8 encoding of `c`.
pub open spec fn utf8_width(c: char) -> nat {
    let v = c as u32;
    if v < 0x80 {
        1
    } else if v < 0x800 {
        2
    } else if v < 0x10000 {
        3
    } else {
        4
    }
}

/// Number of UTF-16 code units in the encoding of `c`.
pub open spec fn utf16_width(c: char) -> nat {
    if (c as u32) < 0x10000 {
        1
    } else {
        2
    }
}

/// Number of bytes in the UTF-8 encoding of `s`.
pub open spec fn utf8_len(s: Seq<char>) -> nat
    decreases s.len(),
{
    if s.len() == 0 {
        0
    } else {
        utf8_width(s[0]) + utf8_len(s.drop_first())
    }
}

/// Number of UTF-16 code units in the encoding of `s`.
pub open spec fn utf16_len(s: Seq<char>) -> nat
    decreases s.len(),
{
    if s.len() == 0 {
        0
    } else {
        utf16_width(s[0]) + utf16_len(s.drop_first())
    }
}

/// The UTF-8 bytes of `s`.
pub open spec fn bytes_of(s: Seq<char>) -> Seq<u8> {
    encode_utf8(s)
}

/// True when byte offset `offset` starts a character of `s`, or is its end.
pub open spec fn is_boundary(s: Seq<char>, offset: int) -> bool {
    is_char_boundary(bytes_of(s), offset)
}

/// The characters whose encoding is the bytes of `s` before `start`, then the
/// bytes of `text`, then the bytes of `s` from `end` on.
pub open spec fn splice(s: Seq<char>, start: int, end: int, text: Seq<char>) -> Seq<char> {
    let b = bytes_of(s);
    decode_utf8(b.subrange(0, start) + bytes_of(text) + b.subrange(end, b.len() as int))
}

/// UTF-16 offset reached by walking the characters of `s` while fewer than
/// `offset` bytes have been passed.
pub open spec fn utf16_offset_of(s: Seq<char>, offset: int) -> nat
    decreases s.len(),
{
    if s.len() == 0 || offset <= 0 {
        0
    } else {
        utf16_width(s[0]) + utf16_offset_of(s.drop_first(), offset - utf8_width(s[0]))
    }
}

/// UTF-8 offset reached by walking the characters of `s` while fewer than
/// `offset` UTF-16 code units have been passed.
pub open spec fn utf8_offset_of(s: Seq<char>, offset: int) -> nat
    decreases s.len(),
{
    if s.len() == 0 || offset <= 0 {
        0
    } else {
        utf8_width(s[0]) + utf8_offset_of(s.drop_first(), offset - utf16_width(s[0]))
    }
}

/// A sequence has no bytes exactly when it has no characters.
pub proof fn lemma_utf8_len_zero(s: Seq<char>)
    ensures
        utf8_len(s) == 0 <==> s.len() == 0,
{
    if s.len() > 0 {
        lemma_width_bounds(s[0]);
    }
}

pub proof fn lemma_width_bounds(c: char)
    ensures
        1 <= utf8_width(c) <= 4,
        1 <= utf16_width(c) <= 2,
        utf16_width(c) <= utf8_width(c),
{
}

pub proof fn lemma_encode_scalar_len(c: char)
    ensures
        encode_scalar(c as u32).len() == utf8_width(c),
{
    char_is_scalar(c);
}

/// The byte length of an encoding is the sum of the character widths.
pub proof fn lemma_encode_len(s: Seq<char>)
    ensures
        encode_utf8(s).len() == utf8_len(s),
    decreases s.len(),
{
    if s.len() > 0 {
        lemma_encode_scalar_len(s[0]);
        lemma_encode_len(s.drop_first());
    }
}

/// Encoding distributes over concatenation.
pub proof fn lemma_encode_concat(a: Seq<char>, b: Seq<char>)
    ensures
        encode_utf8(a + b) == encode_utf8(a) + encode_utf8(b),
    decreases a.len(),
{
    if a.len() == 0 {
        assert(a + b =~= b);
        assert(encode_utf8(a) + encode_utf8(b) =~= encode_utf8(b));
    } else {
        assert((a + b).drop_first() =~= a.drop_first() + b);
        lemma_encode_concat(a.drop_first(), b);
        assert(encode_utf8(a + b) =~= encode_utf8(a) + encode_utf8(b));
    }
}

pub proof fn lemma_utf8_len_concat(a: Seq<char>, b: Seq<char>)
    ensures
        utf8_len(a + b) == utf8_len(a) + utf8_len(b),
{
    lemma_encode_concat(a, b);
    lemma_encode_len(a);
    lemma_encode_len(b);
    lemma_encode_len(a + b);
}

pub proof fn lemma_utf16_len_concat(a: Seq<char>, b: Seq<char>)
    ensures
        utf16_len(a + b) == utf16_len(a) + utf16_len(b),
    decreases a.len(),
{
    if a.len() == 0 {
        assert(a + b =~= b);
    } else {
        assert((a + b).drop_first() =~= a.drop_first() + b);
        lemma_utf16_len_concat(a.drop_first(), b);
    }
}

/// UTF-16 length never exceeds byte length.
pub proof fn lemma_utf16_le_utf8(s: Seq<char>)
    ensures
        utf16_len(s) <= utf8_len(s),
    decreases s.len(),
{
    if s.len() > 0 {
        lemma_width_bounds(s[0]);
        lemma_utf16_le_utf8(s.drop_first());
    }
}

/// Decoding the encoding gives the characters back.
pub proof fn lemma_decode_encode(s: Seq<char>)
    ensures
        decode_utf8(encode_utf8(s)) == s,
        valid_utf8(encode_utf8(s)),
{
    encode_utf8_decode_utf8(s);
    encode_utf8_valid_utf8(s);
}

/// Two sequences with the same encoding are equal.
pub proof fn lemma_encode_injective(a: Seq<char>, b: Seq<char>)
    requires
        encode_utf8(a) == encode_utf8(b),
    ensures
        a == b,
{
    lemma_decode_encode(a);
    lemma_decode_encode(b);
}

/// Every prefix of the characters ends at a character boundary of the bytes.
pub proof fn lemma_prefix_boundary(s: Seq<char>, k: int)
    requires
        0 <= k <= s.len(),
    ensures
        is_char_boundary(encode_utf8(s), utf8_len(s.take(k)) as int),
    decreases s.len(),
{
    lemma_decode_encode(s);
    if k == 0 {
        assert(s.take(0) =~= Seq::<char>::empty());
    } else {
        let bytes = encode_utf8(s);
        let rest = s.drop_first();
        encode_utf8_first_scalar(s);
        lemma_encode_scalar_len(s[0]);
        assert(pop_first_scalar(bytes) =~= encode_utf8(rest));
        lemma_prefix_boundary(rest, k - 1);
        assert(s.take(k).drop_first() =~= rest.take(k - 1));
        lemma_encode_len(s);
        lemma_encode_len(s.take(k));
        lemma_encode_len(rest.take(k - 1));
        assert(utf8_len(s.take(k)) == utf8_width(s[0]) + utf8_len(rest.take(k - 1)));
        lemma_utf8_len_take_le(s, k);
        assert(is_char_boundary(bytes, utf8_len(s.take(k)) as int));
    }
}

pub proof fn lemma_utf8_len_take_le(s: Seq<char>, k: int)
    requires
        0 <= k <= s.len(),
    ensures
        utf8_len(s.take(k)) <= utf8_len(s),
        utf8_len(s.take(k)) + utf8_len(s.skip(k)) == utf8_len(s),
{
    assert(s =~= s.take(k) + s.skip(k));
    lemma_utf8_len_concat(s.take(k), s.skip(k));
}

/// A boundary lies within the encoding.
pub proof fn lemma_boundary_bounds(s: Seq<char>, offset: int)
    requires
        is_boundary(s, offset),
    ensures
        0 <= offset <= utf8_len(s),
{
    lemma_decode_encode(s);
    lemma_encode_len(s);
    reveal_with_fuel(is_char_boundary, 1);
}

pub proof fn lemma_single_char_len(c: char)
    ensures
        utf8_len(seq![c]) == utf8_width(c),
        utf16_len(seq![c]) == utf16_width(c),
{
    reveal_with_fuel(utf8_len, 2);
    reveal_with_fuel(utf16_len, 2);
    assert(seq![c].drop_first() =~= Seq::<char>::empty());
}

proof fn lemma_take_step(s: Seq<char>, k: int)
    requires
        0 < k <= s.len(),
    ensures
        s.take(k).drop_first() =~= s.drop_first().take(k - 1),
        s.take(k)[0] == s[0],
        utf8_len(s.take(k)) == utf8_width(s[0]) + utf8_len(s.drop_first().take(k - 1)),
        utf16_len(s.take(k)) == utf16_width(s[0]) + utf16_len(s.drop_first().take(k - 1)),
{
    assert(s.take(k).drop_first() =~= s.drop_first().take(k - 1));
}

/// Every character boundary ends some prefix of the characters.
pub proof fn lemma_boundary_is_prefix(s: Seq<char>, b: int)
    requires
        is_boundary(s, b),
    ensures
        exists|k: int| 0 <= k <= s.len() && #[trigger] utf8_len(s.take(k)) == b,
    decreases s.len(),
{
    lemma_decode_encode(s);
    if b == 0 {
        assert(s.take(0) =~= Seq::<char>::empty());
        assert(utf8_len(s.take(0)) == 0);
    } else {
        let bytes = encode_utf8(s);
        lemma_encode_len(s);
        if s.len() == 0 {
            assert(bytes.len() == 0);
            assert(false);
        } else {
            let rest = s.drop_first();
            encode_utf8_first_scalar(s);
            lemma_encode_scalar_len(s[0]);
            assert(pop_first_scalar(bytes) =~= encode_utf8(rest));
            let w = utf8_width(s[0]);
            assert(is_char_boundary(encode_utf8(rest), b - w));
            lemma_boundary_is_prefix(rest, b - w);
            let k = choose|k: int| 0 <= k <= rest.len() && #[trigger] utf8_len(rest.take(k)) == b - w;
            lemma_take_step(s, k + 1);
            assert(utf8_len(s.take(k + 1)) == b);
        }
    }
}

/// On a prefix boundary, the UTF-16 offset is the UTF-16 length of the prefix.
pub proof fn lemma_utf16_offset_of_prefix(s: Seq<char>, k: int)
    requires
        0 <= k <= s.len(),
    ensures
        utf16_offset_of(s, utf8_len(s.take(k)) as int) == utf16_len(s.take(k)),
    decreases s.len(),
{
    if k == 0 {
        assert(s.take(0) =~= Seq::<char>::empty());
    } else {
        lemma_take_step(s, k);
        lemma_width_bounds(s[0]);
        lemma_utf16_offset_of_prefix(s.drop_first(), k - 1);
    }
}

/// On a prefix boundary in UTF-16 units, the byte offset is the byte length of the prefix.
pub proof fn lemma_utf8_offset_of_prefix(s: Seq<char>, k: int)
    requires
        0 <= k <= s.len(),
    ensures
        utf8_offset_of(s, utf16_len(s.take(k)) as int) == utf8_len(s.take(k)),
    decreases s.len(),
{
    if k == 0 {
        assert(s.take(0) =~= Seq::<char>::empty());
    } else {
        lemma_take_step(s, k);
        lemma_width_bounds(s[0]);
        lemma_utf8_offset_of_prefix(s.drop_first(), k - 1);
    }
}

/// Converting a byte offset that starts a character to UTF-16 and back gives
/// the same byte offset.
pub proof fn law_utf16_round_trip(s: Seq<char>, offset: int)
    requires
        is_boundary(s, offset),
    ensures
        utf8_offset_of(s, utf16_offset_of(s, offset) as int) == offset,
{
    lemma_boundary_is_prefix(s, offset);
    let k = choose|k: int| 0 <= k <= s.len() && #[trigger] utf8_len(s.take(k)) == offset;
    lemma_utf16_offset_of_prefix(s, k);
    lemma_utf8_offset_of_prefix(s, k);
}

/// The byte offset found for any UTF-16 offset is a character boundary, so
/// slicing the text there is always allowed.
pub proof fn law_utf8_offset_is_boundary(s: Seq<char>, offset: int)
    ensures
        is_boundary(s, utf8_offset_of(s, offset) as int),
        utf8_offset_of(s, offset) <= utf8_len(s),
    decreases s.len(),
{
    lemma_offset_of_is_prefix(s, offset);
    let k = choose|k: int| 0 <= k <= s.len() && #[trigger] utf8_len(s.take(k)) == utf8_offset_of(s, offset);
    lemma_prefix_boundary(s, k);
    lemma_encode_len(s.take(k));
    lemma_utf8_len_take_le(s, k);
}

proof fn lemma_offset_of_is_prefix(s: Seq<char>, offset: int)
    ensures
        exists|k: int| 0 <= k <= s.len() && #[trigger] utf8_len(s.take(k)) == utf8_offset_of(s, offset),
    decreases s.len(),
{
    if s.len() == 0 || offset <= 0 {
        assert(s.take(0) =~= Seq::<char>::empty());
        assert(utf8_len(s.take(0)) == 0);
    } else {
        let rest = s.drop_first();
        lemma_offset_of_is_prefix(rest, offset - utf16_width(s[0]));
        let k = choose|k: int| 0 <= k <= rest.len() && #[trigger] utf8_len(rest.take(k)) == utf8_offset_of(rest, offset - utf16_width(s[0]));
        lemma_take_step(s, k + 1);
        assert(utf8_len(s.take(k + 1)) == utf8_offset_of(s, offset));
    }
}

/// Replacing between two character positions joins the characters before
/// the first, the new text, and the characters from the second on.
pub proof fn law_splice_chars(s: Seq<char>, i: int, j: int, text: Seq<char>)
    requires
        0 <= i <= s.len(),
        0 <= j <= s.len(),
    ensures
        splice(s, utf8_len(s.take(i)) as int, utf8_len(s.take(j)) as int, text) == s.take(i) + text
            + s.skip(j),
{
    let b = bytes_of(s);
    assert(s =~= s.take(i) + s.skip(i));
    assert(s =~= s.take(j) + s.skip(j));
    lemma_encode_concat(s.take(i), s.skip(i));
    lemma_encode_concat(s.take(j), s.skip(j));
    lemma_encode_len(s.take(i));
    lemma_encode_len(s.take(j));
    assert(b.subrange(0, utf8_len(s.take(i)) as int) =~= encode_utf8(s.take(i)));
    assert(b.subrange(utf8_len(s.take(j)) as int, b.len() as int) =~= encode_utf8(s.skip(j)));
    lemma_encode_concat(s.take(i), text);
    lemma_encode_concat(s.take(i) + text, s.skip(j));
    lemma_decode_encode(s.take(i) + text + s.skip(j));
}

} // verus!
