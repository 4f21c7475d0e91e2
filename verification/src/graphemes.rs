//! Grapheme cluster and word boundaries of a text, as byte offsets, and the
//! search for the boundary before or after a given offset.

use unicode_segmentation::UnicodeSegmentation;
use vstd::prelude::*;

use vstd::utf8::is_char_boundary_start_end_of_seq;

use crate::utf::{bytes_of, is_boundary, lemma_decode_encode};

verus! {

/// The byte offsets at which the extended grapheme clusters of a text start,
/// in the order `UnicodeSegmentation::grapheme_indices` yields them.
pub uninterp spec fn grapheme_starts(s: Seq<char>) -> Seq<usize>;

/// Calls `UnicodeSegmentation::grapheme_indices(s, true)` and keeps the byte
/// offset of each cluster. Trusted: the offsets are `grapheme_starts(s@)`, and
/// each is a character boundary inside the text (the crate yields each cluster
/// as a slice `&s[start..next]` of a nonempty remainder). The exact cluster
/// rules of Unicode are not stated here.
#[verifier::external_body]
fn grapheme_offsets(s: &str) -> (r: Vec<usize>)
    ensures
        r@ == grapheme_starts(s@),
        forall|i: int|
            0 <= i < r@.len() ==> (#[trigger] r@[i] as int) < bytes_of(s@).len() && is_boundary(
                s@,
                r@[i] as int,
            ),
{
    s.grapheme_indices(true).map(|(i, _)| i).collect()
}

/// The last offset in `starts` that lies before `offset`, or 0 when there is none.
pub open spec fn boundary_before(starts: Seq<usize>, offset: int) -> int
    decreases starts.len(),
{
    if starts.len() == 0 {
        0
    } else if (starts.last() as int) < offset {
        starts.last() as int
    } else {
        boundary_before(starts.drop_last(), offset)
    }
}

/// The first offset in `starts` that lies after `offset`, or `len` when there is none.
pub open spec fn boundary_after(starts: Seq<usize>, offset: int, len: int) -> int
    decreases starts.len(),
{
    if starts.len() == 0 {
        len
    } else if (starts[0] as int) > offset {
        starts[0] as int
    } else {
        boundary_after(starts.drop_first(), offset, len)
    }
}

/// The result of `boundary_before` is 0 or one of the offsets, and is below
/// `offset` unless it is 0.
pub proof fn lemma_boundary_before_member(starts: Seq<usize>, offset: int)
    ensures
        boundary_before(starts, offset) == 0 || exists|i: int|
            0 <= i < starts.len() && #[trigger] starts[i] as int == boundary_before(starts, offset),
        boundary_before(starts, offset) == 0 || boundary_before(starts, offset) < offset,
        boundary_before(starts, offset) >= 0,
    decreases starts.len(),
{
    if starts.len() > 0 {
        if (starts.last() as int) < offset {
            assert(starts[starts.len() - 1] == starts.last());
        } else {
            lemma_boundary_before_member(starts.drop_last(), offset);
            let r = boundary_before(starts, offset);
            if r != 0 {
                let i = choose|i: int|
                    0 <= i < starts.drop_last().len() && #[trigger] starts.drop_last()[i] as int
                        == r;
                assert(starts[i] == starts.drop_last()[i]);
            }
        }
    }
}

/// The result of `boundary_after` is `len` or one of the offsets, and it lies
/// after `offset` unless it is `len`.
pub proof fn lemma_boundary_after_member(starts: Seq<usize>, offset: int, len: int)
    ensures
        boundary_after(starts, offset, len) == len || exists|i: int|
            0 <= i < starts.len() && #[trigger] starts[i] as int == boundary_after(
                starts,
                offset,
                len,
            ),
        boundary_after(starts, offset, len) == len || boundary_after(starts, offset, len) > offset,
    decreases starts.len(),
{
    if starts.len() > 0 {
        if (starts[0] as int) > offset {
        } else {
            lemma_boundary_after_member(starts.drop_first(), offset, len);
            let r = boundary_after(starts, offset, len);
            if r != len {
                let i = choose|i: int|
                    0 <= i < starts.drop_first().len() && #[trigger] starts.drop_first()[i] as int
                        == r;
                assert(starts[i + 1] == starts.drop_first()[i]);
            }
        }
    }
}

/// The last of `starts` that lies before `offset`, or 0 when none does.
pub fn boundary_before_offset(starts: &Vec<usize>, offset: usize) -> (r: usize)
    ensures
        r == boundary_before(starts@, offset as int),
{
    let mut i = starts.len();
    assert(starts@.take(i as int) =~= starts@);
    while i > 0
        invariant
            i <= starts@.len(),
            boundary_before(starts@, offset as int) == boundary_before(
                starts@.take(i as int),
                offset as int,
            ),
        decreases i,
    {
        let s = starts[i - 1];
        assert(starts@.take(i as int).last() == s);
        assert(starts@.take(i as int).drop_last() =~= starts@.take(i - 1));
        if s < offset {
            return s;
        }
        i = i - 1;
    }
    0
}

/// The first of `starts` that lies after `offset`, or `len` when none does.
pub fn boundary_after_offset(starts: &Vec<usize>, offset: usize, len: usize) -> (r: usize)
    ensures
        r == boundary_after(starts@, offset as int, len as int),
{
    let mut i: usize = 0;
    assert(starts@.skip(0) =~= starts@);
    while i < starts.len()
        invariant
            i <= starts@.len(),
            boundary_after(starts@, offset as int, len as int) == boundary_after(
                starts@.skip(i as int),
                offset as int,
                len as int,
            ),
        decreases starts@.len() - i,
    {
        let s = starts[i];
        assert(starts@.skip(i as int)[0] == s);
        assert(starts@.skip(i as int).drop_first() =~= starts@.skip(i + 1));
        if s > offset {
            return s;
        }
        i = i + 1;
    }
    assert(starts@.skip(i as int) =~= Seq::<usize>::empty());
    len
}

/// The grapheme boundary of `text` before byte offset `offset`, or 0.
pub fn previous_grapheme_boundary(text: &str, offset: usize) -> (r: usize)
    ensures
        r == boundary_before(grapheme_starts(text@), offset as int),
        is_boundary(text@, r as int),
        r == 0 || r < offset,
{
    let starts = grapheme_offsets(text);
    let r = boundary_before_offset(&starts, offset);
    proof {
        lemma_boundary_before_member(starts@, offset as int);
        lemma_decode_encode(text@);
        is_char_boundary_start_end_of_seq(bytes_of(text@));
    }
    r
}

/// The grapheme boundary of `text` after byte offset `offset`, or the byte
/// length `len` of the text when there is none.
pub fn next_grapheme_boundary(text: &str, offset: usize, len: usize) -> (r: usize)
    requires
        len == bytes_of(text@).len(),
    ensures
        r == boundary_after(grapheme_starts(text@), offset as int, len as int),
        is_boundary(text@, r as int),
        r == len || (offset < r < len),
{
    let starts = grapheme_offsets(text);
    let r = boundary_after_offset(&starts, offset, len);
    proof {
        lemma_boundary_after_member(starts@, offset as int, len as int);
        lemma_decode_encode(text@);
        is_char_boundary_start_end_of_seq(bytes_of(text@));
    }
    r
}

/// The byte offsets at which the pieces of a text split on word boundaries
/// (words, runs of spaces, punctuation) start, in the order
/// `UnicodeSegmentation::split_word_bound_indices` yields them.
pub uninterp spec fn word_starts(s: Seq<char>) -> Seq<usize>;

/// Calls `UnicodeSegmentation::split_word_bound_indices(s)` and keeps the byte
/// offset of each piece. Trusted: the offsets are `word_starts(s@)`, and each
/// is a character boundary inside the text (the crate yields each piece as a
/// slice `&rest[..idx]` of a nonempty remainder `rest` of the text). The word
/// boundary rules of Unicode are not stated here.
#[verifier::external_body]
fn word_offsets(s: &str) -> (r: Vec<usize>)
    ensures
        r@ == word_starts(s@),
        forall|i: int|
            0 <= i < r@.len() ==> (#[trigger] r@[i] as int) < bytes_of(s@).len() && is_boundary(
                s@,
                r@[i] as int,
            ),
{
    s.split_word_bound_indices().map(|(i, _)| i).collect()
}

/// The last of `starts` at or before `offset`, or 0 when none is.
fn boundary_at_or_before_offset(starts: &Vec<usize>, offset: usize) -> (r: usize)
    ensures
        r == boundary_before(starts@, offset + 1),
{
    let mut i = starts.len();
    assert(starts@.take(i as int) =~= starts@);
    while i > 0
        invariant
            i <= starts@.len(),
            boundary_before(starts@, offset + 1) == boundary_before(
                starts@.take(i as int),
                offset + 1,
            ),
        decreases i,
    {
        let s = starts[i - 1];
        assert(starts@.take(i as int).last() == s);
        assert(starts@.take(i as int).drop_last() =~= starts@.take(i - 1));
        if s <= offset {
            return s;
        }
        i = i - 1;
    }
    0
}

/// The piece of `text` between word boundaries that holds byte offset
/// `offset`: from the last word start at or before it (or 0) to the first
/// word start after it (or the end of the text, `len` bytes).
pub fn word_range_at(text: &str, offset: usize, len: usize) -> (r: (usize, usize))
    requires
        len == bytes_of(text@).len(),
        offset <= len,
    ensures
        r.0 == boundary_before(word_starts(text@), offset + 1),
        r.1 == boundary_after(word_starts(text@), offset as int, len as int),
        r.0 <= offset <= r.1 <= len,
        is_boundary(text@, r.0 as int),
        is_boundary(text@, r.1 as int),
{
    let starts = word_offsets(text);
    let a = boundary_at_or_before_offset(&starts, offset);
    let b = boundary_after_offset(&starts, offset, len);
    proof {
        lemma_boundary_before_member(starts@, offset + 1);
        lemma_boundary_after_member(starts@, offset as int, len as int);
        lemma_decode_encode(text@);
        is_char_boundary_start_end_of_seq(bytes_of(text@));
    }
    (a, b)
}

} // verus!
