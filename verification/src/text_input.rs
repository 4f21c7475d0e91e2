//! The editing state behind a single-line text input: content, selection,
//! and undo/redo history. Offsets are byte offsets into the UTF-8 content.

use std::ops::Range;
use vstd::prelude::*;
use vstd::std_specs::iter::IteratorSpec;
use vstd::utf8::{decode_utf8, is_char_boundary_start_end_of_seq};

use crate::graphemes::{
    boundary_after, boundary_before, grapheme_starts, lemma_boundary_after_member,
    lemma_boundary_before_member, next_grapheme_boundary, previous_grapheme_boundary,
    word_range_at, word_starts,
};
use crate::utf::{
    bytes_of, is_boundary, lemma_decode_encode, lemma_encode_concat, lemma_encode_len,
    lemma_boundary_bounds, lemma_prefix_boundary, lemma_utf16_len_concat, lemma_utf8_len_concat,
    lemma_single_char_len, lemma_utf8_len_take_le, lemma_width_bounds, lemma_boundary_is_prefix,
    lemma_encode_injective, lemma_utf8_len_zero, law_utf8_offset_is_boundary, splice, utf16_len,
    utf16_offset_of, utf16_width,
    utf8_len, utf8_offset_of, utf8_width,
};

verus! {

broadcast use vstd::seq::group_seq_axioms;

/// The content and selection of the input at one moment.
pub struct Snapshot {
    pub content: Seq<char>,
    pub start: nat,
    pub end: nat,
    pub reversed: bool,
}

/// The whole editing state: the present snapshot and the two histories,
/// most recent last.
pub struct EditView {
    pub current: Snapshot,
    pub undo: Seq<Snapshot>,
    pub redo: Seq<Snapshot>,
}

/// Byte length of a snapshot's content.
pub open spec fn content_len(s: Snapshot) -> nat {
    utf8_len(s.content)
}

/// The selection lies within the content and starts no later than it ends.
pub open spec fn snapshot_wf(s: Snapshot) -> bool {
    s.start <= s.end <= content_len(s)
}

/// Both ends of the selection are character boundaries of the content.
pub open spec fn on_boundaries(s: Snapshot) -> bool {
    is_boundary(s.content, s.start as int) && is_boundary(s.content, s.end as int)
}

/// The end of the selection at which the cursor stands.
pub open spec fn cursor_of(s: Snapshot) -> nat {
    if s.reversed {
        s.start
    } else {
        s.end
    }
}

/// The end of the selection opposite the cursor.
pub open spec fn anchor_of(s: Snapshot) -> nat {
    if s.reversed {
        s.end
    } else {
        s.start
    }
}

pub open spec fn clamp(offset: int, len: nat) -> nat {
    if offset < 0 {
        0
    } else if offset <= len {
        offset as nat
    } else {
        len
    }
}

/// The cursor placed at `offset`, clamped to the content, with no selection.
pub open spec fn moved_to(s: Snapshot, offset: int) -> Snapshot {
    let o = clamp(offset, content_len(s));
    Snapshot { content: s.content, start: o, end: o, reversed: false }
}

/// The selection extended from its anchor to `offset`, clamped to the content.
pub open spec fn selected_to(s: Snapshot, offset: int) -> Snapshot {
    let o = clamp(offset, content_len(s));
    let a = if s.reversed { o } else { s.start };
    let b = if s.reversed { s.end } else { o };
    if b < a {
        Snapshot { content: s.content, start: b, end: a, reversed: !s.reversed }
    } else {
        Snapshot { content: s.content, start: a, end: b, reversed: s.reversed }
    }
}

/// The selection of the piece between word boundaries (a word, a run of
/// spaces, a punctuation mark) that holds `offset`, clamped to the content.
pub open spec fn word_selected(s: Snapshot, offset: int) -> Snapshot {
    let o = clamp(offset, content_len(s));
    let starts = word_starts(s.content);
    Snapshot {
        content: s.content,
        start: boundary_before(starts, o as int + 1) as nat,
        end: boundary_after(starts, o as int, content_len(s) as int) as nat,
        reversed: false,
    }
}

/// Grapheme boundary before the cursor, or 0.
pub open spec fn prev_stop(s: Snapshot) -> int {
    boundary_before(grapheme_starts(s.content), cursor_of(s) as int)
}

/// Grapheme boundary after the cursor, or the end of the content.
pub open spec fn next_stop(s: Snapshot) -> int {
    boundary_after(grapheme_starts(s.content), cursor_of(s) as int, content_len(s) as int)
}

pub open spec fn moved_right(s: Snapshot) -> Snapshot {
    if s.start == s.end {
        moved_to(s, next_stop(s))
    } else {
        moved_to(s, s.end as int)
    }
}

pub open spec fn moved_left(s: Snapshot) -> Snapshot {
    if s.start == s.end {
        moved_to(s, prev_stop(s))
    } else {
        moved_to(s, s.start as int)
    }
}

/// The bytes from `start` to `end` replaced by `text`, with the cursor after it.
pub open spec fn replaced(s: Snapshot, start: int, end: int, text: Seq<char>) -> Snapshot {
    let pos = (start + utf8_len(text)) as nat;
    Snapshot { content: splice(s.content, start, end, text), start: pos, end: pos, reversed: false }
}

/// A change that is recorded for undo: the old snapshot goes onto the undo
/// history, the redo history is dropped.
pub open spec fn recorded(v: EditView, next: Snapshot) -> EditView {
    EditView { current: next, undo: v.undo.push(v.current), redo: Seq::empty() }
}

/// A change that is not recorded: only the present snapshot changes.
pub open spec fn unrecorded(v: EditView, next: Snapshot) -> EditView {
    EditView { current: next, undo: v.undo, redo: v.redo }
}

pub open spec fn inserted(v: EditView, text: Seq<char>) -> EditView {
    recorded(v, replaced(v.current, v.current.start as int, v.current.end as int, text))
}

/// The effect of backspace: the selection, or the grapheme before the cursor, is removed.
pub open spec fn backspaced(v: EditView) -> EditView {
    let s = v.current;
    if s.start == s.end {
        if prev_stop(s) == cursor_of(s) {
            v
        } else {
            let sel = selected_to(s, prev_stop(s));
            recorded(v, replaced(sel, sel.start as int, sel.end as int, Seq::empty()))
        }
    } else {
        recorded(v, replaced(s, s.start as int, s.end as int, Seq::empty()))
    }
}

/// The effect of delete: the selection, or the grapheme after the cursor, is removed.
pub open spec fn deleted(v: EditView) -> EditView {
    let s = v.current;
    if s.start == s.end {
        if next_stop(s) == cursor_of(s) {
            v
        } else {
            let sel = selected_to(s, next_stop(s));
            recorded(v, replaced(sel, sel.start as int, sel.end as int, Seq::empty()))
        }
    } else {
        recorded(v, replaced(s, s.start as int, s.end as int, Seq::empty()))
    }
}

/// The effect of undo: the last recorded snapshot comes back, the present one
/// goes onto the redo history. Nothing happens when there is nothing to undo.
pub open spec fn undone(v: EditView) -> EditView {
    if v.undo.len() == 0 {
        v
    } else {
        EditView { current: v.undo.last(), undo: v.undo.drop_last(), redo: v.redo.push(v.current) }
    }
}

/// The effect of redo, the mirror of undo.
pub open spec fn redone(v: EditView) -> EditView {
    if v.redo.len() == 0 {
        v
    } else {
        EditView { current: v.redo.last(), undo: v.undo.push(v.current), redo: v.redo.drop_last() }
    }
}

/// Every snapshot of the state, present and recorded, is well formed.
pub open spec fn view_wf(v: EditView) -> bool {
    &&& snapshot_wf(v.current)
    &&& forall|i: int| 0 <= i < v.undo.len() ==> snapshot_wf(#[trigger] v.undo[i])
    &&& forall|i: int| 0 <= i < v.redo.len() ==> snapshot_wf(#[trigger] v.redo[i])
}

/// A snapshot of text input state for undo/redo.
struct UndoEntry {
    content: String,
    selected_range: Range<usize>,
    selection_reversed: bool,
}

impl UndoEntry {
    closed spec fn snap(&self) -> Snapshot {
        Snapshot {
            content: self.content@,
            start: self.selected_range.start as nat,
            end: self.selected_range.end as nat,
            reversed: self.selection_reversed,
        }
    }
}

/// Pure state for a text input field.
/// Separated from GPUI rendering to enable unit testing.
pub struct TextInputState {
    content: String,
    selected_range: Range<usize>,
    selection_reversed: bool,
    undo_stack: Vec<UndoEntry>,
    redo_stack: Vec<UndoEntry>,
}

impl View for TextInputState {
    type V = EditView;

    closed spec fn view(&self) -> EditView {
        EditView {
            current: Snapshot {
                content: self.content@,
                start: self.selected_range.start as nat,
                end: self.selected_range.end as nat,
                reversed: self.selection_reversed,
            },
            undo: self.undo_stack@.map_values(|e: UndoEntry| e.snap()),
            redo: self.redo_stack@.map_values(|e: UndoEntry| e.snap()),
        }
    }
}

/// Byte length of `s`.
fn byte_len(s: &str) -> (n: usize)
    ensures
        n == utf8_len(s@),
{
    let n = s.as_bytes().len();
    proof {
        lemma_encode_len(s@);
    }
    n
}

/// The content with the bytes from `start` to `end` replaced by `text`.
fn splice_text(content: &str, start: usize, end: usize, text: &str) -> (r: String)
    requires
        is_boundary(content@, start as int),
        is_boundary(content@, end as int),
    ensures
        r@ == splice(content@, start as int, end as int, text@),
        utf8_len(r@) == start + utf8_len(text@) + (utf8_len(content@) - end),
        is_boundary(r@, start + utf8_len(text@)),
{
    let (before, _) = content.split_at(start);
    let (_, after) = content.split_at(end);
    let mut r = before.to_owned();
    r.append(text);
    r.append(after);
    proof {
        let b = bytes_of(content@);
        lemma_encode_concat(before@, text@);
        lemma_encode_concat(before@ + text@, after@);
        assert(r@ == before@ + text@ + after@);
        assert(bytes_of(r@) == b.subrange(0, start as int) + bytes_of(text@) + b.subrange(
            end as int,
            b.len() as int,
        ));
        lemma_decode_encode(r@);
        lemma_decode_encode(content@);
        lemma_encode_len(content@);
        lemma_encode_len(before@);
        lemma_encode_len(after@);
        lemma_utf8_len_concat(before@, text@);
        lemma_utf8_len_concat(before@ + text@, after@);
        let k: int = (before@.len() + text@.len()) as int;
        assert(r@.take(k) =~= before@ + text@);
        lemma_prefix_boundary(r@, k);
    }
    r
}

impl TextInputState {
    /// The state is well formed: every selection lies within its content.
    pub closed spec fn wf(&self) -> bool {
        view_wf(self@)
    }

    pub fn new(initial: &str) -> (s: Self)
        ensures
            s.wf(),
            s@.current == (Snapshot { content: initial@, start: 0, end: 0, reversed: false }),
            s@.undo.len() == 0,
            s@.redo.len() == 0,
    {
        let s = TextInputState {
            content: initial.to_owned(),
            selected_range: Range { start: 0, end: 0 },
            selection_reversed: false,
            undo_stack: Vec::new(),
            redo_stack: Vec::new(),
        };
        assert(s@.undo =~= Seq::<Snapshot>::empty());
        assert(s@.redo =~= Seq::<Snapshot>::empty());
        s
    }

    pub fn content(&self) -> (c: &str)
        ensures
            c@ == self@.current.content,
    {
        self.content.as_str()
    }

    pub fn cursor_offset(&self) -> (c: usize)
        ensures
            c == cursor_of(self@.current),
    {
        if self.selection_reversed {
            self.selected_range.start
        } else {
            self.selected_range.end
        }
    }

    pub fn selected_range(&self) -> (r: Range<usize>)
        ensures
            r.start == self@.current.start,
            r.end == self@.current.end,
    {
        Range { start: self.selected_range.start, end: self.selected_range.end }
    }
}


/// The end of the content is a boundary of it.
proof fn lemma_end_is_boundary(content: Seq<char>)
    ensures
        is_boundary(content, utf8_len(content) as int),
        is_boundary(content, 0),
{
    lemma_decode_encode(content);
    lemma_encode_len(content);
    is_char_boundary_start_end_of_seq(bytes_of(content));
}

proof fn lemma_map_push(v: Seq<UndoEntry>, e: UndoEntry)
    ensures
        v.push(e).map_values(|x: UndoEntry| x.snap()) =~= v.map_values(|x: UndoEntry| x.snap()).push(
            e.snap(),
        ),
{
}

proof fn lemma_map_drop_last(v: Seq<UndoEntry>)
    requires
        v.len() > 0,
    ensures
        v.drop_last().map_values(|x: UndoEntry| x.snap()) =~= v.map_values(
            |x: UndoEntry| x.snap(),
        ).drop_last(),
        v.map_values(|x: UndoEntry| x.snap()).last() == v.last().snap(),
{
}

proof fn lemma_wf_unrecorded(v: EditView, next: Snapshot)
    requires
        view_wf(v),
        snapshot_wf(next),
    ensures
        view_wf(unrecorded(v, next)),
{
    let u = unrecorded(v, next);
    assert forall|i: int| 0 <= i < u.undo.len() implies snapshot_wf(#[trigger] u.undo[i]) by {
        assert(u.undo[i] == v.undo[i]);
    }
    assert forall|i: int| 0 <= i < u.redo.len() implies snapshot_wf(#[trigger] u.redo[i]) by {
        assert(u.redo[i] == v.redo[i]);
    }
}

proof fn lemma_wf_recorded(v: EditView, next: Snapshot)
    requires
        view_wf(v),
        snapshot_wf(next),
    ensures
        view_wf(recorded(v, next)),
{
    let u = recorded(v, next);
    assert forall|i: int| 0 <= i < u.undo.len() implies snapshot_wf(#[trigger] u.undo[i]) by {
        if i < v.undo.len() {
            assert(u.undo[i] == v.undo[i]);
        }
    }
}

impl TextInputState {
    /// A snapshot entry of the present content and selection.
    fn current_entry(&self) -> (e: UndoEntry)
        ensures
            e.snap() == self@.current,
    {
        UndoEntry {
            content: self.content.clone(),
            selected_range: Range { start: self.selected_range.start, end: self.selected_range.end },
            selection_reversed: self.selection_reversed,
        }
    }

    fn save_undo(&mut self)
        requires
            old(self).wf(),
        ensures
            final(self)@ == recorded(old(self)@, old(self)@.current),
            final(self).wf(),
    {
        let e = self.current_entry();
        proof {
            lemma_map_push(self.undo_stack@, e);
        }
        self.undo_stack.push(e);
        self.redo_stack.clear();
        assert(self@.redo =~= Seq::<Snapshot>::empty());
    }

    fn restore(&mut self, entry: UndoEntry)
        ensures
            final(self)@.current == entry.snap(),
            final(self)@.undo == old(self)@.undo,
            final(self)@.redo == old(self)@.redo,
    {
        self.content = entry.content;
        self.selected_range = entry.selected_range;
        self.selection_reversed = entry.selection_reversed;
    }

    /// Replace the content and put the cursor at its start; history is kept.
    pub fn set_content(&mut self, content: String)
        requires
            old(self).wf(),
        ensures
            final(self)@ == unrecorded(
                old(self)@,
                Snapshot { content: content@, start: 0, end: 0, reversed: false },
            ),
            final(self).wf(),
    {
        self.content = content;
        self.selected_range = Range { start: 0, end: 0 };
        self.selection_reversed = false;
        proof {
            lemma_wf_unrecorded(
                old(self)@,
                Snapshot { content: content@, start: 0, end: 0, reversed: false },
            );
        }
    }

    pub fn undo(&mut self)
        requires
            old(self).wf(),
        ensures
            final(self)@ == undone(old(self)@),
            final(self).wf(),
    {
        proof {
            if self.undo_stack@.len() > 0 {
                lemma_map_drop_last(self.undo_stack@);
            }
        }
        if let Some(entry) = self.undo_stack.pop() {
            let cur = self.current_entry();
            proof {
                lemma_map_push(self.redo_stack@, cur);
                assert(self.undo_stack@.len() >= 0);
            }
            self.redo_stack.push(cur);
            self.restore(entry);
            proof {
                let v = old(self)@;
                assert(snapshot_wf(v.undo[v.undo.len() - 1]));
                assert forall|i: int| 0 <= i < self@.redo.len() implies snapshot_wf(
                    #[trigger] self@.redo[i],
                ) by {
                    if i < v.redo.len() {
                        assert(self@.redo[i] == v.redo[i]);
                    }
                }
                assert forall|i: int| 0 <= i < self@.undo.len() implies snapshot_wf(
                    #[trigger] self@.undo[i],
                ) by {
                    assert(self@.undo[i] == v.undo[i]);
                }
            }
        }
    }

    pub fn redo(&mut self)
        requires
            old(self).wf(),
        ensures
            final(self)@ == redone(old(self)@),
            final(self).wf(),
    {
        proof {
            if self.redo_stack@.len() > 0 {
                lemma_map_drop_last(self.redo_stack@);
            }
        }
        if let Some(entry) = self.redo_stack.pop() {
            let cur = self.current_entry();
            proof {
                lemma_map_push(self.undo_stack@, cur);
            }
            self.undo_stack.push(cur);
            self.restore(entry);
            proof {
                let v = old(self)@;
                assert(snapshot_wf(v.redo[v.redo.len() - 1]));
                assert forall|i: int| 0 <= i < self@.undo.len() implies snapshot_wf(
                    #[trigger] self@.undo[i],
                ) by {
                    if i < v.undo.len() {
                        assert(self@.undo[i] == v.undo[i]);
                    }
                }
                assert forall|i: int| 0 <= i < self@.redo.len() implies snapshot_wf(
                    #[trigger] self@.redo[i],
                ) by {
                    assert(self@.redo[i] == v.redo[i]);
                }
            }
        }
    }

    /// Put the cursor at `offset`, clamped to the content, dropping the selection.
    pub fn move_to(&mut self, offset: usize)
        requires
            old(self).wf(),
        ensures
            final(self)@ == unrecorded(old(self)@, moved_to(old(self)@.current, offset as int)),
            final(self).wf(),
            is_boundary(old(self)@.current.content, offset as int) ==> on_boundaries(
                final(self)@.current,
            ),
    {
        let len = byte_len(self.content.as_str());
        let offset = if offset < len {
            offset
        } else {
            len
        };
        self.selected_range = Range { start: offset, end: offset };
        self.selection_reversed = false;
        proof {
            lemma_end_is_boundary(self.content@);
            lemma_wf_unrecorded(old(self)@, moved_to(old(self)@.current, offset as int));
        }
    }

    /// Extend the selection from its anchor to `offset`, clamped to the content.
    pub fn select_to(&mut self, offset: usize)
        requires
            old(self).wf(),
        ensures
            final(self)@ == unrecorded(old(self)@, selected_to(old(self)@.current, offset as int)),
            final(self).wf(),
            on_boundaries(old(self)@.current) && is_boundary(
                old(self)@.current.content,
                offset as int,
            ) ==> on_boundaries(final(self)@.current),
    {
        let len = byte_len(self.content.as_str());
        let offset = if offset < len {
            offset
        } else {
            len
        };
        let (a, b) = if self.selection_reversed {
            (offset, self.selected_range.end)
        } else {
            (self.selected_range.start, offset)
        };
        if b < a {
            self.selection_reversed = !self.selection_reversed;
            self.selected_range = Range { start: b, end: a };
        } else {
            self.selected_range = Range { start: a, end: b };
        }
        proof {
            lemma_end_is_boundary(self.content@);
            lemma_wf_unrecorded(old(self)@, selected_to(old(self)@.current, offset as int));
        }
    }

    /// Select the word (or run of spaces, or punctuation) at `offset`,
    /// clamped to the content, as a double click does.
    pub fn select_word_at(&mut self, offset: usize)
        requires
            old(self).wf(),
        ensures
            final(self)@ == unrecorded(old(self)@, word_selected(old(self)@.current, offset as int)),
            final(self).wf(),
            on_boundaries(final(self)@.current),
    {
        let len = byte_len(self.content.as_str());
        let o = if offset < len {
            offset
        } else {
            len
        };
        proof {
            lemma_encode_len(self.content@);
        }
        let (start, end) = word_range_at(self.content.as_str(), o, len);
        self.selected_range = Range { start, end };
        self.selection_reversed = false;
        proof {
            lemma_wf_unrecorded(old(self)@, word_selected(old(self)@.current, offset as int));
        }
    }

    pub fn move_right(&mut self)
        requires
            old(self).wf(),
        ensures
            final(self)@ == unrecorded(old(self)@, moved_right(old(self)@.current)),
            final(self).wf(),
            on_boundaries(old(self)@.current) ==> on_boundaries(final(self)@.current),
            old(self)@.current.start == old(self)@.current.end ==> cursor_of(old(self)@.current)
                <= cursor_of(final(self)@.current),
            old(self)@.current.start == old(self)@.current.end && cursor_of(old(self)@.current)
                < content_len(old(self)@.current) ==> cursor_of(old(self)@.current) < cursor_of(
                final(self)@.current,
            ),
    {
        if self.selected_range.start >= self.selected_range.end {
            let len = byte_len(self.content.as_str());
            proof {
                lemma_encode_len(self.content@);
            }
            let next = next_grapheme_boundary(self.content.as_str(), self.cursor_offset(), len);
            self.move_to(next);
        } else {
            let end = self.selected_range.end;
            self.move_to(end);
        }
    }

    pub fn move_left(&mut self)
        requires
            old(self).wf(),
        ensures
            final(self)@ == unrecorded(old(self)@, moved_left(old(self)@.current)),
            final(self).wf(),
            on_boundaries(old(self)@.current) ==> on_boundaries(final(self)@.current),
            old(self)@.current.start == old(self)@.current.end ==> cursor_of(final(self)@.current)
                <= cursor_of(old(self)@.current),
            old(self)@.current.start == old(self)@.current.end && cursor_of(old(self)@.current)
                > 0 ==> cursor_of(final(self)@.current) < cursor_of(old(self)@.current),
    {
        if self.selected_range.start >= self.selected_range.end {
            let prev = previous_grapheme_boundary(self.content.as_str(), self.cursor_offset());
            self.move_to(prev);
        } else {
            let start = self.selected_range.start;
            self.move_to(start);
        }
    }

    pub fn move_to_home(&mut self)
        requires
            old(self).wf(),
        ensures
            final(self)@ == unrecorded(old(self)@, moved_to(old(self)@.current, 0)),
            final(self).wf(),
            on_boundaries(final(self)@.current),
    {
        proof {
            lemma_end_is_boundary(self.content@);
        }
        self.move_to(0);
    }

    pub fn move_to_end(&mut self)
        requires
            old(self).wf(),
        ensures
            final(self)@ == unrecorded(
                old(self)@,
                moved_to(old(self)@.current, content_len(old(self)@.current) as int),
            ),
            final(self).wf(),
            on_boundaries(final(self)@.current),
    {
        let len = byte_len(self.content.as_str());
        proof {
            lemma_end_is_boundary(self.content@);
        }
        self.move_to(len);
    }

    pub fn select_right(&mut self)
        requires
            old(self).wf(),
        ensures
            final(self)@ == unrecorded(
                old(self)@,
                selected_to(old(self)@.current, next_stop(old(self)@.current)),
            ),
            final(self).wf(),
            on_boundaries(old(self)@.current) ==> on_boundaries(final(self)@.current),
    {
        let len = byte_len(self.content.as_str());
        proof {
            lemma_encode_len(self.content@);
        }
        let next = next_grapheme_boundary(self.content.as_str(), self.cursor_offset(), len);
        self.select_to(next);
    }

    pub fn select_left(&mut self)
        requires
            old(self).wf(),
        ensures
            final(self)@ == unrecorded(
                old(self)@,
                selected_to(old(self)@.current, prev_stop(old(self)@.current)),
            ),
            final(self).wf(),
            on_boundaries(old(self)@.current) ==> on_boundaries(final(self)@.current),
    {
        let prev = previous_grapheme_boundary(self.content.as_str(), self.cursor_offset());
        self.select_to(prev);
    }

    pub fn select_all(&mut self)
        requires
            old(self).wf(),
        ensures
            final(self)@ == unrecorded(
                old(self)@,
                Snapshot {
                    content: old(self)@.current.content,
                    start: 0,
                    end: content_len(old(self)@.current),
                    reversed: false,
                },
            ),
            final(self).wf(),
            on_boundaries(final(self)@.current),
    {
        let len = byte_len(self.content.as_str());
        self.selected_range = Range { start: 0, end: len };
        self.selection_reversed = false;
        proof {
            lemma_end_is_boundary(self.content@);
            lemma_wf_unrecorded(old(self)@, self@.current);
        }
    }

    fn insert_no_undo(&mut self, text: &str)
        requires
            view_wf(old(self)@),
            on_boundaries(old(self)@.current),
        ensures
            final(self)@ == unrecorded(
                old(self)@,
                replaced(
                    old(self)@.current,
                    old(self)@.current.start as int,
                    old(self)@.current.end as int,
                    text@,
                ),
            ),
            view_wf(final(self)@),
            on_boundaries(final(self)@.current),
    {
        let start = self.selected_range.start;
        let end = self.selected_range.end;
        proof {
            lemma_boundary_bounds(self.content@, end as int);
        }
        let new_content = splice_text(self.content.as_str(), start, end, text);
        let total = byte_len(new_content.as_str());
        let tl = byte_len(text);
        let new_pos = start + tl;
        self.content = new_content;
        self.selected_range = Range { start: new_pos, end: new_pos };
        self.selection_reversed = false;
        proof {
            lemma_wf_unrecorded(old(self)@, self@.current);
        }
    }

    /// Replace the selection with `text`, recording the change for undo.
    pub fn insert(&mut self, text: &str)
        requires
            old(self).wf(),
            on_boundaries(old(self)@.current),
        ensures
            final(self)@ == inserted(old(self)@, text@),
            final(self).wf(),
            on_boundaries(final(self)@.current),
    {
        self.save_undo();
        self.insert_no_undo(text);
    }

    /// Remove the selection, or the grapheme before the cursor.
    pub fn backspace(&mut self)
        requires
            old(self).wf(),
            on_boundaries(old(self)@.current),
        ensures
            final(self)@ == backspaced(old(self)@),
            final(self).wf(),
            on_boundaries(final(self)@.current),
            old(self)@.current.start == 0 && old(self)@.current.end == 0 ==> final(self)@ == old(
                self,
            )@,
    {
        proof {
            reveal_strlit("");
        }
        if self.selected_range.start >= self.selected_range.end {
            let cursor = self.cursor_offset();
            let prev = previous_grapheme_boundary(self.content.as_str(), cursor);
            if prev == cursor {
                return;
            }
            self.save_undo();
            self.select_to(prev);
        } else {
            self.save_undo();
        }
        self.insert_no_undo("");
    }

    /// Remove the selection, or the grapheme after the cursor.
    pub fn delete(&mut self)
        requires
            old(self).wf(),
            on_boundaries(old(self)@.current),
        ensures
            final(self)@ == deleted(old(self)@),
            final(self).wf(),
            on_boundaries(final(self)@.current),
            old(self)@.current.start == content_len(old(self)@.current) && old(self)@.current.end
                == content_len(old(self)@.current) ==> final(self)@ == old(self)@,
    {
        proof {
            reveal_strlit("");
        }
        if self.selected_range.start >= self.selected_range.end {
            let cursor = self.cursor_offset();
            let len = byte_len(self.content.as_str());
            proof {
                lemma_encode_len(self.content@);
            }
            let next = next_grapheme_boundary(self.content.as_str(), cursor, len);
            if next == cursor {
                return;
            }
            self.save_undo();
            self.select_to(next);
        } else {
            self.save_undo();
        }
        self.insert_no_undo("");
    }

    /// Replace the bytes `range` with `text`, recording the change for undo.
    pub fn replace_range(&mut self, range: Range<usize>, text: &str)
        requires
            old(self).wf(),
            is_boundary(old(self)@.current.content, range.start as int),
            is_boundary(old(self)@.current.content, range.end as int),
        ensures
            final(self)@ == recorded(
                old(self)@,
                replaced(old(self)@.current, range.start as int, range.end as int, text@),
            ),
            final(self).wf(),
            on_boundaries(final(self)@.current),
    {
        self.save_undo();
        proof {
            lemma_boundary_bounds(self.content@, range.end as int);
        }
        let new_content = splice_text(self.content.as_str(), range.start, range.end, text);
        let total = byte_len(new_content.as_str());
        let tl = byte_len(text);
        let new_pos = range.start + tl;
        self.content = new_content;
        self.selected_range = Range { start: new_pos, end: new_pos };
        self.selection_reversed = false;
        proof {
            lemma_wf_recorded(old(self)@, self@.current);
        }
    }
}

/// Number of UTF-8 bytes of `c`.
fn char_utf8_width(c: char) -> (n: usize)
    ensures
        n == utf8_width(c),
{
    let v = c as u32;
    if v < 0x80 {
        1
    } else if v < 0x800 {
        2
    } else if v < 0x10000 {
        3
    } else {
        4
    }
}

/// Number of UTF-16 code units of `c`.
fn char_utf16_width(c: char) -> (n: usize)
    ensures
        n == utf16_width(c),
{
    if (c as u32) < 0x10000 {
        1
    } else {
        2
    }
}

impl TextInputState {
    /// The UTF-16 offset of byte offset `offset`: the characters are walked
    /// while fewer than `offset` bytes have been passed.
    pub fn offset_to_utf16(&self, offset: usize) -> (r: usize)
        ensures
            r == utf16_offset_of(self@.current.content, offset as int),
    {
        let ghost s = self.content@;
        let total = byte_len(self.content.as_str());
        let mut utf16_offset: usize = 0;
        let mut utf8_count: usize = 0;
        let ghost mut k: int = 0;
        let mut it = self.content.chars();
        proof {
            assert(s.skip(0) =~= s);
            lemma_utf8_len_take_le(s, 0);
            assert(s.take(0) =~= Seq::<char>::empty());
        }
        loop
            invariant
                0 <= k <= s.len(),
                s == self@.current.content,
                IteratorSpec::remaining(&it) == s.skip(k),
                utf8_count == utf8_len(s.take(k)),
                utf16_offset == utf16_len(s.take(k)),
                utf16_offset <= utf8_count,
                total == utf8_len(s),
                utf16_offset_of(s, offset as int) == utf16_offset + utf16_offset_of(
                    s.skip(k),
                    offset - utf8_count,
                ),
            decreases s.len() - k,
        {
            if utf8_count >= offset {
                assert(utf16_offset_of(s.skip(k), offset - utf8_count) == 0);
                return utf16_offset;
            }
            match it.next() {
                None => {
                    assert(s.skip(k).len() == 0);
                    assert(utf16_offset_of(s.skip(k), offset - utf8_count) == 0);
                    return utf16_offset;
                },
                Some(ch) => {
                    proof {
                        assert(s.skip(k)[0] == ch);
                        assert(s.skip(k).drop_first() =~= s.skip(k + 1));
                        assert(s.take(k + 1) =~= s.take(k) + seq![ch]);
                        lemma_single_char_len(ch);
                        lemma_utf8_len_concat(s.take(k), seq![ch]);
                        lemma_utf16_len_concat(s.take(k), seq![ch]);
                        lemma_width_bounds(ch);
                        lemma_utf8_len_take_le(s, k + 1);
                    }
                    utf8_count = utf8_count + char_utf8_width(ch);
                    utf16_offset = utf16_offset + char_utf16_width(ch);
                    proof {
                        k = k + 1;
                    }
                },
            }
        }
    }

    /// The byte offset of UTF-16 offset `offset`: the characters are walked
    /// while fewer than `offset` UTF-16 units have been passed.
    pub fn offset_from_utf16(&self, offset: usize) -> (r: usize)
        ensures
            r == utf8_offset_of(self@.current.content, offset as int),
    {
        let ghost s = self.content@;
        let total = byte_len(self.content.as_str());
        let mut utf8_offset: usize = 0;
        let mut utf16_count: usize = 0;
        let ghost mut k: int = 0;
        let mut it = self.content.chars();
        proof {
            assert(s.skip(0) =~= s);
            lemma_utf8_len_take_le(s, 0);
            assert(s.take(0) =~= Seq::<char>::empty());
        }
        loop
            invariant
                0 <= k <= s.len(),
                s == self@.current.content,
                IteratorSpec::remaining(&it) == s.skip(k),
                utf8_offset == utf8_len(s.take(k)),
                utf16_count == utf16_len(s.take(k)),
                utf16_count <= utf8_offset,
                total == utf8_len(s),
                utf8_offset_of(s, offset as int) == utf8_offset + utf8_offset_of(
                    s.skip(k),
                    offset - utf16_count,
                ),
            decreases s.len() - k,
        {
            if utf16_count >= offset {
                assert(utf8_offset_of(s.skip(k), offset - utf16_count) == 0);
                return utf8_offset;
            }
            match it.next() {
                None => {
                    assert(s.skip(k).len() == 0);
                    assert(utf8_offset_of(s.skip(k), offset - utf16_count) == 0);
                    return utf8_offset;
                },
                Some(ch) => {
                    proof {
                        assert(s.skip(k)[0] == ch);
                        assert(s.skip(k).drop_first() =~= s.skip(k + 1));
                        assert(s.take(k + 1) =~= s.take(k) + seq![ch]);
                        lemma_single_char_len(ch);
                        lemma_utf8_len_concat(s.take(k), seq![ch]);
                        lemma_utf16_len_concat(s.take(k), seq![ch]);
                        lemma_width_bounds(ch);
                        lemma_utf8_len_take_le(s, k + 1);
                    }
                    utf16_count = utf16_count + char_utf16_width(ch);
                    utf8_offset = utf8_offset + char_utf8_width(ch);
                    proof {
                        k = k + 1;
                    }
                },
            }
        }
    }

    pub fn range_to_utf16(&self, range: &Range<usize>) -> (r: Range<usize>)
        ensures
            r.start == utf16_offset_of(self@.current.content, range.start as int),
            r.end == utf16_offset_of(self@.current.content, range.end as int),
    {
        Range { start: self.offset_to_utf16(range.start), end: self.offset_to_utf16(range.end) }
    }

    pub fn range_from_utf16(&self, range: &Range<usize>) -> (r: Range<usize>)
        ensures
            r.start == utf8_offset_of(self@.current.content, range.start as int),
            r.end == utf8_offset_of(self@.current.content, range.end as int),
    {
        Range {
            start: self.offset_from_utf16(range.start),
            end: self.offset_from_utf16(range.end),
        }
    }
}

/// Redo takes back an undo: after undoing a recorded change, redoing it
/// restores the whole state, histories included.
pub proof fn law_redo_reverts_undo(v: EditView)
    requires
        v.undo.len() > 0,
    ensures
        redone(undone(v)) == v,
{
    assert(v.undo.drop_last().push(v.undo.last()) =~= v.undo);
    assert(v.redo.push(v.current).drop_last() =~= v.redo);
}

/// Undo takes back a redo.
pub proof fn law_undo_reverts_redo(v: EditView)
    requires
        v.redo.len() > 0,
    ensures
        undone(redone(v)) == v,
{
    assert(v.redo.drop_last().push(v.redo.last()) =~= v.redo);
    assert(v.undo.push(v.current).drop_last() =~= v.undo);
}

/// Undo after an insertion gives back the content and selection from before
/// it, with the same undo history; the insertion can then be redone.
pub proof fn law_undo_reverts_insert(v: EditView, text: Seq<char>)
    ensures
        undone(inserted(v, text)).current == v.current,
        undone(inserted(v, text)).undo == v.undo,
        redone(undone(inserted(v, text))) == inserted(v, text),
{
    assert(v.undo.push(v.current).drop_last() =~= v.undo);
    law_redo_reverts_undo(inserted(v, text));
}

/// Extending a selection moves only its cursor end: the cursor lands on the
/// clamped offset, the anchor stays, and the selection stays well formed.
pub proof fn law_select_to_keeps_anchor(s: Snapshot, offset: int)
    requires
        snapshot_wf(s),
    ensures
        cursor_of(selected_to(s, offset)) == clamp(offset, content_len(s)),
        anchor_of(selected_to(s, offset)) == anchor_of(s),
        snapshot_wf(selected_to(s, offset)),
        selected_to(s, offset).content == s.content,
{
}

/// Shift+left moves only the cursor end of the selection, whichever way the
/// selection runs: the anchor stays, and the cursor goes strictly back (to a
/// boundary before it) unless it is already at the start.
pub proof fn law_select_left_extends(s: Snapshot)
    requires
        snapshot_wf(s),
    ensures
        anchor_of(selected_to(s, prev_stop(s))) == anchor_of(s),
        selected_to(s, prev_stop(s)).content == s.content,
        cursor_of(s) > 0 ==> cursor_of(selected_to(s, prev_stop(s))) < cursor_of(s),
        cursor_of(s) == 0 ==> cursor_of(selected_to(s, prev_stop(s))) == 0,
{
    let p = prev_stop(s);
    lemma_boundary_before_member(grapheme_starts(s.content), cursor_of(s) as int);
    law_select_to_keeps_anchor(s, p);
}

/// Shift+right moves only the cursor end of the selection, whichever way the
/// selection runs: the anchor stays, and the cursor goes strictly forward
/// unless it is already at the end.
pub proof fn law_select_right_extends(s: Snapshot)
    requires
        snapshot_wf(s),
    ensures
        anchor_of(selected_to(s, next_stop(s))) == anchor_of(s),
        selected_to(s, next_stop(s)).content == s.content,
        cursor_of(s) < content_len(s) ==> cursor_of(selected_to(s, next_stop(s))) > cursor_of(s),
        cursor_of(s) == content_len(s) ==> cursor_of(selected_to(s, next_stop(s))) == content_len(s),
{
    let n = next_stop(s);
    lemma_boundary_after_member(
        grapheme_starts(s.content),
        cursor_of(s) as int,
        content_len(s) as int,
    );
    law_select_to_keeps_anchor(s, n);
}

/// Moving right leaves no selection. A selection collapses to its right end,
/// whichever way it runs; with no selection the cursor goes strictly forward
/// unless it is at the end. The cursor never moves left.
pub proof fn law_move_right_collapses_right(s: Snapshot)
    requires
        snapshot_wf(s),
    ensures
        moved_right(s).start == moved_right(s).end,
        moved_right(s).content == s.content,
        s.start < s.end ==> moved_right(s).start == s.end,
        cursor_of(moved_right(s)) >= cursor_of(s),
        s.start == s.end && s.end < content_len(s) ==> cursor_of(moved_right(s)) > cursor_of(s),
{
    lemma_boundary_after_member(
        grapheme_starts(s.content),
        cursor_of(s) as int,
        content_len(s) as int,
    );
}

/// Moving left leaves no selection. A selection collapses to its left end,
/// whichever way it runs; with no selection the cursor goes strictly back
/// unless it is at the start. The cursor never moves right.
pub proof fn law_move_left_collapses_left(s: Snapshot)
    requires
        snapshot_wf(s),
    ensures
        moved_left(s).start == moved_left(s).end,
        moved_left(s).content == s.content,
        s.start < s.end ==> moved_left(s).start == s.start,
        cursor_of(moved_left(s)) <= cursor_of(s),
        s.start == s.end && s.start > 0 ==> cursor_of(moved_left(s)) < cursor_of(s),
{
    lemma_boundary_before_member(grapheme_starts(s.content), cursor_of(s) as int);
}

/// Every change that is recorded for undo drops the redo history.
pub proof fn law_recorded_change_clears_redo(v: EditView, text: Seq<char>)
    ensures
        inserted(v, text).redo.len() == 0,
        backspaced(v) == v || backspaced(v).redo.len() == 0,
        deleted(v) == v || deleted(v).redo.len() == 0,
{
}

/// Calls `String::push`: appends `c` to the end of `s`.
#[verifier::external_body]
fn push_char(s: &mut String, c: char)
    ensures
        final(s)@ == old(s)@.push(c),
{
    s.push(c);
}

/// `c`, with a line feed turned into a space.
pub open spec fn newline_as_space(c: char) -> char {
    if c == '\n' {
        ' '
    } else {
        c
    }
}

/// The text with every line feed replaced by a space (a pasted text must fit
/// on the single line of the input).
pub fn newlines_to_spaces(text: &str) -> (r: String)
    ensures
        r@ == text@.map_values(|c: char| newline_as_space(c)),
{
    let ghost s = text@;
    let mut r = String::new();
    let mut it = text.chars();
    let ghost mut k: int = 0;
    assert(s.skip(0) =~= s);
    loop
        invariant
            s == text@,
            0 <= k <= s.len(),
            IteratorSpec::remaining(&it) == s.skip(k),
            r@ =~= s.take(k).map_values(|c: char| newline_as_space(c)),
        decreases s.len() - k,
    {
        match it.next() {
            None => {
                assert(s.skip(k).len() == 0);
                assert(s.take(k) =~= s);
                return r;
            },
            Some(ch) => {
                proof {
                    assert(s.skip(k)[0] == ch);
                    assert(s.skip(k).drop_first() =~= s.skip(k + 1));
                    assert(s.take(k + 1) =~= s.take(k).push(ch));
                }
                let out = if ch == '\n' {
                    ' '
                } else {
                    ch
                };
                push_char(&mut r, out);
                proof {
                    k = k + 1;
                }
            },
        }
    }
}

/// The characters of `s` between byte offsets `start` and `end`.
pub open spec fn byte_slice(s: Seq<char>, start: int, end: int) -> Seq<char> {
    decode_utf8(bytes_of(s).subrange(start, end))
}

/// The text between two boundaries, as an owned string.
pub(crate) fn slice_text(content: &str, start: usize, end: usize) -> (r: String)
    requires
        is_boundary(content@, start as int),
        is_boundary(content@, end as int),
        start <= end,
    ensures
        r@ == byte_slice(content@, start as int, end as int),
{
    let ghost s = content@;
    proof {
        lemma_boundary_is_prefix(s, start as int);
        lemma_boundary_is_prefix(s, end as int);
    }
    let ghost i = choose|k: int| 0 <= k <= s.len() && #[trigger] utf8_len(s.take(k)) == start;
    let ghost j = choose|k: int| 0 <= k <= s.len() && #[trigger] utf8_len(s.take(k)) == end;
    let (head, _) = content.split_at(end);
    proof {
        lemma_decode_encode(s);
        lemma_decode_encode(head@);
        lemma_encode_len(head@);
        let b = bytes_of(s);
        assert(s =~= s.take(j) + s.skip(j));
        lemma_encode_concat(s.take(j), s.skip(j));
        lemma_encode_len(s.take(j));
        assert(b.subrange(0, end as int) =~= bytes_of(s.take(j)));
        lemma_encode_injective(head@, s.take(j));
        assert(i <= j) by {
            if i > j {
                lemma_take_strict(s, j, i);
            }
        }
        assert(head@.take(i) =~= s.take(i));
        lemma_prefix_boundary(head@, i);
    }
    let (_, mid) = head.split_at(start);
    let r = mid.to_owned();
    proof {
        let hb = bytes_of(head@);
        let b = bytes_of(s);
        assert(hb.subrange(start as int, hb.len() as int) =~= b.subrange(start as int, end as int));
        lemma_decode_encode(r@);
    }
    r
}

/// A prefix that is longer by at least one character has more bytes.
proof fn lemma_take_strict(s: Seq<char>, j: int, i: int)
    requires
        0 <= j < i <= s.len(),
    ensures
        utf8_len(s.take(j)) < utf8_len(s.take(i)),
{
    let t = s.take(i);
    assert(t =~= t.take(j) + t.skip(j));
    assert(t.take(j) =~= s.take(j));
    lemma_utf8_len_concat(t.take(j), t.skip(j));
    assert(t.skip(j).len() > 0);
    lemma_width_bounds(t.skip(j)[0]);
}

/// The byte range an input-method request applies to: the given UTF-16 range
/// converted to bytes, else the marked range, else the selection.
pub open spec fn target_range(
    s: Snapshot,
    range_utf16: Option<Range<usize>>,
    marked: Option<Range<usize>>,
) -> (nat, nat) {
    match range_utf16 {
        Some(r) => (utf8_offset_of(s.content, r.start as int), utf8_offset_of(s.content, r.end as int)),
        None => match marked {
            Some(m) => (m.start as nat, m.end as nat),
            None => (s.start, s.end),
        },
    }
}

/// The selection an input-method request asks for, in bytes of the new
/// content: the given UTF-16 range, read against the old content and shifted
/// by the start of the target range; else an empty selection after the new text.
pub open spec fn ime_selection(
    s: Snapshot,
    target: (nat, nat),
    text: Seq<char>,
    sel_utf16: Option<Range<usize>>,
) -> (nat, nat) {
    match sel_utf16 {
        Some(r) => (
            utf8_offset_of(s.content, r.start as int) + target.0,
            utf8_offset_of(s.content, r.end as int) + target.0,
        ),
        None => (target.0 + utf8_len(text), target.0 + utf8_len(text)),
    }
}

/// The snapshot after an input method replaces the target range with marked
/// text: the content is spliced, the cursor is put at the start of the asked
/// selection, and the selection is extended to its end when that differs.
pub open spec fn marked_replacement(
    s: Snapshot,
    target: (nat, nat),
    text: Seq<char>,
    sel_utf16: Option<Range<usize>>,
) -> Snapshot {
    let fresh = Snapshot {
        content: splice(s.content, target.0 as int, target.1 as int, text),
        start: 0,
        end: 0,
        reversed: false,
    };
    let sel = ime_selection(s, target, text, sel_utf16);
    let moved = moved_to(fresh, sel.0 as int);
    if sel.0 != sel.1 {
        selected_to(moved, sel.1 as int)
    } else {
        moved
    }
}

/// Where the pointer is relative to the laid-out line of a text input, as
/// the UI measured it.
pub enum LinePosition {
    /// Above the line's bounds.
    Above,
    /// Below the line's bounds.
    Below,
    /// Level with the line; the byte index closest to the pointer on it.
    Within(usize),
}

/// The editing state of a text input view apart from its UI: the text state,
/// the range marked by an input method, and whether a mouse drag is selecting.
pub struct TextInputCore {
    pub state: TextInputState,
    pub marked_range: Option<Range<usize>>,
    pub is_selecting: bool,
}

impl TextInputCore {
    pub fn new(initial: &str) -> (c: Self)
        ensures
            c.state.wf(),
            c.state@.current == (Snapshot { content: initial@, start: 0, end: 0, reversed: false }),
            c.state@.undo.len() == 0,
            c.state@.redo.len() == 0,
            c.marked_range is None,
            !c.is_selecting,
    {
        TextInputCore { state: TextInputState::new(initial), marked_range: None, is_selecting: false }
    }

    /// Backspace, which also ends any marked text.
    pub fn backspace(&mut self)
        requires
            old(self).state.wf(),
            on_boundaries(old(self).state@.current),
        ensures
            final(self).state.wf(),
            final(self).state@ == backspaced(old(self).state@),
            final(self).marked_range is None,
            final(self).is_selecting == old(self).is_selecting,
    {
        self.state.backspace();
        self.marked_range = None;
    }

    /// Delete, which also ends any marked text.
    pub fn delete(&mut self)
        requires
            old(self).state.wf(),
            on_boundaries(old(self).state@.current),
        ensures
            final(self).state.wf(),
            final(self).state@ == deleted(old(self).state@),
            final(self).marked_range is None,
            final(self).is_selecting == old(self).is_selecting,
    {
        self.state.delete();
        self.marked_range = None;
    }

    /// Undo, which also ends any marked text.
    pub fn undo(&mut self)
        requires
            old(self).state.wf(),
        ensures
            final(self).state.wf(),
            final(self).state@ == undone(old(self).state@),
            final(self).marked_range is None,
            final(self).is_selecting == old(self).is_selecting,
    {
        self.state.undo();
        self.marked_range = None;
    }

    /// Redo, which also ends any marked text.
    pub fn redo(&mut self)
        requires
            old(self).state.wf(),
        ensures
            final(self).state.wf(),
            final(self).state@ == redone(old(self).state@),
            final(self).marked_range is None,
            final(self).is_selecting == old(self).is_selecting,
    {
        self.state.redo();
        self.marked_range = None;
    }

    /// Paste clipboard text: line feeds become spaces, then it replaces the selection.
    pub fn paste(&mut self, text: &str)
        requires
            old(self).state.wf(),
            on_boundaries(old(self).state@.current),
        ensures
            final(self).state.wf(),
            final(self).state@ == inserted(
                old(self).state@,
                text@.map_values(|c: char| newline_as_space(c)),
            ),
            final(self).marked_range == old(self).marked_range,
            final(self).is_selecting == old(self).is_selecting,
    {
        let line = newlines_to_spaces(text);
        self.state.insert(line.as_str());
    }

    /// The selected text to copy, or `None` when the selection is empty.
    pub fn copy(&self) -> (r: Option<String>)
        requires
            self.state.wf(),
            on_boundaries(self.state@.current),
        ensures
            match r {
                Some(t) => self.state@.current.start < self.state@.current.end && t@ == byte_slice(
                    self.state@.current.content,
                    self.state@.current.start as int,
                    self.state@.current.end as int,
                ),
                None => self.state@.current.start >= self.state@.current.end,
            },
    {
        let range = self.state.selected_range();
        if range.start < range.end {
            Some(slice_text(self.state.content(), range.start, range.end))
        } else {
            None
        }
    }

    /// Cut: the selected text to copy, which is then removed (recorded for
    /// undo); nothing happens when the selection is empty.
    pub fn cut(&mut self) -> (r: Option<String>)
        requires
            old(self).state.wf(),
            on_boundaries(old(self).state@.current),
        ensures
            final(self).state.wf(),
            match r {
                Some(t) => old(self).state@.current.start < old(self).state@.current.end && t@
                    == byte_slice(
                    old(self).state@.current.content,
                    old(self).state@.current.start as int,
                    old(self).state@.current.end as int,
                ) && final(self).state@ == inserted(old(self).state@, Seq::empty()),
                None => old(self).state@.current.start >= old(self).state@.current.end
                    && final(self).state@ == old(self).state@,
            },
            final(self).marked_range == old(self).marked_range,
            final(self).is_selecting == old(self).is_selecting,
    {
        proof {
            reveal_strlit("");
        }
        let range = self.state.selected_range();
        if range.start < range.end {
            let text = slice_text(self.state.content(), range.start, range.end);
            self.state.insert("");
            Some(text)
        } else {
            None
        }
    }

    /// The byte offset a pointer position stands for: 0 for an empty text or
    /// when no line is laid out (`None`), 0 above the line, the end below it,
    /// else the index closest to the pointer on the line.
    pub fn index_for_position(&self, position: Option<LinePosition>) -> (r: usize)
        ensures
            r == (if self.state@.current.content.len() == 0 {
                0
            } else {
                match position {
                    None => 0,
                    Some(LinePosition::Above) => 0,
                    Some(LinePosition::Below) => content_len(self.state@.current),
                    Some(LinePosition::Within(i)) => i as nat,
                }
            }),
    {
        let len = byte_len(self.state.content());
        if len == 0 {
            proof {
                lemma_utf8_len_zero(self.state@.current.content);
            }
            return 0;
        }
        match position {
            None => 0,
            Some(LinePosition::Above) => 0,
            Some(LinePosition::Below) => len,
            Some(LinePosition::Within(i)) => i,
        }
    }

    /// Mouse press at byte offset `offset`: starts a drag selection, and
    /// extends the selection with shift held, else moves the cursor.
    pub fn mouse_down(&mut self, offset: usize, shift: bool)
        requires
            old(self).state.wf(),
        ensures
            final(self).state.wf(),
            final(self).is_selecting,
            final(self).state@ == unrecorded(
                old(self).state@,
                if shift {
                    selected_to(old(self).state@.current, offset as int)
                } else {
                    moved_to(old(self).state@.current, offset as int)
                },
            ),
            final(self).marked_range == old(self).marked_range,
    {
        self.is_selecting = true;
        if shift {
            self.state.select_to(offset);
        } else {
            self.state.move_to(offset);
        }
    }

    /// Mouse release: the drag selection ends.
    pub fn mouse_up(&mut self)
        ensures
            !final(self).is_selecting,
            final(self).state == old(self).state,
            final(self).marked_range == old(self).marked_range,
    {
        self.is_selecting = false;
    }

    /// Mouse move over byte offset `offset`: extends the selection while dragging.
    pub fn mouse_move(&mut self, offset: usize)
        requires
            old(self).state.wf(),
        ensures
            final(self).state.wf(),
            final(self).state@ == (if old(self).is_selecting {
                unrecorded(old(self).state@, selected_to(old(self).state@.current, offset as int))
            } else {
                old(self).state@
            }),
            final(self).is_selecting == old(self).is_selecting,
            final(self).marked_range == old(self).marked_range,
    {
        if self.is_selecting {
            self.state.select_to(offset);
        }
    }

    /// The text for a UTF-16 range, with the UTF-16 range it actually covers.
    pub fn text_for_range(&self, range_utf16: Range<usize>) -> (r: (String, Range<usize>))
        requires
            self.state.wf(),
            utf8_offset_of(self.state@.current.content, range_utf16.start as int)
                <= utf8_offset_of(self.state@.current.content, range_utf16.end as int),
        ensures
            ({
                let s = self.state@.current.content;
                let a = utf8_offset_of(s, range_utf16.start as int);
                let b = utf8_offset_of(s, range_utf16.end as int);
                &&& r.0@ == byte_slice(s, a as int, b as int)
                &&& r.1.start == utf16_offset_of(s, a as int)
                &&& r.1.end == utf16_offset_of(s, b as int)
            }),
    {
        let range = self.state.range_from_utf16(&range_utf16);
        let actual = self.state.range_to_utf16(&range);
        proof {
            law_utf8_offset_is_boundary(self.state@.current.content, range_utf16.start as int);
            law_utf8_offset_is_boundary(self.state@.current.content, range_utf16.end as int);
        }
        let text = slice_text(self.state.content(), range.start, range.end);
        (text, actual)
    }

    /// The selection in UTF-16 offsets, and whether it runs backwards.
    pub fn selected_text_range(&self) -> (r: (Range<usize>, bool))
        requires
            self.state.wf(),
        ensures
            r.0.start == utf16_offset_of(self.state@.current.content, self.state@.current.start as int),
            r.0.end == utf16_offset_of(self.state@.current.content, self.state@.current.end as int),
            r.1 == (self.state@.current.start > self.state@.current.end),
    {
        let sel = self.state.selected_range();
        let reversed = sel.start > sel.end;
        (self.state.range_to_utf16(&sel), reversed)
    }

    /// The marked range in UTF-16 offsets, if any.
    pub fn marked_text_range(&self) -> (r: Option<Range<usize>>)
        ensures
            match (r, self.marked_range) {
                (Some(u), Some(m)) => u.start == utf16_offset_of(
                    self.state@.current.content,
                    m.start as int,
                ) && u.end == utf16_offset_of(self.state@.current.content, m.end as int),
                (None, None) => true,
                _ => false,
            },
    {
        match &self.marked_range {
            Some(m) => Some(self.state.range_to_utf16(m)),
            None => None,
        }
    }

    pub fn unmark_text(&mut self)
        ensures
            final(self).marked_range is None,
            final(self).state == old(self).state,
            final(self).is_selecting == old(self).is_selecting,
    {
        self.marked_range = None;
    }

    fn resolve_range(&self, range_utf16: &Option<Range<usize>>) -> (r: Range<usize>)
        requires
            self.state.wf(),
        ensures
            (r.start as nat, r.end as nat) == target_range(
                self.state@.current,
                *range_utf16,
                self.marked_range,
            ),
            range_utf16 is Some ==> is_boundary(self.state@.current.content, r.start as int)
                && is_boundary(self.state@.current.content, r.end as int),
    {
        match range_utf16 {
            Some(r) => {
                proof {
                    law_utf8_offset_is_boundary(self.state@.current.content, r.start as int);
                    law_utf8_offset_is_boundary(self.state@.current.content, r.end as int);
                }
                self.state.range_from_utf16(r)
            },
            None => match &self.marked_range {
                Some(m) => Range { start: m.start, end: m.end },
                None => self.state.selected_range(),
            },
        }
    }

    /// Replace the target range (see `target_range`) with `new_text`, recorded
    /// for undo, and end any marked text.
    pub fn replace_text_in_range(&mut self, range_utf16: Option<Range<usize>>, new_text: &str)
        requires
            old(self).state.wf(),
            is_boundary(
                old(self).state@.current.content,
                target_range(old(self).state@.current, range_utf16, old(self).marked_range).0 as int,
            ),
            is_boundary(
                old(self).state@.current.content,
                target_range(old(self).state@.current, range_utf16, old(self).marked_range).1 as int,
            ),
        ensures
            final(self).state.wf(),
            ({
                let t = target_range(old(self).state@.current, range_utf16, old(self).marked_range);
                final(self).state@ == recorded(
                    old(self).state@,
                    replaced(old(self).state@.current, t.0 as int, t.1 as int, new_text@),
                )
            }),
            final(self).marked_range is None,
            final(self).is_selecting == old(self).is_selecting,
    {
        let range = self.resolve_range(&range_utf16);
        self.state.replace_range(range, new_text);
        self.marked_range = None;
    }
    /// Replace the target range with `new_text` as marked (composing) text.
    /// The change is not recorded for undo. The new text becomes the marked
    /// range unless it is empty, and the selection is the one asked for.
    pub fn replace_and_mark_text_in_range(
        &mut self,
        range_utf16: Option<Range<usize>>,
        new_text: &str,
        new_selected_range_utf16: Option<Range<usize>>,
    )
        requires
            old(self).state.wf(),
            utf8_len(old(self).state@.current.content) <= isize::MAX,
            is_boundary(
                old(self).state@.current.content,
                target_range(old(self).state@.current, range_utf16, old(self).marked_range).0 as int,
            ),
            is_boundary(
                old(self).state@.current.content,
                target_range(old(self).state@.current, range_utf16, old(self).marked_range).1 as int,
            ),
        ensures
            final(self).state.wf(),
            ({
                let t = target_range(old(self).state@.current, range_utf16, old(self).marked_range);
                &&& final(self).state@ == unrecorded(
                    old(self).state@,
                    marked_replacement(old(self).state@.current, t, new_text@, new_selected_range_utf16),
                )
                &&& utf8_len(new_text@) == 0 ==> final(self).marked_range is None
                &&& utf8_len(new_text@) > 0 ==> (final(self).marked_range matches Some(m)
                    && m.start == t.0 && m.end == t.0 + utf8_len(new_text@))
            }),
            final(self).is_selecting == old(self).is_selecting,
    {
        let range = self.resolve_range(&range_utf16);
        let ghost s = self.state@.current.content;
        proof {
            lemma_boundary_bounds(s, range.start as int);
            lemma_boundary_bounds(s, range.end as int);
        }
        let new_content = splice_text(self.state.content(), range.start, range.end, new_text);
        let tl = byte_len(new_text);
        let total = byte_len(new_content.as_str());
        if tl > 0 {
            self.marked_range = Some(Range { start: range.start, end: range.start + tl });
        } else {
            self.marked_range = None;
        }
        let new_selected = match &new_selected_range_utf16 {
            Some(r) => {
                proof {
                    law_utf8_offset_is_boundary(s, r.start as int);
                    law_utf8_offset_is_boundary(s, r.end as int);
                }
                let rr = self.state.range_from_utf16(r);
                Range { start: rr.start + range.start, end: rr.end + range.start }
            },
            None => {
                let pos = range.start + tl;
                Range { start: pos, end: pos }
            },
        };
        self.state.set_content(new_content);
        self.state.move_to(new_selected.start);
        if new_selected.start != new_selected.end {
            self.state.select_to(new_selected.end);
        }
    }
}

/// One run of a laid-out line: its byte length, or a run of `n` bytes that is
/// underlined when `marked`, kept only when it has bytes.
pub open spec fn run_if_any(n: int, marked: bool) -> Seq<(usize, bool)> {
    if n > 0 {
        seq![(n as usize, marked)]
    } else {
        Seq::empty()
    }
}

/// The runs of a displayed text of `len` bytes: one plain run, or with a
/// marked range, the text before it, the marked text (underlined) and the
/// text after it, leaving out runs with no bytes.
pub open spec fn marked_runs(len: int, marked: Option<Range<usize>>) -> Seq<(usize, bool)> {
    match marked {
        None => seq![(len as usize, false)],
        Some(m) => run_if_any(m.start as int, false) + run_if_any(m.end - m.start, true)
            + run_if_any(len - m.end, false),
    }
}

/// The text runs (byte length, underlined) for a displayed text of `len`
/// bytes with an optional marked range (see `marked_runs`).
pub fn marked_text_runs(len: usize, marked: Option<Range<usize>>) -> (r: Vec<(usize, bool)>)
    requires
        marked matches Some(m) ==> m.start <= m.end <= len,
    ensures
        r@ == marked_runs(len as int, marked),
{
    let mut runs: Vec<(usize, bool)> = Vec::new();
    match &marked {
        None => {
            runs.push((len, false));
        },
        Some(m) => {
            if m.start > 0 {
                runs.push((m.start, false));
            }
            if m.end - m.start > 0 {
                runs.push((m.end - m.start, true));
            }
            if len - m.end > 0 {
                runs.push((len - m.end, false));
            }
        },
    }
    proof {
        match marked {
            None => {
                assert(runs@ =~= seq![(len, false)]);
            },
            Some(m) => {
                assert(runs@ =~= run_if_any(m.start as int, false) + run_if_any(m.end - m.start, true)
                    + run_if_any(len - m.end, false));
            },
        }
    }
    runs
}

} // verus!
