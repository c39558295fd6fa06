//! Single-line text fields edited through the platform text input: the
//! inline rename field of a sidebar row and the sidebar filter. Offsets are
//! bytes into the UTF-8 text; the platform speaks UTF-16.

use vstd::prelude::*;
use std::ops::Range;
use crate::grapheme::{
    next_boundary, next_inline_rename_boundary, previous_boundary, previous_inline_rename_boundary,
};
use crate::strings::{
    lemma_splice_text, splice_into, splice_text, strip_line_breaks, substring, without_line_breaks,
};
use crate::utf::{
    byte_len, byte_offset_from_utf16, byte_range_from_utf16, byte_to_utf16, char_index_of,
    inline_rename_selected_range, is_char_offset, lemma_char_index_of, lemma_empty_lens,
    lemma_utf16_to_byte, range_to_utf16, utf16_to_byte, utf8_len,
};

verus! {

broadcast use vstd::seq::group_seq_axioms;

/// `range` is an ordered byte range of `s` whose ends fall between
/// characters.
pub open spec fn valid_range(s: Seq<char>, range: Range<usize>) -> bool {
    &&& range.start <= range.end
    &&& is_char_offset(s, range.start as int)
    &&& is_char_offset(s, range.end as int)
}

/// What an editable field holds: its text, the selection (with the caret at
/// its start when reversed, at its end otherwise), the text an input method
/// is composing, and the state to go back to when that composition is
/// cancelled.
pub struct FieldState {
    pub text: Seq<char>,
    pub selected: Range<usize>,
    pub reversed: bool,
    pub marked: Option<Range<usize>>,
    pub snapshot: Option<(Seq<char>, Range<usize>, bool)>,
}

/// The invariant every field keeps: selection and marked text lie on
/// character boundaries of the text, a snapshot on those of its own text,
/// and there is marked text only while a composition is open.
pub open spec fn field_wf(st: FieldState) -> bool {
    &&& valid_range(st.text, st.selected)
    &&& (st.marked matches Some(m) ==> valid_range(st.text, m))
    &&& (st.snapshot matches Some(snap) ==> valid_range(snap.0, snap.1))
    &&& (st.snapshot is None ==> st.marked is None)
}

/// The caret: the start of the selection when it is reversed, its end
/// otherwise.
pub open spec fn caret(selected: Range<usize>, reversed: bool) -> usize {
    if reversed {
        selected.start
    } else {
        selected.end
    }
}

/// The other end of the selection, which stays put while it is extended.
pub open spec fn anchor(selected: Range<usize>, reversed: bool) -> usize {
    if reversed {
        selected.end
    } else {
        selected.start
    }
}

/// Selection and direction after moving the caret to `offset` while keeping
/// the anchor: the range is put back in order, flipping the direction when
/// the caret crosses the anchor.
pub open spec fn select_to(selected: Range<usize>, reversed: bool, offset: usize) -> (
    Range<usize>,
    bool,
) {
    let start = if reversed {
        offset
    } else {
        selected.start
    };
    let end = if reversed {
        selected.end
    } else {
        offset
    };
    if end < start {
        (end..start, !reversed)
    } else {
        (start..end, reversed)
    }
}

/// Moves the caret of the selection to `offset`, extending from the anchor.
pub fn select_inline_rename_to_fields(
    selected_range: &mut Range<usize>,
    selection_reversed: &mut bool,
    offset: usize,
)
    ensures
        (*final(selected_range), *final(selection_reversed)) == select_to(
            *old(selected_range),
            *old(selection_reversed),
            offset,
        ),
{
    if *selection_reversed {
        selected_range.start = offset;
    } else {
        selected_range.end = offset;
    }
    if selected_range.end < selected_range.start {
        *selection_reversed = !*selection_reversed;
        *selected_range = selected_range.end..selected_range.start;
    }
}

/// Extending a selection moves its caret exactly to the target, keeps its
/// anchor where it was and leaves the range in order.
pub proof fn law_select_to_moves_only_the_caret(selected: Range<usize>, reversed: bool, offset: usize)
    ensures
        ({
            let (next, next_reversed) = select_to(selected, reversed, offset);
            &&& caret(next, next_reversed) == offset
            &&& anchor(next, next_reversed) == anchor(selected, reversed)
            &&& next.start <= next.end
        }),
{
}

/// The field built from its parts.
pub open spec fn field_state(
    text: Seq<char>,
    selected: Range<usize>,
    reversed: bool,
    marked: Option<Range<usize>>,
    snapshot: Option<(Seq<char>, Range<usize>, bool)>,
) -> FieldState {
    FieldState { text, selected, reversed, marked, snapshot }
}

/// Byte range an edit applies to: the UTF-16 range the platform names, else
/// the marked text, else the selection.
pub open spec fn edit_range(
    text: Seq<char>,
    range_utf16: Option<Range<usize>>,
    marked: Option<Range<usize>>,
    selected: Range<usize>,
) -> (int, int) {
    match range_utf16 {
        Some(r) => (utf16_to_byte(text, r.start as int), utf16_to_byte(text, r.end as int)),
        None => match marked {
            Some(m) => (m.start as int, m.end as int),
            None => (selected.start as int, selected.end as int),
        },
    }
}

/// Inserting committed text: the edit range is replaced by `new_text`
/// without its line breaks, the caret lands right after it, and any
/// composition ends.
pub open spec fn replaced(st: FieldState, range_utf16: Option<Range<usize>>, new_text: Seq<char>) -> FieldState {
    let (start, end) = edit_range(st.text, range_utf16, st.marked, st.selected);
    let replacement = without_line_breaks(new_text);
    let next = (start + utf8_len(replacement)) as usize;
    FieldState {
        text: splice_text(st.text, start, end, replacement),
        selected: next..next,
        reversed: false,
        marked: None,
        snapshot: None,
    }
}

/// Inserting text an input method is still composing: the field remembers
/// how it looked before the composition began, the inserted text becomes
/// the marked text (none when it is empty), and the selection is the one the
/// input method asks for inside it, or the caret after it.
pub open spec fn marked_replaced(
    st: FieldState,
    range_utf16: Option<Range<usize>>,
    new_text: Seq<char>,
    new_selected_utf16: Option<Range<usize>>,
) -> FieldState {
    let (start, end) = edit_range(st.text, range_utf16, st.marked, st.selected);
    let replacement = without_line_breaks(new_text);
    let marked_end = (start + utf8_len(replacement)) as usize;
    FieldState {
        text: splice_text(st.text, start, end, replacement),
        selected: match new_selected_utf16 {
            Some(sel) => (start + utf16_to_byte(replacement, sel.start as int)) as usize..(start
                + utf16_to_byte(replacement, sel.end as int)) as usize,
            None => marked_end..marked_end,
        },
        reversed: false,
        marked: if replacement.len() == 0 {
            None
        } else {
            Some(start as usize..marked_end)
        },
        snapshot: match st.snapshot {
            Some(snap) => Some(snap),
            None => Some((st.text, st.selected, st.reversed)),
        },
    }
}

/// Committing a composition keeps the text as composed.
pub open spec fn committed(st: FieldState) -> FieldState {
    if st.snapshot is Some {
        FieldState { marked: None, snapshot: None, ..st }
    } else {
        st
    }
}

/// Cancelling a composition puts back the text and selection from before it.
pub open spec fn cancelled(st: FieldState) -> FieldState {
    match st.snapshot {
        Some(snap) => FieldState {
            text: snap.0,
            selected: snap.1,
            reversed: snap.2,
            marked: None,
            snapshot: None,
        },
        None => st,
    }
}

/// The caret alone at `offset`.
pub open spec fn collapsed_at(st: FieldState, offset: usize) -> FieldState {
    FieldState { selected: offset..offset, reversed: false, ..st }
}

/// The caret moved to `offset`, extending the selection from its anchor.
pub open spec fn selected_to(st: FieldState, offset: usize) -> FieldState {
    FieldState {
        selected: select_to(st.selected, st.reversed, offset).0,
        reversed: select_to(st.selected, st.reversed, offset).1,
        ..st
    }
}

/// The grapheme boundary next to the caret, to the right or to the left.
pub open spec fn caret_target(st: FieldState, right: bool) -> usize {
    let at = caret(st.selected, st.reversed) as int;
    if right {
        next_boundary(st.text, at) as usize
    } else {
        previous_boundary(st.text, at) as usize
    }
}

/// Left/Right: with Shift the caret extends the selection by one grapheme;
/// without it a caret moves by one grapheme and a selection collapses to its
/// end on that side.
pub open spec fn moved_horizontally(st: FieldState, right: bool, extend: bool) -> FieldState {
    if extend {
        selected_to(st, caret_target(st, right))
    } else if st.selected.end <= st.selected.start {
        collapsed_at(st, caret_target(st, right))
    } else {
        collapsed_at(
            st,
            if right {
                st.selected.end
            } else {
                st.selected.start
            },
        )
    }
}

/// The whole text selected.
pub open spec fn all_selected(st: FieldState) -> FieldState {
    FieldState { selected: 0..utf8_len(st.text) as usize, reversed: false, ..st }
}

/// Bytes Backspace (`backwards`) or Delete removes: the selection, or the
/// grapheme before or after a lone caret.
pub open spec fn deletion_range(st: FieldState, backwards: bool) -> (int, int) {
    let at = caret(st.selected, st.reversed) as int;
    if st.selected.end <= st.selected.start {
        if backwards {
            (previous_boundary(st.text, at), at)
        } else {
            (at, next_boundary(st.text, at))
        }
    } else {
        (st.selected.start as int, st.selected.end as int)
    }
}

/// Backspace or Delete: the deletion range goes, the caret stays where it
/// started, and any composition ends.
pub open spec fn deleted(st: FieldState, backwards: bool) -> FieldState {
    let (start, end) = deletion_range(st, backwards);
    FieldState {
        text: splice_text(st.text, start, end, Seq::<char>::empty()),
        selected: start as usize..start as usize,
        reversed: false,
        marked: None,
        snapshot: None,
    }
}

/// The byte range an edit applies to.
fn edit_byte_range(
    text: &str,
    range_utf16: &Option<Range<usize>>,
    marked: &Option<Range<usize>>,
    selected: &Range<usize>,
) -> (r: Range<usize>)
    requires
        valid_range(text@, *selected),
        *marked matches Some(m) ==> valid_range(text@, m),
        *range_utf16 matches Some(u) ==> u.start <= u.end,
    ensures
        (r.start as int, r.end as int) == edit_range(text@, *range_utf16, *marked, *selected),
        valid_range(text@, r),
{
    match range_utf16 {
        Some(range) => {
            proof {
                lemma_utf16_to_byte(text@, range.start as int, range.end as int);
            }
            byte_range_from_utf16(text, range)
        },
        None => match marked {
            Some(m) => m.start..m.end,
            None => selected.start..selected.end,
        },
    }
}

/// Replaces the edit range by committed text, on the parts of a field.
fn replace_parts(
    text: &mut String,
    selected: &mut Range<usize>,
    reversed: &mut bool,
    marked: &mut Option<Range<usize>>,
    range_utf16: Option<Range<usize>>,
    new_text: &str,
)
    requires
        valid_range(old(text)@, *old(selected)),
        *old(marked) matches Some(m) ==> valid_range(old(text)@, m),
        range_utf16 matches Some(u) ==> u.start <= u.end,
    ensures
        field_state(final(text)@, *final(selected), *final(reversed), *final(marked), None)
            == replaced(
            field_state(old(text)@, *old(selected), *old(reversed), *old(marked), None),
            range_utf16,
            new_text@,
        ),
        valid_range(final(text)@, *final(selected)),
{
    let range = edit_byte_range(text.as_str(), &range_utf16, marked, selected);
    let replacement = strip_line_breaks(new_text);
    let length = byte_len(replacement.as_str());
    proof {
        lemma_splice_text(text@, range.start as int, range.end as int, replacement@);
    }
    splice_into(text, range.start, range.end, replacement.as_str());
    let next = range.start + length;
    *selected = next..next;
    *reversed = false;
    *marked = None;
}

/// Replaces the edit range by text still being composed, on the parts of a
/// field.
fn mark_parts(
    text: &mut String,
    selected: &mut Range<usize>,
    reversed: &mut bool,
    marked: &mut Option<Range<usize>>,
    range_utf16: Option<Range<usize>>,
    new_text: &str,
    new_selected_utf16: Option<Range<usize>>,
)
    requires
        valid_range(old(text)@, *old(selected)),
        *old(marked) matches Some(m) ==> valid_range(old(text)@, m),
        range_utf16 matches Some(u) ==> u.start <= u.end,
        new_selected_utf16 matches Some(u) ==> u.start <= u.end,
    ensures
        ({
            let st = marked_replaced(
                field_state(old(text)@, *old(selected), *old(reversed), *old(marked), None),
                range_utf16,
                new_text@,
                new_selected_utf16,
            );
            &&& final(text)@ == st.text
            &&& *final(selected) == st.selected
            &&& *final(reversed) == st.reversed
            &&& *final(marked) == st.marked
        }),
        valid_range(final(text)@, *final(selected)),
        *final(marked) matches Some(m) ==> valid_range(final(text)@, m),
{
    let range = edit_byte_range(text.as_str(), &range_utf16, marked, selected);
    let replacement = strip_line_breaks(new_text);
    let length = byte_len(replacement.as_str());
    proof {
        lemma_splice_text(text@, range.start as int, range.end as int, replacement@);
    }
    splice_into(text, range.start, range.end, replacement.as_str());
    let marked_end = range.start + length;
    *marked = if length == 0 {
        None
    } else {
        Some(range.start..marked_end)
    };
    proof {
        if length == 0 {
            lemma_empty_lens();
            if replacement@.len() > 0 {
                assert(replacement@ =~= replacement@.take(1) + replacement@.skip(1));
                crate::utf::lemma_prefix_lens_grow(replacement@, 0, 1);
                assert(replacement@.take(0) =~= Seq::<char>::empty());
            }
        }
        if new_selected_utf16 is Some {
            let sel = new_selected_utf16->0;
            lemma_utf16_to_byte(replacement@, sel.start as int, sel.end as int);
        }
    }
    *selected = inline_rename_selected_range(
        range.start,
        replacement.as_str(),
        new_selected_utf16,
        marked_end..marked_end,
    );
    *reversed = false;
}

/// The caret of a selection, which must be on a character boundary.
fn caret_of(selected: &Range<usize>, reversed: bool) -> (r: usize)
    ensures
        r == caret(*selected, reversed),
{
    if reversed {
        selected.start
    } else {
        selected.end
    }
}

/// The grapheme boundary next to the caret.
fn caret_target_of(text: &str, selected: &Range<usize>, reversed: bool, right: bool) -> (r: usize)
    requires
        valid_range(text@, *selected),
    ensures
        r == caret_target(field_state(text@, *selected, reversed, None, None), right),
        is_char_offset(text@, r as int),
{
    let at = caret_of(selected, reversed);
    if right {
        next_inline_rename_boundary(text, at)
    } else {
        previous_inline_rename_boundary(text, at)
    }
}

/// Left/Right, with or without Shift, on the selection of a field.
fn move_parts(
    text: &str,
    selected: &mut Range<usize>,
    reversed: &mut bool,
    right: bool,
    extend: bool,
)
    requires
        valid_range(text@, *old(selected)),
    ensures
        ({
            let st = moved_horizontally(
                field_state(text@, *old(selected), *old(reversed), None, None),
                right,
                extend,
            );
            *final(selected) == st.selected && *final(reversed) == st.reversed
        }),
        valid_range(text@, *final(selected)),
{
    let target = caret_target_of(text, selected, *reversed, right);
    if extend {
        select_inline_rename_to_fields(selected, reversed, target);
    } else if selected.end <= selected.start {
        *selected = target..target;
        *reversed = false;
    } else {
        let target = if right {
            selected.end
        } else {
            selected.start
        };
        *selected = target..target;
        *reversed = false;
    }
}

/// Backspace (`backwards`) or Delete on the parts of a field.
fn delete_parts(
    text: &mut String,
    selected: &mut Range<usize>,
    reversed: &mut bool,
    marked: &mut Option<Range<usize>>,
    backwards: bool,
)
    requires
        valid_range(old(text)@, *old(selected)),
    ensures
        ({
            let st = deleted(
                field_state(old(text)@, *old(selected), *old(reversed), None, None),
                backwards,
            );
            &&& final(text)@ == st.text
            &&& *final(selected) == st.selected
            &&& *final(reversed) == st.reversed
            &&& *final(marked) == st.marked
        }),
        valid_range(final(text)@, *final(selected)),
{
    let range = if selected.end <= selected.start {
        let at = caret_of(selected, *reversed);
        if backwards {
            previous_inline_rename_boundary(text.as_str(), at)..at
        } else {
            at..next_inline_rename_boundary(text.as_str(), at)
        }
    } else {
        selected.start..selected.end
    };
    proof {
        lemma_splice_text(text@, range.start as int, range.end as int, Seq::<char>::empty());
    }
    splice_into(text, range.start, range.end, "");
    proof {
        reveal_strlit("");
    }
    *selected = range.start..range.start;
    *reversed = false;
    *marked = None;
}

/// The whole of a text is a valid range of it.
pub proof fn lemma_whole_range(s: Seq<char>)
    requires
        utf8_len(s) <= usize::MAX,
    ensures
        valid_range(s, 0..utf8_len(s) as usize),
{
    assert(s.take(0) =~= Seq::<char>::empty());
    lemma_empty_lens();
    lemma_char_index_of(s, 0);
    assert(s.take(s.len() as int) =~= s);
    lemma_char_index_of(s, s.len() as int);
}

/// Whether a sidebar row being renamed is a note or a folder.
#[derive(Clone, Copy, Debug, PartialEq, Eq, Structural)]
pub enum InlineRenameKind {
    File,
    Folder,
}

/// How the rename field looked when an input method began composing.
pub struct InlineRenameComposition {
    pub text: String,
    pub selected_range: Range<usize>,
    pub selection_reversed: bool,
}

/// State for the one sidebar row being renamed. The editable text is kept
/// apart from the fixed Markdown extension, so typing cannot turn a note
/// into another kind of file. While `pending`, the rename is on its way to
/// the file system and the field takes no edits.
pub struct InlineRename {
    pub kind: InlineRenameKind,
    pub from: String,
    pub text: String,
    pub fixed_extension: Option<String>,
    pub selected_range: Range<usize>,
    pub selection_reversed: bool,
    pub marked_range: Option<Range<usize>>,
    pub composition: Option<InlineRenameComposition>,
    pub pending: bool,
}

/// What a text field shows: its text, selection and marked text.
pub struct InlineRenameRenderState {
    pub text: String,
    pub selected_range: Range<usize>,
    pub selection_reversed: bool,
    pub marked_range: Option<Range<usize>>,
}

/// The caret of the rename field.
pub fn inline_rename_cursor(rename: &InlineRename) -> (r: usize)
    ensures
        r == caret(rename.selected_range, rename.selection_reversed),
{
    if rename.selection_reversed {
        rename.selected_range.start
    } else {
        rename.selected_range.end
    }
}

/// Moves the caret of the rename field to `offset`, extending the selection
/// from its anchor; nothing else changes.
pub fn select_inline_rename_to(rename: &mut InlineRename, offset: usize)
    ensures
        (final(rename).selected_range, final(rename).selection_reversed) == select_to(
            old(rename).selected_range,
            old(rename).selection_reversed,
            offset,
        ),
        final(rename).kind == old(rename).kind,
        final(rename).from == old(rename).from,
        final(rename).text == old(rename).text,
        final(rename).fixed_extension == old(rename).fixed_extension,
        final(rename).marked_range == old(rename).marked_range,
        final(rename).composition == old(rename).composition,
        final(rename).pending == old(rename).pending,
{
    select_inline_rename_to_fields(
        &mut rename.selected_range,
        &mut rename.selection_reversed,
        offset,
    );
}

impl InlineRename {
    /// The field as text, selection, marked text and composition snapshot.
    pub open spec fn field(&self) -> FieldState {
        FieldState {
            text: self.text@,
            selected: self.selected_range,
            reversed: self.selection_reversed,
            marked: self.marked_range,
            snapshot: match self.composition {
                Some(c) => Some((c.text@, c.selected_range, c.selection_reversed)),
                None => None,
            },
        }
    }

    pub open spec fn wf(&self) -> bool {
        field_wf(self.field())
    }

    /// `self` renames the same item as `other`, to the same extension, in the
    /// same pending state.
    pub open spec fn same_item(&self, other: &Self) -> bool {
        &&& self.kind == other.kind
        &&& self.from == other.from
        &&& self.fixed_extension == other.fixed_extension
        &&& self.pending == other.pending
    }

    /// Starts renaming `from`, editing `text` with all of it selected.
    pub fn new(kind: InlineRenameKind, from: String, text: String, fixed_extension: Option<
        String,
    >) -> (r: Self)
        ensures
            r.kind == kind,
            r.from == from,
            r.text == text,
            r.fixed_extension == fixed_extension,
            r.selected_range.start == 0,
            r.selected_range.end == utf8_len(text@),
            !r.selection_reversed,
            r.marked_range is None,
            r.composition is None,
            !r.pending,
            r.wf(),
    {
        let length = byte_len(text.as_str());
        proof {
            lemma_whole_range(text@);
        }
        InlineRename {
            kind,
            from,
            text,
            fixed_extension,
            selected_range: 0..length,
            selection_reversed: false,
            marked_range: None,
            composition: None,
            pending: false,
        }
    }

    /// Whether an input method is composing.
    pub fn has_composition(&self) -> (r: bool)
        ensures
            r == self.composition is Some,
    {
        self.composition.is_some()
    }

    /// The text, selection and marked text to draw.
    pub fn render_state(&self) -> (r: InlineRenameRenderState)
        ensures
            r.text@ == self.text@,
            r.selected_range == self.selected_range,
            r.selection_reversed == self.selection_reversed,
            r.marked_range == self.marked_range,
    {
        InlineRenameRenderState {
            text: self.text.clone(),
            selected_range: self.selected_range.start..self.selected_range.end,
            selection_reversed: self.selection_reversed,
            marked_range: match &self.marked_range {
                Some(m) => Some(m.start..m.end),
                None => None,
            },
        }
    }

    /// Places the caret at a UTF-16 offset (a click in the field); refused
    /// while the rename is pending or an input method is composing.
    pub fn move_to_utf16(&mut self, index: usize) -> (changed: bool)
        requires
            old(self).wf(),
        ensures
            changed == (!old(self).pending && old(self).composition is None),
            changed ==> final(self).field() == collapsed_at(
                old(self).field(),
                utf16_to_byte(old(self).text@, index as int) as usize,
            ),
            !changed ==> final(self).field() == old(self).field(),
            final(self).same_item(old(self)),
            final(self).wf(),
    {
        if self.pending || self.composition.is_some() {
            return false;
        }
        let byte = byte_offset_from_utf16(self.text.as_str(), index);
        self.selected_range = byte..byte;
        self.selection_reversed = false;
        true
    }

    /// The text in a UTF-16 range, and that range snapped to characters.
    pub fn text_for_range(&self, range_utf16: Range<usize>) -> (r: (String, Range<usize>))
        requires
            range_utf16.start <= range_utf16.end,
        ensures
            r.0@ == text_in_utf16_range(self.text@, range_utf16),
            r.1 == snapped_utf16_range(self.text@, range_utf16),
    {
        text_in_range(self.text.as_str(), &range_utf16)
    }

    /// The selection in UTF-16 code units, and its direction.
    pub fn selection_utf16(&self) -> (r: (Range<usize>, bool))
        ensures
            r.0 == utf16_range(self.text@, self.selected_range),
            r.1 == self.selection_reversed,
    {
        (range_to_utf16(self.text.as_str(), &self.selected_range), self.selection_reversed)
    }

    /// The marked text in UTF-16 code units.
    pub fn marked_range_utf16(&self) -> (r: Option<Range<usize>>)
        ensures
            r == match self.marked_range {
                Some(m) => Some(utf16_range(self.text@, m)),
                None => None,
            },
    {
        match &self.marked_range {
            Some(m) => Some(range_to_utf16(self.text.as_str(), m)),
            None => None,
        }
    }

    /// The selected text, when the selection is not empty.
    pub fn selected_text(&self) -> (r: Option<String>)
        requires
            self.wf(),
        ensures
            r is Some <==> self.selected_range.start < self.selected_range.end,
            r matches Some(t) ==> t@ == self.text@.subrange(
                char_index_of(self.text@, self.selected_range.start as int),
                char_index_of(self.text@, self.selected_range.end as int),
            ),
    {
        if self.selected_range.start < self.selected_range.end {
            Some(substring(self.text.as_str(), self.selected_range.start, self.selected_range.end))
        } else {
            None
        }
    }

    /// Inserts committed text (typing, pasting, the end of a composition).
    /// While the rename is pending the text is left alone, but the input is
    /// still taken (the result is always `true`), so it never reaches the
    /// document behind the field.
    pub fn replace_text(&mut self, range_utf16: Option<Range<usize>>, new_text: &str) -> (handled:
        bool)
        requires
            old(self).wf(),
            range_utf16 matches Some(u) ==> u.start <= u.end,
        ensures
            handled,
            !old(self).pending ==> final(self).field() == replaced(
                old(self).field(),
                range_utf16,
                new_text@,
            ),
            old(self).pending ==> final(self).field() == old(self).field(),
            final(self).same_item(old(self)),
            final(self).wf(),
    {
        if self.pending {
            return true;
        }
        replace_parts(
            &mut self.text,
            &mut self.selected_range,
            &mut self.selection_reversed,
            &mut self.marked_range,
            range_utf16,
            new_text,
        );
        self.composition = None;
        true
    }

    /// Inserts text an input method is composing. While the rename is
    /// pending the text is left alone, but the input is still taken.
    pub fn replace_and_mark_text(
        &mut self,
        range_utf16: Option<Range<usize>>,
        new_text: &str,
        new_selected_range_utf16: Option<Range<usize>>,
    ) -> (handled: bool)
        requires
            old(self).wf(),
            range_utf16 matches Some(u) ==> u.start <= u.end,
            new_selected_range_utf16 matches Some(u) ==> u.start <= u.end,
        ensures
            handled,
            !old(self).pending ==> final(self).field() == marked_replaced(
                old(self).field(),
                range_utf16,
                new_text@,
                new_selected_range_utf16,
            ),
            old(self).pending ==> final(self).field() == old(self).field(),
            final(self).same_item(old(self)),
            final(self).wf(),
    {
        if self.pending {
            return true;
        }
        if self.composition.is_none() {
            self.composition = Some(
                InlineRenameComposition {
                    text: self.text.clone(),
                    selected_range: self.selected_range.start..self.selected_range.end,
                    selection_reversed: self.selection_reversed,
                },
            );
        }
        mark_parts(
            &mut self.text,
            &mut self.selected_range,
            &mut self.selection_reversed,
            &mut self.marked_range,
            range_utf16,
            new_text,
            new_selected_range_utf16,
        );
        true
    }

    /// Keeps the composed text as it is and ends the composition; reports
    /// whether there was one.
    pub fn commit_composition(&mut self) -> (changed: bool)
        requires
            old(self).wf(),
        ensures
            changed == old(self).composition is Some,
            final(self).field() == committed(old(self).field()),
            final(self).same_item(old(self)),
            final(self).wf(),
    {
        if self.composition.take().is_some() {
            self.marked_range = None;
            true
        } else {
            false
        }
    }

    /// Puts back the text and selection from before the composition and
    /// ends it; reports whether there was one.
    pub fn cancel_composition(&mut self) -> (changed: bool)
        requires
            old(self).wf(),
        ensures
            changed == old(self).composition is Some,
            final(self).field() == cancelled(old(self).field()),
            final(self).same_item(old(self)),
            final(self).wf(),
    {
        match self.composition.take() {
            Some(composition) => {
                self.text = composition.text;
                self.selected_range = composition.selected_range;
                self.selection_reversed = composition.selection_reversed;
                self.marked_range = None;
                true
            },
            None => false,
        }
    }

    /// Left (`right` false) or Right, extending the selection with Shift;
    /// refused while the rename is pending.
    pub fn move_horizontal(&mut self, right: bool, extend: bool) -> (changed: bool)
        requires
            old(self).wf(),
        ensures
            changed == !old(self).pending,
            changed ==> final(self).field() == moved_horizontally(old(self).field(), right, extend),
            !changed ==> final(self).field() == old(self).field(),
            final(self).same_item(old(self)),
            final(self).wf(),
    {
        if self.pending {
            return false;
        }
        move_parts(
            self.text.as_str(),
            &mut self.selected_range,
            &mut self.selection_reversed,
            right,
            extend,
        );
        true
    }

    /// Shift+Left (`right` false) or Shift+Right: the caret extends the
    /// selection by one grapheme.
    pub fn select_horizontal(&mut self, right: bool)
        requires
            old(self).wf(),
        ensures
            final(self).field() == selected_to(
                old(self).field(),
                caret_target(old(self).field(), right),
            ),
            final(self).same_item(old(self)),
            final(self).wf(),
    {
        let target = caret_target_of(
            self.text.as_str(),
            &self.selected_range,
            self.selection_reversed,
            right,
        );
        select_inline_rename_to(self, target);
    }

    /// Selects the whole text; refused while the rename is pending.
    pub fn select_all(&mut self) -> (changed: bool)
        requires
            old(self).wf(),
        ensures
            changed == !old(self).pending,
            changed ==> final(self).field() == all_selected(old(self).field()),
            !changed ==> final(self).field() == old(self).field(),
            final(self).same_item(old(self)),
            final(self).wf(),
    {
        if self.pending {
            return false;
        }
        let length = byte_len(self.text.as_str());
        proof {
            lemma_whole_range(self.text@);
        }
        self.selected_range = 0..length;
        self.selection_reversed = false;
        true
    }

    /// Shift+Home (`to_end` false) or Shift+End: extends the selection from
    /// its anchor to the start or the end of the text; refused while the
    /// rename is pending.
    pub fn select_to_edge(&mut self, to_end: bool) -> (changed: bool)
        requires
            old(self).wf(),
        ensures
            changed == !old(self).pending,
            changed ==> final(self).field() == selected_to(
                old(self).field(),
                if to_end {
                    utf8_len(old(self).text@) as usize
                } else {
                    0
                },
            ),
            !changed ==> final(self).field() == old(self).field(),
            final(self).same_item(old(self)),
            final(self).wf(),
    {
        let length = byte_len(self.text.as_str());
        let target = if to_end {
            length
        } else {
            0
        };
        if self.pending {
            return false;
        }
        proof {
            lemma_whole_range(self.text@);
        }
        select_inline_rename_to(self, target);
        true
    }

    /// Home (`to_end` false) or End: the caret alone at the start or the end
    /// of the text; refused while the rename is pending.
    pub fn move_to_edge(&mut self, to_end: bool) -> (changed: bool)
        requires
            old(self).wf(),
        ensures
            changed == !old(self).pending,
            changed ==> final(self).field() == collapsed_at(
                old(self).field(),
                if to_end {
                    utf8_len(old(self).text@) as usize
                } else {
                    0
                },
            ),
            !changed ==> final(self).field() == old(self).field(),
            final(self).same_item(old(self)),
            final(self).wf(),
    {
        let length = byte_len(self.text.as_str());
        let target = if to_end {
            length
        } else {
            0
        };
        if self.pending {
            return false;
        }
        proof {
            lemma_whole_range(self.text@);
        }
        self.selected_range = target..target;
        self.selection_reversed = false;
        true
    }

    /// Backspace (`backwards`) or Delete; refused while the rename is
    /// pending.
    pub fn delete_with_direction(&mut self, backwards: bool) -> (changed: bool)
        requires
            old(self).wf(),
        ensures
            changed == !old(self).pending,
            changed ==> final(self).field() == deleted(old(self).field(), backwards),
            !changed ==> final(self).field() == old(self).field(),
            final(self).same_item(old(self)),
            final(self).wf(),
    {
        if self.pending {
            return false;
        }
        delete_parts(
            &mut self.text,
            &mut self.selected_range,
            &mut self.selection_reversed,
            &mut self.marked_range,
            backwards,
        );
        self.composition = None;
        true
    }
}

/// UTF-16 range of a byte range of `s`.
pub open spec fn utf16_range(s: Seq<char>, range: Range<usize>) -> Range<usize> {
    byte_to_utf16(s, range.start as int) as usize..byte_to_utf16(s, range.end as int) as usize
}

/// The characters a UTF-16 range of `s` covers.
pub open spec fn text_in_utf16_range(s: Seq<char>, range: Range<usize>) -> Seq<char> {
    s.subrange(
        char_index_of(s, utf16_to_byte(s, range.start as int)),
        char_index_of(s, utf16_to_byte(s, range.end as int)),
    )
}

/// A UTF-16 range of `s` snapped to whole characters.
pub open spec fn snapped_utf16_range(s: Seq<char>, range: Range<usize>) -> Range<usize> {
    utf16_range(
        s,
        utf16_to_byte(s, range.start as int) as usize..utf16_to_byte(s, range.end as int) as usize,
    )
}

/// The text in a UTF-16 range of `text`, with the range snapped to whole
/// characters.
fn text_in_range(text: &str, range_utf16: &Range<usize>) -> (r: (String, Range<usize>))
    requires
        range_utf16.start <= range_utf16.end,
    ensures
        r.0@ == text_in_utf16_range(text@, *range_utf16),
        r.1 == snapped_utf16_range(text@, *range_utf16),
{
    proof {
        lemma_utf16_to_byte(text@, range_utf16.start as int, range_utf16.end as int);
    }
    let range = byte_range_from_utf16(text, range_utf16);
    (substring(text, range.start, range.end), range_to_utf16(text, &range))
}

/// How the sidebar filter looked when an input method began composing.
pub struct SidebarFilterComposition {
    pub text: String,
    pub selected_range: Range<usize>,
    pub selection_reversed: bool,
}

/// The sidebar's filter field. It takes keyboard input only while focused.
pub struct SidebarFilter {
    pub text: String,
    pub selected_range: Range<usize>,
    pub selection_reversed: bool,
    pub marked_range: Option<Range<usize>>,
    pub composition: Option<SidebarFilterComposition>,
    pub focused: bool,
}

impl SidebarFilter {
    /// The field as text, selection, marked text and composition snapshot.
    pub open spec fn field(&self) -> FieldState {
        FieldState {
            text: self.text@,
            selected: self.selected_range,
            reversed: self.selection_reversed,
            marked: self.marked_range,
            snapshot: match self.composition {
                Some(c) => Some((c.text@, c.selected_range, c.selection_reversed)),
                None => None,
            },
        }
    }

    pub open spec fn wf(&self) -> bool {
        field_wf(self.field())
    }

    /// An empty, unfocused filter.
    pub fn new() -> (r: Self)
        ensures
            r.text@ == Seq::<char>::empty(),
            r.selected_range == (0..0usize),
            !r.selection_reversed,
            r.marked_range is None,
            r.composition is None,
            !r.focused,
            r.wf(),
    {
        let r = SidebarFilter {
            text: String::new(),
            selected_range: 0..0,
            selection_reversed: false,
            marked_range: None,
            composition: None,
            focused: false,
        };
        proof {
            lemma_empty_lens();
            lemma_whole_range(r.text@);
        }
        r
    }

    /// Whether an input method is composing.
    pub fn has_composition(&self) -> (r: bool)
        ensures
            r == self.composition is Some,
    {
        self.composition.is_some()
    }

    /// What the filter field shows: no selection and no marked text unless
    /// it is focused.
    pub fn render_state(&self) -> (r: InlineRenameRenderState)
        ensures
            r.text@ == self.text@,
            r.selected_range == if self.focused {
                self.selected_range
            } else {
                0..0usize
            },
            r.selection_reversed == self.selection_reversed,
            r.marked_range == if self.focused {
                self.marked_range
            } else {
                None
            },
    {
        InlineRenameRenderState {
            text: self.text.clone(),
            selected_range: if self.focused {
                self.selected_range.start..self.selected_range.end
            } else {
                0..0
            },
            selection_reversed: self.selection_reversed,
            marked_range: if self.focused {
                match &self.marked_range {
                    Some(m) => Some(m.start..m.end),
                    None => None,
                }
            } else {
                None
            },
        }
    }

    /// The text in a UTF-16 range, and that range snapped to characters.
    pub fn text_for_range(&self, range_utf16: Range<usize>) -> (r: (String, Range<usize>))
        requires
            range_utf16.start <= range_utf16.end,
        ensures
            r.0@ == text_in_utf16_range(self.text@, range_utf16),
            r.1 == snapped_utf16_range(self.text@, range_utf16),
    {
        text_in_range(self.text.as_str(), &range_utf16)
    }

    /// The selection in UTF-16 code units and its direction, while focused.
    pub fn selection_utf16(&self) -> (r: Option<(Range<usize>, bool)>)
        ensures
            r == if self.focused {
                Some((utf16_range(self.text@, self.selected_range), self.selection_reversed))
            } else {
                None
            },
    {
        if !self.focused {
            return None;
        }
        Some((range_to_utf16(self.text.as_str(), &self.selected_range), self.selection_reversed))
    }

    /// The marked text in UTF-16 code units.
    pub fn marked_range_utf16(&self) -> (r: Option<Range<usize>>)
        ensures
            r == match self.marked_range {
                Some(m) => Some(utf16_range(self.text@, m)),
                None => None,
            },
    {
        match &self.marked_range {
            Some(m) => Some(range_to_utf16(self.text.as_str(), m)),
            None => None,
        }
    }

    /// The selected text, when the selection is not empty.
    pub fn selected_text(&self) -> (r: Option<String>)
        requires
            self.wf(),
        ensures
            r is Some <==> self.selected_range.start < self.selected_range.end,
            r matches Some(t) ==> t@ == self.text@.subrange(
                char_index_of(self.text@, self.selected_range.start as int),
                char_index_of(self.text@, self.selected_range.end as int),
            ),
    {
        if self.selected_range.start < self.selected_range.end {
            Some(substring(self.text.as_str(), self.selected_range.start, self.selected_range.end))
        } else {
            None
        }
    }

    /// Inserts committed text; ignored unless focused.
    pub fn replace_text(&mut self, range_utf16: Option<Range<usize>>, new_text: &str) -> (changed:
        bool)
        requires
            old(self).wf(),
            range_utf16 matches Some(u) ==> u.start <= u.end,
        ensures
            changed == old(self).focused,
            changed ==> final(self).field() == replaced(old(self).field(), range_utf16, new_text@),
            !changed ==> final(self).field() == old(self).field(),
            final(self).focused == old(self).focused,
            final(self).wf(),
    {
        if !self.focused {
            return false;
        }
        replace_parts(
            &mut self.text,
            &mut self.selected_range,
            &mut self.selection_reversed,
            &mut self.marked_range,
            range_utf16,
            new_text,
        );
        self.composition = None;
        true
    }

    /// Inserts text an input method is composing; ignored unless focused.
    pub fn replace_and_mark_text(
        &mut self,
        range_utf16: Option<Range<usize>>,
        new_text: &str,
        new_selected_range_utf16: Option<Range<usize>>,
    ) -> (changed: bool)
        requires
            old(self).wf(),
            range_utf16 matches Some(u) ==> u.start <= u.end,
            new_selected_range_utf16 matches Some(u) ==> u.start <= u.end,
        ensures
            changed == old(self).focused,
            changed ==> final(self).field() == marked_replaced(
                old(self).field(),
                range_utf16,
                new_text@,
                new_selected_range_utf16,
            ),
            !changed ==> final(self).field() == old(self).field(),
            final(self).focused == old(self).focused,
            final(self).wf(),
    {
        if !self.focused {
            return false;
        }
        if self.composition.is_none() {
            self.composition = Some(
                SidebarFilterComposition {
                    text: self.text.clone(),
                    selected_range: self.selected_range.start..self.selected_range.end,
                    selection_reversed: self.selection_reversed,
                },
            );
        }
        mark_parts(
            &mut self.text,
            &mut self.selected_range,
            &mut self.selection_reversed,
            &mut self.marked_range,
            range_utf16,
            new_text,
            new_selected_range_utf16,
        );
        true
    }

    /// Keeps the composed text and ends the composition; reports whether
    /// there was one.
    pub fn commit_composition(&mut self) -> (changed: bool)
        requires
            old(self).wf(),
        ensures
            changed == old(self).composition is Some,
            final(self).field() == committed(old(self).field()),
            final(self).focused == old(self).focused,
            final(self).wf(),
    {
        if self.composition.take().is_some() {
            self.marked_range = None;
            true
        } else {
            false
        }
    }

    /// Puts back the text and selection from before the composition and
    /// ends it; reports whether there was one.
    pub fn cancel_composition(&mut self) -> (changed: bool)
        requires
            old(self).wf(),
        ensures
            changed == old(self).composition is Some,
            final(self).field() == cancelled(old(self).field()),
            final(self).focused == old(self).focused,
            final(self).wf(),
    {
        match self.composition.take() {
            Some(composition) => {
                self.text = composition.text;
                self.selected_range = composition.selected_range;
                self.selection_reversed = composition.selection_reversed;
                self.marked_range = None;
                true
            },
            None => false,
        }
    }

    /// Left or Right, extending with Shift; ignored unless focused.
    pub fn move_horizontal(&mut self, right: bool, extend: bool) -> (changed: bool)
        requires
            old(self).wf(),
        ensures
            changed == old(self).focused,
            changed ==> final(self).field() == moved_horizontally(old(self).field(), right, extend),
            !changed ==> final(self).field() == old(self).field(),
            final(self).focused == old(self).focused,
            final(self).wf(),
    {
        if !self.focused {
            return false;
        }
        move_parts(
            self.text.as_str(),
            &mut self.selected_range,
            &mut self.selection_reversed,
            right,
            extend,
        );
        true
    }

    /// Shift+Left or Shift+Right; ignored unless focused.
    pub fn select_horizontal(&mut self, right: bool) -> (changed: bool)
        requires
            old(self).wf(),
        ensures
            changed == old(self).focused,
            changed ==> final(self).field() == selected_to(
                old(self).field(),
                caret_target(old(self).field(), right),
            ),
            !changed ==> final(self).field() == old(self).field(),
            final(self).focused == old(self).focused,
            final(self).wf(),
    {
        if !self.focused {
            return false;
        }
        let target = caret_target_of(
            self.text.as_str(),
            &self.selected_range,
            self.selection_reversed,
            right,
        );
        select_inline_rename_to_fields(&mut self.selected_range, &mut self.selection_reversed, target);
        true
    }

    /// Selects the whole filter; ignored unless focused.
    pub fn select_all(&mut self) -> (changed: bool)
        requires
            old(self).wf(),
        ensures
            changed == old(self).focused,
            changed ==> final(self).field() == all_selected(old(self).field()),
            !changed ==> final(self).field() == old(self).field(),
            final(self).focused == old(self).focused,
            final(self).wf(),
    {
        if !self.focused {
            return false;
        }
        let length = byte_len(self.text.as_str());
        proof {
            lemma_whole_range(self.text@);
        }
        self.selected_range = 0..length;
        self.selection_reversed = false;
        true
    }

    /// Shift+Home or Shift+End; ignored unless focused.
    pub fn select_to_edge(&mut self, to_end: bool) -> (changed: bool)
        requires
            old(self).wf(),
        ensures
            changed == old(self).focused,
            changed ==> final(self).field() == selected_to(
                old(self).field(),
                if to_end {
                    utf8_len(old(self).text@) as usize
                } else {
                    0
                },
            ),
            !changed ==> final(self).field() == old(self).field(),
            final(self).focused == old(self).focused,
            final(self).wf(),
    {
        if !self.focused {
            return false;
        }
        let length = byte_len(self.text.as_str());
        let target = if to_end {
            length
        } else {
            0
        };
        proof {
            lemma_whole_range(self.text@);
        }
        select_inline_rename_to_fields(&mut self.selected_range, &mut self.selection_reversed, target);
        true
    }

    /// Home or End; ignored unless focused.
    pub fn move_to_edge(&mut self, to_end: bool) -> (changed: bool)
        requires
            old(self).wf(),
        ensures
            changed == old(self).focused,
            changed ==> final(self).field() == collapsed_at(
                old(self).field(),
                if to_end {
                    utf8_len(old(self).text@) as usize
                } else {
                    0
                },
            ),
            !changed ==> final(self).field() == old(self).field(),
            final(self).focused == old(self).focused,
            final(self).wf(),
    {
        let length = byte_len(self.text.as_str());
        let target = if to_end {
            length
        } else {
            0
        };
        if !self.focused {
            return false;
        }
        proof {
            lemma_whole_range(self.text@);
        }
        self.selected_range = target..target;
        self.selection_reversed = false;
        true
    }

    /// Backspace or Delete; ignored unless focused.
    pub fn delete_with_direction(&mut self, backwards: bool) -> (changed: bool)
        requires
            old(self).wf(),
        ensures
            changed == old(self).focused,
            changed ==> final(self).field() == deleted(old(self).field(), backwards),
            !changed ==> final(self).field() == old(self).field(),
            final(self).focused == old(self).focused,
            final(self).wf(),
    {
        if !self.focused {
            return false;
        }
        delete_parts(
            &mut self.text,
            &mut self.selected_range,
            &mut self.selection_reversed,
            &mut self.marked_range,
            backwards,
        );
        self.composition = None;
        true
    }

    /// A click on the filter. The first click focuses it with the whole
    /// filter selected; a click while focused puts the caret at the clicked
    /// UTF-16 offset, when the click maps to one.
    pub fn focus(&mut self, clicked_utf16: Option<usize>)
        requires
            old(self).wf(),
        ensures
            final(self).focused,
            final(self).field() == if !old(self).focused {
                all_selected(old(self).field())
            } else {
                match clicked_utf16 {
                    Some(index) => collapsed_at(
                        old(self).field(),
                        utf16_to_byte(old(self).text@, index as int) as usize,
                    ),
                    None => old(self).field(),
                }
            },
            final(self).wf(),
    {
        let was_focused = self.focused;
        self.focused = true;
        if was_focused {
            if let Some(index) = clicked_utf16 {
                let byte = byte_offset_from_utf16(self.text.as_str(), index);
                self.selected_range = byte..byte;
                self.selection_reversed = false;
            }
        } else {
            let length = byte_len(self.text.as_str());
            proof {
                lemma_whole_range(self.text@);
            }
            self.selected_range = 0..length;
            self.selection_reversed = false;
        }
    }

    /// Leaves the filter: its text stays, any composition is dropped as it
    /// stands. Reports whether it was focused.
    pub fn blur(&mut self) -> (changed: bool)
        requires
            old(self).wf(),
        ensures
            changed == old(self).focused,
            !final(self).focused,
            changed ==> final(self).field() == (FieldState {
                marked: None,
                snapshot: None,
                ..old(self).field()
            }),
            !changed ==> final(self).field() == old(self).field(),
            final(self).wf(),
    {
        if self.focused {
            self.focused = false;
            self.marked_range = None;
            self.composition = None;
            true
        } else {
            false
        }
    }
}

/// One edit an input method makes while composing: the UTF-16 range it
/// replaces (else the marked text or the selection), the text it inserts
/// and the selection it asks for inside it.
pub struct CompositionEdit {
    pub range_utf16: Option<Range<usize>>,
    pub text: Seq<char>,
    pub selection: Option<Range<usize>>,
}

/// The field after the composing edits `edits`, in order.
pub open spec fn composed(st: FieldState, edits: Seq<CompositionEdit>) -> FieldState
    decreases edits.len(),
{
    if edits.len() == 0 {
        st
    } else {
        let edit = edits.last();
        marked_replaced(composed(st, edits.drop_last()), edit.range_utf16, edit.text, edit.selection)
    }
}

/// Once a composition is open, every further composing edit keeps the
/// field as it was before the first one.
proof fn lemma_composed_snapshot(st: FieldState, edits: Seq<CompositionEdit>)
    requires
        st.snapshot is None,
        edits.len() > 0,
    ensures
        composed(st, edits).snapshot == Some((st.text, st.selected, st.reversed)),
    decreases edits.len(),
{
    if edits.len() > 1 {
        lemma_composed_snapshot(st, edits.drop_last());
    } else {
        assert(composed(st, edits.drop_last()) == st);
    }
}

/// Cancelling a composition undoes every edit made while it was open: from
/// a field with no composition, any number of composing edits and then a
/// cancel give back exactly the field as it was.
pub proof fn law_cancel_restores_the_field_before_composing(
    st: FieldState,
    edits: Seq<CompositionEdit>,
)
    requires
        field_wf(st),
        st.snapshot is None,
    ensures
        cancelled(composed(st, edits)) == st,
{
    if edits.len() > 0 {
        lemma_composed_snapshot(st, edits);
    }
}

/// Committing a composition keeps the text and selection as composed and
/// leaves no marked text.
pub proof fn law_commit_keeps_the_composed_text(st: FieldState)
    ensures
        committed(st).text == st.text,
        committed(st).selected == st.selected,
        committed(st).reversed == st.reversed,
        committed(st).snapshot is None,
        field_wf(st) ==> committed(st).marked is None,
{
}

/// After committed text is inserted, the caret sits right after it, with
/// no selection, and the text before the caret is the text that was before
/// the edit range followed by what was inserted.
pub proof fn law_insertion_puts_the_caret_after_it(
    st: FieldState,
    range_utf16: Option<Range<usize>>,
    new_text: Seq<char>,
)
    requires
        field_wf(st),
        range_utf16 matches Some(u) ==> u.start <= u.end,
        utf8_len(replaced(st, range_utf16, new_text).text) <= usize::MAX,
    ensures
        ({
            let after = replaced(st, range_utf16, new_text);
            let (start, end) = edit_range(st.text, range_utf16, st.marked, st.selected);
            let inserted = without_line_breaks(new_text);
            let at = caret(after.selected, after.reversed) as int;
            &&& after.selected.start == after.selected.end
            &&& at == start + utf8_len(inserted)
            &&& after.text.take(char_index_of(after.text, at)) == st.text.take(
                char_index_of(st.text, start),
            ) + inserted
        }),
{
    let (start, end) = edit_range(st.text, range_utf16, st.marked, st.selected);
    if range_utf16 is Some {
        let u = range_utf16->0;
        lemma_utf16_to_byte(st.text, u.start as int, u.end as int);
    }
    let inserted = without_line_breaks(new_text);
    lemma_splice_text(st.text, start, end, inserted);
    let ks = char_index_of(st.text, start);
    let after = splice_text(st.text, start, end, inserted);
    let k = ks + inserted.len();
    assert(after.take(k) =~= st.text.take(ks) + inserted);
    crate::utf::lemma_utf8_len_add(st.text.take(ks), inserted);
    lemma_char_index_of(after, k);
}

/// Left or Right without Shift always leaves a lone caret.
pub proof fn law_plain_movement_collapses_the_selection(st: FieldState, right: bool)
    ensures
        moved_horizontally(st, right, false).selected.start == moved_horizontally(
            st,
            right,
            false,
        ).selected.end,
        !moved_horizontally(st, right, false).reversed,
{
}

/// What the view's one text input shows: the rename field while a rename is
/// open, the sidebar filter otherwise.
pub fn text_input_render_state(rename: &Option<InlineRename>, filter: &SidebarFilter) -> (r:
    InlineRenameRenderState)
    ensures
        match rename {
            Some(open) => r.text@ == open.text@ && r.selected_range == open.selected_range
                && r.selection_reversed == open.selection_reversed && r.marked_range
                == open.marked_range,
            None => r.text@ == filter.text@ && r.selected_range == (if filter.focused {
                filter.selected_range
            } else {
                0..0usize
            }) && r.selection_reversed == filter.selection_reversed && r.marked_range == (
            if filter.focused {
                filter.marked_range
            } else {
                None
            }),
        },
{
    match rename {
        Some(open) => open.render_state(),
        None => filter.render_state(),
    }
}

/// Whether byte `offset` falls between characters of `text`.
pub fn is_char_boundary_offset(text: &str, offset: usize) -> (r: bool)
    ensures
        r == is_char_offset(text@, offset as int),
{
    let ghost s = text@;
    let mut byte: usize = 0;
    let mut found = false;
    proof {
        assert(s.take(0) =~= Seq::<char>::empty());
        lemma_empty_lens();
    }
    let total = byte_len(text);
    for character in it: text.chars()
        invariant
            it.seq() == s,
            text@ == s,
            total == utf8_len(s),
            0 <= it.index() <= s.len(),
            byte == utf8_len(s.take(it.index())),
            found == exists|k: int| 0 <= k < it.index() && #[trigger] utf8_len(s.take(k)) == offset,
    {
        let ghost i = it.index();
        if byte == offset {
            found = true;
        }
        proof {
            assert(s.take(i + 1) =~= s.take(i).push(character));
            crate::utf::lemma_utf8_len_push(s.take(i), character);
            crate::utf::lemma_prefix_lens_grow(s, i + 1, i + 1);
        }
        byte = byte + crate::utf::utf8_width(character);
    }
    if byte == offset {
        found = true;
    }
    proof {
        let n = s.len() as int;
        if found {
            let k = if byte == offset {
                n
            } else {
                choose|k: int| 0 <= k < n && #[trigger] utf8_len(s.take(k)) == offset
            };
            assert(0 <= k <= s.len() && utf8_len(s.take(k)) == offset);
        } else if is_char_offset(s, offset as int) {
            let k = choose|k: int| 0 <= k <= s.len() && #[trigger] utf8_len(s.take(k)) == offset;
            assert(k == n || utf8_len(s.take(k)) != offset);
        }
    }
    found
}

/// Whether `range` is an ordered byte range of `text` on character
/// boundaries.
pub fn is_valid_range(text: &str, range: &Range<usize>) -> (r: bool)
    ensures
        r == valid_range(text@, *range),
{
    range.start <= range.end && is_char_boundary_offset(text, range.start)
        && is_char_boundary_offset(text, range.end)
}

impl InlineRename {
    /// Whether the field keeps its invariant, for callers that did not get
    /// it from the library.
    pub fn well_formed(&self) -> (r: bool)
        ensures
            r == self.wf(),
    {
        is_valid_range(self.text.as_str(), &self.selected_range) && match &self.marked_range {
            Some(m) => is_valid_range(self.text.as_str(), m),
            None => true,
        } && match &self.composition {
            Some(c) => is_valid_range(c.text.as_str(), &c.selected_range),
            None => self.marked_range.is_none(),
        }
    }
}

impl SidebarFilter {
    /// Whether the filter keeps its invariant, for callers that did not get
    /// it from the library.
    pub fn well_formed(&self) -> (r: bool)
        ensures
            r == self.wf(),
    {
        is_valid_range(self.text.as_str(), &self.selected_range) && match &self.marked_range {
            Some(m) => is_valid_range(self.text.as_str(), m),
            None => true,
        } && match &self.composition {
            Some(c) => is_valid_range(c.text.as_str(), &c.selected_range),
            None => self.marked_range.is_none(),
        }
    }
}

/// Backspace and Delete on a non-empty selection, whichever the direction,
/// remove exactly the selected characters: the text before the selection's
/// start followed by the text after its end, with a lone caret at the start
/// and no composition left.
pub proof fn law_deleting_a_selection_removes_exactly_it(st: FieldState, backwards: bool)
    requires
        st.selected.start < st.selected.end,
    ensures
        deleted(st, backwards).text == st.text.take(char_index_of(st.text, st.selected.start as int))
            + st.text.skip(char_index_of(st.text, st.selected.end as int)),
        deleted(st, backwards).selected.start == st.selected.start,
        deleted(st, backwards).selected.end == st.selected.start,
        !deleted(st, backwards).reversed,
        deleted(st, backwards).marked is None,
        deleted(st, backwards).snapshot is None,
        deleted(st, true).text == deleted(st, false).text,
{
    assert(st.text.take(char_index_of(st.text, st.selected.start as int)) + Seq::<char>::empty()
        =~= st.text.take(char_index_of(st.text, st.selected.start as int)));
}

/// With a lone caret, Backspace removes the text from the grapheme
/// boundary before the caret up to the caret and leaves the caret at that
/// boundary; Delete removes the text from the caret up to the boundary
/// after it and leaves the caret where it was.
pub proof fn law_deleting_at_a_caret_removes_one_grapheme(st: FieldState)
    requires
        st.selected.start == st.selected.end,
    ensures
        ({
            let at = st.selected.start as int;
            let before = previous_boundary(st.text, at);
            let after = next_boundary(st.text, at);
            &&& deleted(st, true).text == st.text.take(char_index_of(st.text, before)) + st.text.skip(
                char_index_of(st.text, at),
            )
            &&& deleted(st, true).selected.start == before
            &&& deleted(st, false).text == st.text.take(char_index_of(st.text, at)) + st.text.skip(
                char_index_of(st.text, after),
            )
            &&& deleted(st, false).selected.start == at
        }),
{
    let at = st.selected.start as int;
    let before = previous_boundary(st.text, at);
    assert(st.text.take(char_index_of(st.text, before)) + Seq::<char>::empty() =~= st.text.take(
        char_index_of(st.text, before),
    ));
    assert(st.text.take(char_index_of(st.text, at)) + Seq::<char>::empty() =~= st.text.take(
        char_index_of(st.text, at),
    ));
}

/// Left or Right without Shift: a lone caret steps to the grapheme boundary
/// on that side; a selection collapses to its own end on that side, not
/// beyond it. With Shift, the caret steps to that boundary and the anchor
/// stays.
pub proof fn law_arrows_step_by_grapheme(st: FieldState, right: bool)
    requires
        st.selected.start <= st.selected.end,
    ensures
        ({
            let at = caret(st.selected, st.reversed) as int;
            let boundary = if right {
                next_boundary(st.text, at)
            } else {
                previous_boundary(st.text, at)
            };
            let moved = moved_horizontally(st, right, false);
            let extended = moved_horizontally(st, right, true);
            &&& st.selected.start == st.selected.end ==> moved.selected.start == boundary as usize
                && moved.selected.end == boundary as usize
            &&& st.selected.start < st.selected.end && right ==> moved.selected.start
                == st.selected.end && moved.selected.end == st.selected.end
            &&& st.selected.start < st.selected.end && !right ==> moved.selected.start
                == st.selected.start && moved.selected.end == st.selected.start
            &&& caret(extended.selected, extended.reversed) == boundary as usize
            &&& anchor(extended.selected, extended.reversed) == anchor(st.selected, st.reversed)
            &&& moved.text == st.text && extended.text == st.text
        }),
{
}

/// A composing edit replaces the edit range by the text without line
/// breaks, marks exactly that inserted text (nothing when it is empty),
/// puts the selection inside it, and remembers the field as it was before
/// the composition began.
pub proof fn law_composing_marks_the_inserted_text(
    st: FieldState,
    range_utf16: Option<Range<usize>>,
    new_text: Seq<char>,
    selection: Option<Range<usize>>,
)
    requires
        field_wf(st),
        range_utf16 matches Some(u) ==> u.start <= u.end,
        selection matches Some(u) ==> u.start <= u.end,
        utf8_len(marked_replaced(st, range_utf16, new_text, selection).text) <= usize::MAX,
    ensures
        ({
            let after = marked_replaced(st, range_utf16, new_text, selection);
            let (start, end) = edit_range(st.text, range_utf16, st.marked, st.selected);
            let inserted = without_line_breaks(new_text);
            &&& after.text == st.text.take(char_index_of(st.text, start)) + inserted + st.text.skip(
                char_index_of(st.text, end),
            )
            &&& inserted.len() > 0 ==> after.marked == Some(
                start as usize..(start + utf8_len(inserted)) as usize,
            )
            &&& inserted.len() == 0 ==> after.marked is None
            &&& start <= after.selected.start <= after.selected.end <= start + utf8_len(inserted)
            &&& !after.reversed
            &&& st.snapshot is None ==> after.snapshot == Some((st.text, st.selected, st.reversed))
            &&& st.snapshot is Some ==> after.snapshot == st.snapshot
        }),
{
    let (start, end) = edit_range(st.text, range_utf16, st.marked, st.selected);
    let inserted = without_line_breaks(new_text);
    if range_utf16 is Some {
        let u = range_utf16->0;
        crate::utf::lemma_utf16_to_byte(st.text, u.start as int, u.end as int);
    }
    lemma_splice_text(st.text, start, end, inserted);
    if selection is Some {
        let u = selection->0;
        crate::utf::lemma_utf16_to_byte(inserted, u.start as int, u.end as int);
    }
    if inserted.len() == 0 {
        lemma_empty_lens();
        assert(inserted =~= Seq::<char>::empty());
    }
    crate::utf::lemma_prefix_lens_grow(inserted, 0, inserted.len() as int);
    assert(inserted.take(inserted.len() as int) =~= inserted);
    assert(inserted.take(0) =~= Seq::<char>::empty());
    lemma_empty_lens();
}

} // verus!
