//! Caret movement by extended grapheme clusters, as segmented by the
//! `unicode-segmentation` crate.

use vstd::prelude::*;
use unicode_segmentation::UnicodeSegmentation;
use crate::strings::split_at_char_offset;
use crate::utf::{
    byte_len, char_index_of, is_char_offset, lemma_char_index_of, lemma_prefix_lens_grow,
    lemma_utf8_len_add, utf8_len,
};

verus! {

broadcast use vstd::seq::group_seq_axioms;

/// Byte offset at which the last extended grapheme cluster of `text` starts,
/// as `unicode-segmentation` segments it; `None` for empty text.
pub uninterp spec fn last_grapheme_start_of(text: Seq<char>) -> Option<usize>;

/// Byte offset at which the second extended grapheme cluster of `text`
/// starts, as `unicode-segmentation` segments it; `None` when `text` has
/// fewer than two clusters.
pub uninterp spec fn second_grapheme_start_of(text: Seq<char>) -> Option<usize>;

/// The grapheme boundary before byte `offset` of `s`: where the last
/// cluster of the text before it starts, or 0 when there is none.
pub open spec fn previous_boundary(s: Seq<char>, offset: int) -> int {
    match last_grapheme_start_of(s.take(char_index_of(s, offset))) {
        Some(i) => i as int,
        None => 0,
    }
}

/// The grapheme boundary after byte `offset` of `s`: where the second
/// cluster of the text from it starts, or the end of `s`.
pub open spec fn next_boundary(s: Seq<char>, offset: int) -> int {
    match second_grapheme_start_of(s.skip(char_index_of(s, offset))) {
        Some(i) => offset + i,
        None => utf8_len(s) as int,
    }
}

/// `UnicodeSegmentation::grapheme_indices(text, true).next_back()`, keeping
/// the offset. Clusters partition the text into non-empty runs of whole
/// characters, so the last one starts on a character boundary before the
/// end, and there is one exactly when the text is not empty.
#[verifier::external_body]
fn last_grapheme_start(text: &str) -> (r: Option<usize>)
    ensures
        r == last_grapheme_start_of(text@),
        r is None <==> text@.len() == 0,
        r matches Some(i) ==> is_char_offset(text@, i as int) && i < utf8_len(text@),
{
    text.grapheme_indices(true).next_back().map(|(index, _)| index)
}

/// `UnicodeSegmentation::grapheme_indices(text, true).nth(1)`, keeping the
/// offset. The first cluster is non-empty and every cluster is a run of
/// whole characters, so the second one starts on a character boundary
/// strictly inside the text; a text of at most one character has none.
#[verifier::external_body]
fn second_grapheme_start(text: &str) -> (r: Option<usize>)
    ensures
        r == second_grapheme_start_of(text@),
        text@.len() <= 1 ==> r is None,
        r matches Some(i) ==> is_char_offset(text@, i as int) && 0 < i < utf8_len(text@),
{
    text.grapheme_indices(true).nth(1).map(|(index, _)| index)
}

/// A character boundary of a prefix is one of the whole text.
proof fn lemma_offset_in_prefix(s: Seq<char>, k: int, b: int)
    requires
        0 <= k <= s.len(),
        is_char_offset(s.take(k), b),
    ensures
        is_char_offset(s, b),
{
    let j = char_index_of(s.take(k), b);
    assert(s.take(k).take(j) =~= s.take(j));
    lemma_char_index_of(s, j);
}

/// A character boundary of a suffix, shifted by the suffix's start, is one
/// of the whole text.
proof fn lemma_offset_in_suffix(s: Seq<char>, k: int, b: int)
    requires
        0 <= k <= s.len(),
        is_char_offset(s.skip(k), b),
    ensures
        is_char_offset(s, utf8_len(s.take(k)) + b),
{
    let j = char_index_of(s.skip(k), b);
    assert(s.take(k + j) =~= s.take(k) + s.skip(k).take(j));
    lemma_utf8_len_add(s.take(k), s.skip(k).take(j));
    lemma_char_index_of(s, k + j);
}

/// The grapheme boundary before byte `offset`: the start of the last
/// cluster of `text[..offset]`, or 0 when that is empty.
pub fn previous_inline_rename_boundary(text: &str, offset: usize) -> (r: usize)
    requires
        is_char_offset(text@, offset as int),
    ensures
        r == previous_boundary(text@, offset as int),
        is_char_offset(text@, r as int),
        r <= offset,
        offset > 0 ==> r < offset,
{
    let ghost k = char_index_of(text@, offset as int);
    let (prefix, _) = split_at_char_offset(text, offset);
    proof {
        lemma_char_index_of(text@, 0);
        assert(text@.take(0) =~= Seq::<char>::empty());
        if offset > 0 && k == 0 {
            assert(false);
        }
    }
    match last_grapheme_start(prefix) {
        Some(index) => {
            proof {
                lemma_offset_in_prefix(text@, k, index as int);
            }
            index
        },
        None => 0,
    }
}

/// The grapheme boundary after byte `offset`: where the second cluster of
/// `text[offset..]` starts, or the end of the text.
pub fn next_inline_rename_boundary(text: &str, offset: usize) -> (r: usize)
    requires
        is_char_offset(text@, offset as int),
    ensures
        r == next_boundary(text@, offset as int),
        is_char_offset(text@, r as int),
        r >= offset,
        offset < utf8_len(text@) ==> r > offset,
{
    let ghost s = text@;
    let ghost k = char_index_of(s, offset as int);
    let total = byte_len(text);
    let (_, rest) = split_at_char_offset(text, offset);
    proof {
        assert(s =~= s.take(k) + s.skip(k));
        lemma_utf8_len_add(s.take(k), s.skip(k));
        assert(s.take(s.len() as int) =~= s);
        lemma_char_index_of(s, s.len() as int);
        lemma_prefix_lens_grow(s, k, k);
    }
    match second_grapheme_start(rest) {
        Some(index) => {
            proof {
                lemma_offset_in_suffix(s, k, index as int);
            }
            offset + index
        },
        None => {
            proof {
                if offset < total && s.skip(k).len() == 0 {
                    assert(s.take(k) =~= s);
                }
            }
            total
        },
    }
}

} // verus!
