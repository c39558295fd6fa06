//! Splitting and editing UTF-8 strings at byte offsets that fall between
//! characters.

use vstd::prelude::*;
use vstd::utf8::{
    encode_utf8, encode_utf8_decode_utf8, encode_utf8_first_scalar, encode_utf8_valid_utf8,
    is_char_boundary, pop_first_scalar,
};
use crate::utf::{
    byte_len, char_index_of, char_utf8_width, is_char_offset, lemma_char_index_of, lemma_empty_lens,
    lemma_encode_scalar_len, lemma_encode_utf8_add, lemma_prefix_lens_grow, lemma_utf8_len_add,
    utf8_len,
};

verus! {

broadcast use vstd::seq::group_seq_axioms;

/// The byte offset of character `k` is a UTF-8 character boundary of the
/// encoding.
pub proof fn lemma_char_boundary(s: Seq<char>, k: int)
    requires
        0 <= k <= s.len(),
    ensures
        is_char_boundary(encode_utf8(s), utf8_len(s.take(k)) as int),
    decreases k,
{
    encode_utf8_valid_utf8(s);
    if k == 0 {
        assert(s.take(0) =~= Seq::<char>::empty());
        lemma_empty_lens();
    } else {
        let bytes = encode_utf8(s);
        encode_utf8_first_scalar(s);
        lemma_encode_scalar_len(s[0]);
        assert(pop_first_scalar(bytes) =~= encode_utf8(s.drop_first()));
        lemma_char_boundary(s.drop_first(), k - 1);
        assert(s.take(k) =~= seq![s[0]] + s.drop_first().take(k - 1));
        lemma_utf8_len_add(seq![s[0]], s.drop_first().take(k - 1));
        assert(seq![s[0]].drop_first() =~= Seq::<char>::empty());
        lemma_empty_lens();
        assert(encode_utf8(seq![s[0]]) =~= vstd::utf8::encode_scalar(s[0] as u32) + encode_utf8(
            seq![s[0]].drop_first(),
        ));
        lemma_prefix_lens_grow(s, k, k);
    }
}

/// Splits `text` at byte `offset`, which must fall between characters.
pub fn split_at_char_offset<'a>(text: &'a str, offset: usize) -> (r: (&'a str, &'a str))
    requires
        is_char_offset(text@, offset as int),
    ensures
        r.0@ == text@.take(char_index_of(text@, offset as int)),
        r.1@ == text@.skip(char_index_of(text@, offset as int)),
{
    let ghost s = text@;
    let ghost k = char_index_of(s, offset as int);
    proof {
        lemma_char_boundary(s, k);
        assert(s =~= s.take(k) + s.skip(k));
        lemma_encode_utf8_add(s.take(k), s.skip(k));
    }
    let r = text.split_at(offset);
    proof {
        let bytes = encode_utf8(s);
        assert(bytes =~= encode_utf8(s.take(k)) + encode_utf8(s.skip(k)));
        assert(encode_utf8(r.0@) =~= encode_utf8(s.take(k)));
        assert(encode_utf8(r.1@) =~= encode_utf8(s.skip(k)));
        encode_utf8_decode_utf8(r.0@);
        encode_utf8_decode_utf8(s.take(k));
        encode_utf8_decode_utf8(r.1@);
        encode_utf8_decode_utf8(s.skip(k));
    }
    r
}

/// `String::push`: appends `c` to `s`.
#[verifier::external_body]
pub(crate) fn push_char(s: &mut String, c: char)
    ensures
        final(s)@ == old(s)@.push(c),
{
    s.push(c);
}

/// `text` with bytes `start..end` replaced by `replacement` (what
/// `String::replace_range` leaves).
pub fn replace_byte_range(text: &str, start: usize, end: usize, replacement: &str) -> (r: String)
    requires
        start <= end,
        is_char_offset(text@, start as int),
        is_char_offset(text@, end as int),
    ensures
        r@ == text@.take(char_index_of(text@, start as int)) + replacement@ + text@.skip(
            char_index_of(text@, end as int),
        ),
{
    let (head, _) = split_at_char_offset(text, start);
    let (_, tail) = split_at_char_offset(text, end);
    let mut r = head.to_owned();
    r.append(replacement);
    r.append(tail);
    r
}

/// `s` with the characters between byte offsets `start` and `end` replaced
/// by `replacement`.
pub open spec fn splice_text(s: Seq<char>, start: int, end: int, replacement: Seq<char>) -> Seq<
    char,
> {
    s.take(char_index_of(s, start)) + replacement + s.skip(char_index_of(s, end))
}

/// Character boundaries of the middle of `a + r + b` are those of `r`,
/// shifted by the length of `a`.
pub proof fn lemma_offset_in_middle(a: Seq<char>, r: Seq<char>, b: Seq<char>, x: int)
    requires
        is_char_offset(r, x),
    ensures
        is_char_offset(a + r + b, utf8_len(a) + x),
{
    let j = char_index_of(r, x);
    let t = a + r + b;
    assert(t.take(a.len() + j) =~= a + r.take(j));
    lemma_utf8_len_add(a, r.take(j));
    lemma_char_index_of(t, a.len() + j);
}

/// Facts about `splice_text` on character boundaries: the prefix kept is
/// `start` bytes long and the whole fits the lengths of its parts.
pub proof fn lemma_splice_text(s: Seq<char>, start: int, end: int, replacement: Seq<char>)
    requires
        start <= end,
        is_char_offset(s, start),
        is_char_offset(s, end),
    ensures
        utf8_len(s.take(char_index_of(s, start))) == start,
        end <= utf8_len(s),
        utf8_len(splice_text(s, start, end, replacement)) == start + utf8_len(replacement)
            + (utf8_len(s) - end),
        is_char_offset(splice_text(s, start, end, replacement), start),
        is_char_offset(
            splice_text(s, start, end, replacement),
            start + utf8_len(replacement),
        ),
        forall|x: int|
            is_char_offset(replacement, x) ==> is_char_offset(
                #[trigger] splice_text(s, start, end, replacement),
                start + x,
            ),
{
    let ks = char_index_of(s, start);
    let ke = char_index_of(s, end);
    let a = s.take(ks);
    let b = s.skip(ke);
    assert(s =~= s.take(ke) + b);
    lemma_utf8_len_add(s.take(ke), b);
    lemma_prefix_lens_grow(s, ke, ke);
    lemma_utf8_len_add(a, replacement);
    lemma_utf8_len_add(a + replacement, b);
    lemma_char_index_of(replacement, 0);
    assert(replacement.take(0) =~= Seq::<char>::empty());
    lemma_empty_lens();
    assert(replacement.take(replacement.len() as int) =~= replacement);
    lemma_char_index_of(replacement, replacement.len() as int);
    lemma_offset_in_middle(a, replacement, b, 0);
    lemma_offset_in_middle(a, replacement, b, utf8_len(replacement) as int);
    assert forall|x: int| is_char_offset(replacement, x) implies is_char_offset(
        #[trigger] splice_text(s, start, end, replacement),
        start + x,
    ) by {
        lemma_offset_in_middle(a, replacement, b, x);
    }
}

/// Replaces bytes `start..end` of `text` by `replacement`, in place.
pub fn splice_into(text: &mut String, start: usize, end: usize, replacement: &str)
    requires
        start <= end,
        is_char_offset(old(text)@, start as int),
        is_char_offset(old(text)@, end as int),
    ensures
        final(text)@ == splice_text(old(text)@, start as int, end as int, replacement@),
        start + utf8_len(replacement@) <= utf8_len(final(text)@) <= usize::MAX,
{
    let spliced = replace_byte_range(text.as_str(), start, end, replacement);
    proof {
        lemma_splice_text(text@, start as int, end as int, replacement@);
    }
    let _ = byte_len(spliced.as_str());
    *text = spliced;
}

/// Bytes `start..end` of `text` as a new string.
pub fn substring(text: &str, start: usize, end: usize) -> (r: String)
    requires
        start <= end,
        is_char_offset(text@, start as int),
        is_char_offset(text@, end as int),
    ensures
        r@ == text@.subrange(char_index_of(text@, start as int), char_index_of(text@, end as int)),
{
    let ghost s = text@;
    let ghost ks = char_index_of(s, start as int);
    let ghost ke = char_index_of(s, end as int);
    proof {
        if ke < ks {
            lemma_prefix_lens_grow(s, ke, ks);
        }
    }
    let (_, rest) = split_at_char_offset(text, start);
    proof {
        assert(utf8_len(s.take(ke)) == utf8_len(s.take(ks)) + utf8_len(s.subrange(ks, ke))) by {
            assert(s.take(ke) =~= s.take(ks) + s.subrange(ks, ke));
            lemma_utf8_len_add(s.take(ks), s.subrange(ks, ke));
        }
        assert(rest@.take(ke - ks) =~= s.subrange(ks, ke));
        lemma_char_index_of(rest@, ke - ks);
    }
    let (middle, _) = split_at_char_offset(rest, end - start);
    middle.to_owned()
}

/// `s` without its line-break characters (`'\n'` and `'\r'`).
pub open spec fn without_line_breaks(s: Seq<char>) -> Seq<char>
    decreases s.len(),
{
    if s.len() == 0 {
        s
    } else {
        let rest = without_line_breaks(s.drop_last());
        if s.last() == '\n' || s.last() == '\r' {
            rest
        } else {
            rest.push(s.last())
        }
    }
}

/// `text` with every `'\n'` and `'\r'` removed: single-line fields never
/// take a line break, whatever the platform inserts.
pub fn strip_line_breaks(text: &str) -> (r: String)
    ensures
        r@ == without_line_breaks(text@),
{
    let mut r = String::new();
    proof {
        assert(text@.take(0) =~= Seq::<char>::empty());
    }
    for character in it: text.chars()
        invariant
            it.seq() == text@,
            0 <= it.index() <= text@.len(),
            r@ == without_line_breaks(text@.take(it.index())),
    {
        let ghost i = it.index();
        proof {
            assert(text@.take(i + 1).drop_last() =~= text@.take(i));
        }
        if character != '\n' && character != '\r' {
            push_char(&mut r, character);
        }
    }
    proof {
        assert(text@.take(text@.len() as int) =~= text@);
    }
    r
}

/// Removing line breaks leaves no `'\n'` or `'\r'`, keeps every other
/// character in order, and changes nothing in text without line breaks.
pub proof fn law_line_breaks_removed(s: Seq<char>)
    ensures
        forall|i: int|
            0 <= i < without_line_breaks(s).len() ==> #[trigger] without_line_breaks(s)[i] != '\n'
                && without_line_breaks(s)[i] != '\r',
        without_line_breaks(s).len() <= s.len(),
        (forall|i: int| 0 <= i < s.len() ==> #[trigger] s[i] != '\n' && s[i] != '\r')
            ==> without_line_breaks(s) == s,
    decreases s.len(),
{
    if s.len() > 0 {
        law_line_breaks_removed(s.drop_last());
        if forall|i: int| 0 <= i < s.len() ==> #[trigger] s[i] != '\n' && s[i] != '\r' {
            assert forall|i: int| 0 <= i < s.drop_last().len() implies #[trigger] s.drop_last()[i]
                != '\n' && s.drop_last()[i] != '\r' by {
                assert(s.drop_last()[i] == s[i]);
            }
            assert(s.drop_last().push(s.last()) =~= s);
            assert(s[s.len() - 1] == s.last());
        }
    }
}

} // verus!
