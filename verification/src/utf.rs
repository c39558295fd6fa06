//! Byte, UTF-16 and character offsets into UTF-8 text.

use vstd::prelude::*;
use vstd::utf8::*;

verus! {

broadcast use vstd::seq::group_seq_axioms;

/// Bytes one character takes in UTF-8.
pub open spec fn char_utf8_width(c: char) -> nat {
    let v = c as u32;
    if v <= 0x7F {
        1
    } else if v <= 0x7FF {
        2
    } else if v <= 0xFFFF {
        3
    } else {
        4
    }
}

/// Code units one character takes in UTF-16.
pub open spec fn char_utf16_width(c: char) -> nat {
    if (c as u32) <= 0xFFFF {
        1
    } else {
        2
    }
}

/// Length in bytes of the UTF-8 encoding of `s` (what `str::len` returns).
pub open spec fn utf8_len(s: Seq<char>) -> nat {
    encode_utf8(s).len()
}

/// Length of `s` in UTF-16 code units.
pub open spec fn utf16_len(s: Seq<char>) -> nat
    decreases s.len(),
{
    if s.len() == 0 {
        0
    } else {
        char_utf16_width(s[0]) + utf16_len(s.drop_first())
    }
}

/// `b` is a byte offset into `s` that falls between two characters (or at
/// either end).
pub open spec fn is_char_offset(s: Seq<char>, b: int) -> bool {
    exists|k: int| 0 <= k <= s.len() && #[trigger] utf8_len(s.take(k)) == b
}

/// Character index whose byte offset is `b`.
pub open spec fn char_index_of(s: Seq<char>, b: int) -> int {
    choose|k: int| 0 <= k <= s.len() && #[trigger] utf8_len(s.take(k)) == b
}

pub proof fn lemma_encode_scalar_len(c: char)
    ensures
        encode_scalar(c as u32).len() == char_utf8_width(c),
{
    char_is_scalar(c);
}

pub proof fn lemma_encode_utf8_add(a: Seq<char>, b: Seq<char>)
    ensures
        encode_utf8(a + b) == encode_utf8(a) + encode_utf8(b),
    decreases a.len(),
{
    if a.len() == 0 {
        assert(a + b =~= b);
    } else {
        lemma_encode_utf8_add(a.drop_first(), b);
        assert((a + b).drop_first() =~= a.drop_first() + b);
        assert((a + b)[0] == a[0]);
        assert(encode_utf8(a + b) =~= encode_scalar(a[0] as u32) + (encode_utf8(a.drop_first())
            + encode_utf8(b)));
    }
}

pub proof fn lemma_utf8_len_add(a: Seq<char>, b: Seq<char>)
    ensures
        utf8_len(a + b) == utf8_len(a) + utf8_len(b),
{
    lemma_encode_utf8_add(a, b);
}

pub proof fn lemma_utf8_len_single(c: char)
    ensures
        utf8_len(seq![c]) == char_utf8_width(c),
{
    lemma_encode_scalar_len(c);
    assert(seq![c].drop_first() =~= Seq::<char>::empty());
    assert(encode_utf8(Seq::<char>::empty()) =~= Seq::<u8>::empty());
    assert(encode_utf8(seq![c]) =~= encode_scalar(c as u32) + encode_utf8(seq![c].drop_first()));
    assert(encode_utf8(seq![c]) =~= encode_scalar(c as u32));
}

pub proof fn lemma_utf8_len_push(s: Seq<char>, c: char)
    ensures
        utf8_len(s.push(c)) == utf8_len(s) + char_utf8_width(c),
{
    assert(s.push(c) =~= s + seq![c]);
    lemma_utf8_len_add(s, seq![c]);
    lemma_utf8_len_single(c);
}

pub proof fn lemma_utf16_len_add(a: Seq<char>, b: Seq<char>)
    ensures
        utf16_len(a + b) == utf16_len(a) + utf16_len(b),
    decreases a.len(),
{
    if a.len() == 0 {
        assert(a + b =~= b);
    } else {
        lemma_utf16_len_add(a.drop_first(), b);
        assert((a + b).drop_first() =~= a.drop_first() + b);
    }
}

pub proof fn lemma_utf16_len_push(s: Seq<char>, c: char)
    ensures
        utf16_len(s.push(c)) == utf16_len(s) + char_utf16_width(c),
{
    assert(s.push(c) =~= s + seq![c]);
    lemma_utf16_len_add(s, seq![c]);
    assert(seq![c].drop_first() =~= Seq::<char>::empty());
    assert(utf16_len(Seq::<char>::empty()) == 0);
    assert(utf16_len(seq![c]) == char_utf16_width(c) + utf16_len(seq![c].drop_first()));
}

pub proof fn lemma_empty_lens()
    ensures
        utf8_len(Seq::<char>::empty()) == 0,
        utf16_len(Seq::<char>::empty()) == 0,
{
    assert(encode_utf8(Seq::<char>::empty()) =~= Seq::<u8>::empty());
}

/// UTF-8 and UTF-16 lengths of a prefix grow with the prefix, by at least
/// one per character, and UTF-16 never outgrows UTF-8.
pub proof fn lemma_prefix_lens_grow(s: Seq<char>, i: int, j: int)
    requires
        0 <= i <= j <= s.len(),
    ensures
        utf8_len(s.take(i)) + (j - i) <= utf8_len(s.take(j)),
        utf16_len(s.take(i)) + (j - i) <= utf16_len(s.take(j)),
        utf16_len(s.take(j)) <= utf8_len(s.take(j)),
        utf8_len(s.take(j)) <= utf8_len(s),
    decreases j,
{
    if i < j {
        lemma_prefix_lens_grow(s, i, j - 1);
        assert(s.take(j) =~= s.take(j - 1).push(s[j - 1]));
        lemma_utf8_len_push(s.take(j - 1), s[j - 1]);
        lemma_utf16_len_push(s.take(j - 1), s[j - 1]);
    } else if j > 0 {
        lemma_prefix_lens_grow(s, j - 1, j - 1);
        assert(s.take(j) =~= s.take(j - 1).push(s[j - 1]));
        lemma_utf8_len_push(s.take(j - 1), s[j - 1]);
        lemma_utf16_len_push(s.take(j - 1), s[j - 1]);
    } else {
        assert(s.take(0) =~= Seq::<char>::empty());
        lemma_empty_lens();
    }
    assert(s =~= s.take(j) + s.skip(j));
    lemma_utf8_len_add(s.take(j), s.skip(j));
}

/// Character `k` starts at byte `utf8_len(s.take(k))`, and no other
/// character index does.
pub proof fn lemma_char_index_of(s: Seq<char>, k: int)
    requires
        0 <= k <= s.len(),
    ensures
        is_char_offset(s, utf8_len(s.take(k)) as int),
        char_index_of(s, utf8_len(s.take(k)) as int) == k,
{
    let b = utf8_len(s.take(k)) as int;
    assert(0 <= k <= s.len() && utf8_len(s.take(k)) == b);
    let j = char_index_of(s, b);
    if j < k {
        lemma_prefix_lens_grow(s, j, k);
    } else if j > k {
        lemma_prefix_lens_grow(s, k, j);
    }
}

/// First character index at or after `i` whose UTF-16 start reaches
/// `offset`, or the end of `s`.
pub open spec fn first_char_at_utf16(s: Seq<char>, offset: int, i: int) -> int
    decreases s.len() - i,
{
    if i >= s.len() {
        s.len() as int
    } else if utf16_len(s.take(i)) >= offset {
        i
    } else {
        first_char_at_utf16(s, offset, i + 1)
    }
}

/// First character index at or after `i` whose byte start reaches `offset`,
/// or the end of `s`.
pub open spec fn first_char_at_byte(s: Seq<char>, offset: int, i: int) -> int
    decreases s.len() - i,
{
    if i >= s.len() {
        s.len() as int
    } else if utf8_len(s.take(i)) >= offset {
        i
    } else {
        first_char_at_byte(s, offset, i + 1)
    }
}

/// Byte offset that UTF-16 offset `offset` of `s` maps to: the start of
/// the first character whose UTF-16 offset reaches it, or the end of `s`.
pub open spec fn utf16_to_byte(s: Seq<char>, offset: int) -> int {
    utf8_len(s.take(first_char_at_utf16(s, offset, 0))) as int
}

/// UTF-16 offset that byte offset `offset` of `s` maps to.
pub open spec fn byte_to_utf16(s: Seq<char>, offset: int) -> int {
    utf16_len(s.take(first_char_at_byte(s, offset, 0))) as int
}

proof fn lemma_first_char_at_utf16_mono(s: Seq<char>, a: int, b: int, i: int)
    requires
        0 <= i,
        a <= b,
    ensures
        first_char_at_utf16(s, a, i) <= first_char_at_utf16(s, b, i),
    decreases s.len() - i,
{
    if i < s.len() {
        lemma_first_char_at_utf16_mono(s, a, b, i + 1);
        lemma_first_char_from(s, a, i + 1);
        lemma_first_char_from(s, b, i + 1);
    }
}

/// `utf16_to_byte` is monotone and lands on a character boundary.
pub proof fn lemma_utf16_to_byte(s: Seq<char>, a: int, b: int)
    requires
        a <= b,
    ensures
        utf16_to_byte(s, a) <= utf16_to_byte(s, b),
        is_char_offset(s, utf16_to_byte(s, a)),
        is_char_offset(s, utf16_to_byte(s, b)),
        utf16_to_byte(s, b) <= utf8_len(s),
{
    lemma_first_char_at_utf16_mono(s, a, b, 0);
    lemma_first_char_bounds(s, a);
    lemma_first_char_bounds(s, b);
    lemma_prefix_lens_grow(s, first_char_at_utf16(s, a, 0), first_char_at_utf16(s, b, 0));
    lemma_char_index_of(s, first_char_at_utf16(s, a, 0));
    lemma_char_index_of(s, first_char_at_utf16(s, b, 0));
}

/// Byte length of `text` (what `str::len` returns).
pub fn byte_len(text: &str) -> (n: usize)
    ensures
        n == utf8_len(text@),
{
    text.as_bytes().len()
}

/// Exec counterpart of `char_utf16_width`.
pub fn utf16_width(c: char) -> (w: usize)
    ensures
        w == char_utf16_width(c),
{
    if (c as u32) <= 0xFFFF {
        1
    } else {
        2
    }
}

/// Byte offset of the first character of `text` whose UTF-16 offset is at
/// least `offset` (the end of the text when there is none). The platform
/// text input addresses text in UTF-16 code units; an offset inside a
/// surrogate pair rounds up to the next character.
pub fn byte_offset_from_utf16(text: &str, offset: usize) -> (r: usize)
    ensures
        r == utf8_len(text@.take(first_char_at_utf16(text@, offset as int, 0))),
        is_char_offset(text@, r as int),
{
    let ghost s = text@;
    let total = byte_len(text);
    let mut utf16: usize = 0;
    let mut byte: usize = 0;
    proof {
        assert(s.take(0) =~= Seq::<char>::empty());
        lemma_empty_lens();
    }
    for character in it: text.chars()
        invariant
            it.seq() == s,
            text@ == s,
            total == utf8_len(s),
            0 <= it.index() <= s.len(),
            byte == utf8_len(s.take(it.index())),
            utf16 == utf16_len(s.take(it.index())),
            first_char_at_utf16(s, offset as int, 0) == first_char_at_utf16(
                s,
                offset as int,
                it.index(),
            ),
    {
        let ghost i = it.index();
        assert(i < s.len());
        if utf16 >= offset {
            proof {
                lemma_char_index_of(s, i);
            }
            return byte;
        }
        proof {
            assert(s.take(i + 1) =~= s.take(i).push(character));
            lemma_utf8_len_push(s.take(i), character);
            lemma_utf16_len_push(s.take(i), character);
            lemma_prefix_lens_grow(s, i + 1, i + 1);
        }
        byte = byte + utf8_width(character);
        utf16 = utf16 + utf16_width(character);
    }
    proof {
        assert(s.take(s.len() as int) =~= s);
        lemma_char_index_of(s, s.len() as int);
    }
    total
}

/// UTF-16 offset of the first character of `text` whose byte offset is at
/// least `offset` (the whole text's UTF-16 length when there is none).
pub fn utf16_offset_from_byte(text: &str, offset: usize) -> (r: usize)
    ensures
        r == utf16_len(text@.take(first_char_at_byte(text@, offset as int, 0))),
{
    let ghost s = text@;
    let total = byte_len(text);
    let mut utf16: usize = 0;
    let mut byte: usize = 0;
    proof {
        assert(s.take(0) =~= Seq::<char>::empty());
        lemma_empty_lens();
    }
    for character in it: text.chars()
        invariant
            it.seq() == s,
            text@ == s,
            total == utf8_len(s),
            0 <= it.index() <= s.len(),
            byte == utf8_len(s.take(it.index())),
            utf16 == utf16_len(s.take(it.index())),
            first_char_at_byte(s, offset as int, 0) == first_char_at_byte(
                s,
                offset as int,
                it.index(),
            ),
    {
        let ghost i = it.index();
        assert(i < s.len());
        if byte >= offset {
            return utf16;
        }
        proof {
            assert(s.take(i + 1) =~= s.take(i).push(character));
            lemma_utf8_len_push(s.take(i), character);
            lemma_utf16_len_push(s.take(i), character);
            lemma_prefix_lens_grow(s, i + 1, i + 1);
        }
        byte = byte + utf8_width(character);
        utf16 = utf16 + utf16_width(character);
    }
    proof {
        assert(s.take(s.len() as int) =~= s);
    }
    utf16
}

/// Byte range of the characters covering the UTF-16 range `range`.
pub fn byte_range_from_utf16(text: &str, range: &std::ops::Range<usize>) -> (r: std::ops::Range<
    usize,
>)
    ensures
        r.start == utf8_len(text@.take(first_char_at_utf16(text@, range.start as int, 0))),
        r.end == utf8_len(text@.take(first_char_at_utf16(text@, range.end as int, 0))),
        is_char_offset(text@, r.start as int),
        is_char_offset(text@, r.end as int),
{
    byte_offset_from_utf16(text, range.start)..byte_offset_from_utf16(text, range.end)
}

/// UTF-16 range corresponding to the byte range `range`.
pub fn range_to_utf16(text: &str, range: &std::ops::Range<usize>) -> (r: std::ops::Range<usize>)
    ensures
        r.start == utf16_len(text@.take(first_char_at_byte(text@, range.start as int, 0))),
        r.end == utf16_len(text@.take(first_char_at_byte(text@, range.end as int, 0))),
{
    utf16_offset_from_byte(text, range.start)..utf16_offset_from_byte(text, range.end)
}

/// The selection an IME asks for inside a replacement it just inserted at
/// byte `replacement_start`: its UTF-16 range is relative to the
/// replacement, so it is converted to bytes within the replacement and
/// shifted to where the replacement now starts. Without one, `fallback`.
pub fn inline_rename_selected_range(
    replacement_start: usize,
    replacement: &str,
    selected_range_utf16: Option<std::ops::Range<usize>>,
    fallback: std::ops::Range<usize>,
) -> (r: std::ops::Range<usize>)
    requires
        replacement_start + utf8_len(replacement@) <= usize::MAX,
    ensures
        r == (match selected_range_utf16 {
            Some(selected) => (replacement_start + utf8_len(
                replacement@.take(first_char_at_utf16(replacement@, selected.start as int, 0)),
            )) as usize..(replacement_start + utf8_len(
                replacement@.take(first_char_at_utf16(replacement@, selected.end as int, 0)),
            )) as usize,
            None => fallback,
        }),
{
    match selected_range_utf16 {
        Some(selected) => {
            let selected_start = byte_offset_from_utf16(replacement, selected.start);
            let selected_end = byte_offset_from_utf16(replacement, selected.end);
            proof {
                lemma_first_char_bounds(replacement@, selected.start as int);
                lemma_first_char_bounds(replacement@, selected.end as int);
            }
            (replacement_start + selected_start)..(replacement_start + selected_end)
        },
        None => fallback,
    }
}

/// The first character found by `first_char_at_utf16` is a character index.
pub proof fn lemma_first_char_bounds(s: Seq<char>, offset: int)
    ensures
        0 <= first_char_at_utf16(s, offset, 0) <= s.len(),
        utf8_len(s.take(first_char_at_utf16(s, offset, 0))) <= utf8_len(s),
        0 <= first_char_at_byte(s, offset, 0) <= s.len(),
{
    lemma_first_char_from(s, offset, 0);
    lemma_prefix_lens_grow(s, 0, first_char_at_utf16(s, offset, 0));
}

proof fn lemma_first_char_from(s: Seq<char>, offset: int, i: int)
    requires
        0 <= i,
    ensures
        i <= s.len() ==> i <= first_char_at_utf16(s, offset, i) <= s.len(),
        i <= s.len() ==> i <= first_char_at_byte(s, offset, i) <= s.len(),
        i > s.len() ==> first_char_at_utf16(s, offset, i) == s.len(),
        i > s.len() ==> first_char_at_byte(s, offset, i) == s.len(),
    decreases s.len() - i,
{
    if i < s.len() {
        lemma_first_char_from(s, offset, i + 1);
    }
}

/// `first_char_at_utf16` stops at the first character reaching `offset`.
proof fn lemma_first_char_at_utf16_is(s: Seq<char>, offset: int, i: int, k: int)
    requires
        0 <= i <= k <= s.len(),
        forall|j: int| i <= j < k ==> utf16_len(#[trigger] s.take(j)) < offset,
        k == s.len() || utf16_len(s.take(k)) >= offset,
    ensures
        first_char_at_utf16(s, offset, i) == k,
    decreases k - i,
{
    if i < k {
        lemma_first_char_at_utf16_is(s, offset, i + 1, k);
    }
}

/// `first_char_at_byte` stops at the first character reaching `offset`.
proof fn lemma_first_char_at_byte_is(s: Seq<char>, offset: int, i: int, k: int)
    requires
        0 <= i <= k <= s.len(),
        forall|j: int| i <= j < k ==> utf8_len(#[trigger] s.take(j)) < offset,
        k == s.len() || utf8_len(s.take(k)) >= offset,
    ensures
        first_char_at_byte(s, offset, i) == k,
    decreases k - i,
{
    if i < k {
        lemma_first_char_at_byte_is(s, offset, i + 1, k);
    }
}

/// Converting a character boundary between bytes and UTF-16 code units
/// loses nothing: either way round, converting back gives the boundary that
/// was converted.
pub proof fn law_utf16_round_trip(s: Seq<char>, k: int)
    requires
        0 <= k <= s.len(),
    ensures
        first_char_at_byte(s, utf8_len(s.take(k)) as int, 0) == k,
        first_char_at_utf16(s, utf16_len(s.take(k)) as int, 0) == k,
        utf16_len(s.take(first_char_at_byte(s, utf8_len(s.take(k)) as int, 0))) == utf16_len(
            s.take(k),
        ),
        utf8_len(s.take(first_char_at_utf16(s, utf16_len(s.take(k)) as int, 0))) == utf8_len(
            s.take(k),
        ),
{
    assert forall|j: int| 0 <= j < k implies utf8_len(#[trigger] s.take(j)) < utf8_len(s.take(k))
        by {
        lemma_prefix_lens_grow(s, j, k);
    }
    assert forall|j: int| 0 <= j < k implies utf16_len(#[trigger] s.take(j)) < utf16_len(
        s.take(k),
    ) by {
        lemma_prefix_lens_grow(s, j, k);
    }
    lemma_first_char_at_byte_is(s, utf8_len(s.take(k)) as int, 0, k);
    lemma_first_char_at_utf16_is(s, utf16_len(s.take(k)) as int, 0, k);
}

/// Exec counterpart of `char_utf8_width`.
pub fn utf8_width(c: char) -> (w: usize)
    ensures
        w == char_utf8_width(c),
{
    let v = c as u32;
    if v <= 0x7F {
        1
    } else if v <= 0x7FF {
        2
    } else if v <= 0xFFFF {
        3
    } else {
        4
    }
}

/// The characters of `text`, in order.
pub fn chars_of(text: &str) -> (v: Vec<char>)
    ensures
        v@ == text@,
{
    let mut v: Vec<char> = Vec::new();
    for c in it: text.chars()
        invariant
            v@ == it.seq().take(it.index()),
            it.seq() == text@,
    {
        v.push(c);
    }
    v
}

} // verus!
