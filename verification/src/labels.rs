//! What the view's labels show: the header's status line and the date badge
//! of a sidebar row, its placement and its colour.

use vstd::prelude::*;
use crate::paths::{paths_equal, same_path};

verus! {

/// The separator between the warning and the status in the header.
pub open spec fn status_separator() -> Seq<char> {
    seq![' ', '\u{b7}', ' ']
}

/// The header's status line: a persistent warning and the current status,
/// both shown when both are set, since neither may hide the other; `None`
/// when neither is.
pub fn header_status_line(warning: Option<&str>, status: Option<&str>) -> (r: Option<String>)
    ensures
        match (warning, status) {
            (Some(w), Some(s)) => r matches Some(line) && line@ == w@ + status_separator() + s@,
            (Some(w), None) => r matches Some(line) && line@ == w@,
            (None, Some(s)) => r matches Some(line) && line@ == s@,
            (None, None) => r is None,
        },
{
    match (warning, status) {
        (Some(warning), Some(status)) => {
            let mut line = warning.to_owned();
            line.append(" \u{b7} ");
            line.append(status);
            proof {
                reveal_strlit(" \u{b7} ");
            }
            Some(line)
        },
        (Some(warning), None) => Some(warning.to_owned()),
        (None, Some(status)) => Some(status.to_owned()),
        (None, None) => None,
    }
}

/// Which side of a file row's remaining text its date badge goes on.
#[derive(Clone, Copy, Debug, PartialEq, Eq, Structural)]
pub enum DateBadgePosition {
    Left,
    Right,
}

/// Whether the badge comes before the rest of the label.
pub fn badge_renders_before_remainder(position: DateBadgePosition) -> (r: bool)
    ensures
        r == (position == DateBadgePosition::Left),
{
    match position {
        DateBadgePosition::Left => true,
        DateBadgePosition::Right => false,
    }
}

/// How close a badge's date is to today.
#[derive(Clone, Copy, Debug, PartialEq, Eq, Structural)]
pub enum DateBadgeRange {
    Today,
    ThisWeek,
    ThisMonth,
    ThisYear,
    Other,
}

pub const DATE_BADGE_TODAY_BACKGROUND: u32 = 0x44779e;

pub const DATE_BADGE_THIS_WEEK_BACKGROUND: u32 = 0x356d94;

pub const DATE_BADGE_THIS_MONTH_BACKGROUND: u32 = 0x2e6287;

pub const DATE_BADGE_THIS_YEAR_BACKGROUND: u32 = 0x285878;

pub const DATE_BADGE_OTHER_BACKGROUND: u32 = 0x214c68;

pub const DATE_BADGE_FOREGROUND: u32 = 0xf7fbff;

/// The background tier of each range, brightest for today.
pub open spec fn badge_background(range: DateBadgeRange) -> u32 {
    match range {
        DateBadgeRange::Today => DATE_BADGE_TODAY_BACKGROUND,
        DateBadgeRange::ThisWeek => DATE_BADGE_THIS_WEEK_BACKGROUND,
        DateBadgeRange::ThisMonth => DATE_BADGE_THIS_MONTH_BACKGROUND,
        DateBadgeRange::ThisYear => DATE_BADGE_THIS_YEAR_BACKGROUND,
        DateBadgeRange::Other => DATE_BADGE_OTHER_BACKGROUND,
    }
}

/// The badge background for a date in `range`.
pub fn date_badge_background(range: DateBadgeRange) -> (r: u32)
    ensures
        r == badge_background(range),
{
    match range {
        DateBadgeRange::Today => DATE_BADGE_TODAY_BACKGROUND,
        DateBadgeRange::ThisWeek => DATE_BADGE_THIS_WEEK_BACKGROUND,
        DateBadgeRange::ThisMonth => DATE_BADGE_THIS_MONTH_BACKGROUND,
        DateBadgeRange::ThisYear => DATE_BADGE_THIS_YEAR_BACKGROUND,
        DateBadgeRange::Other => DATE_BADGE_OTHER_BACKGROUND,
    }
}

/// Proximity order of the ranges: today first.
pub open spec fn proximity(range: DateBadgeRange) -> int {
    match range {
        DateBadgeRange::Today => 0,
        DateBadgeRange::ThisWeek => 1,
        DateBadgeRange::ThisMonth => 2,
        DateBadgeRange::ThisYear => 3,
        DateBadgeRange::Other => 4,
    }
}

/// Red, green and blue of a `0xRRGGBB` colour.
pub open spec fn channels(color: u32) -> (int, int, int) {
    ((color / 0x10000) as int % 0x100, (color / 0x100) as int % 0x100, color as int % 0x100)
}

/// The badge palette darkens with distance from today: a farther range is
/// darker in each of red, green and blue, and the foreground is brighter in
/// each than every background.
pub proof fn law_badge_palette_darkens_with_distance(near: DateBadgeRange, far: DateBadgeRange)
    requires
        proximity(near) < proximity(far),
    ensures
        channels(badge_background(far)).0 < channels(badge_background(near)).0,
        channels(badge_background(far)).1 < channels(badge_background(near)).1,
        channels(badge_background(far)).2 < channels(badge_background(near)).2,
        channels(badge_background(near)).0 < channels(DATE_BADGE_FOREGROUND).0,
        channels(badge_background(near)).1 < channels(DATE_BADGE_FOREGROUND).1,
        channels(badge_background(near)).2 < channels(DATE_BADGE_FOREGROUND).2,
{
    assert(channels(DATE_BADGE_TODAY_BACKGROUND) == (0x44int, 0x77int, 0x9eint));
    assert(channels(DATE_BADGE_THIS_WEEK_BACKGROUND) == (0x35int, 0x6dint, 0x94int));
    assert(channels(DATE_BADGE_THIS_MONTH_BACKGROUND) == (0x2eint, 0x62int, 0x87int));
    assert(channels(DATE_BADGE_THIS_YEAR_BACKGROUND) == (0x28int, 0x58int, 0x78int));
    assert(channels(DATE_BADGE_OTHER_BACKGROUND) == (0x21int, 0x4cint, 0x68int));
    assert(channels(DATE_BADGE_FOREGROUND) == (0xf7int, 0xfbint, 0xffint));
}

/// Characters with the Unicode `White_Space` property (what
/// `char::is_whitespace` tests).
pub open spec fn is_white_space(c: char) -> bool {
    let v = c as u32;
    ||| 0x09 <= v <= 0x0D
    ||| v == 0x20
    ||| v == 0x85
    ||| v == 0xA0
    ||| v == 0x1680
    ||| 0x2000 <= v <= 0x200A
    ||| v == 0x2028
    ||| v == 0x2029
    ||| v == 0x202F
    ||| v == 0x205F
    ||| v == 0x3000
}

/// Whether `c` is white space.
fn white_space(c: char) -> (r: bool)
    ensures
        r == is_white_space(c),
{
    let v = c as u32;
    (0x09 <= v && v <= 0x0D) || v == 0x20 || v == 0x85 || v == 0xA0 || v == 0x1680 || (0x2000 <= v
        && v <= 0x200A) || v == 0x2028 || v == 0x2029 || v == 0x202F || v == 0x205F || v == 0x3000
}

/// `s` without leading white space.
pub open spec fn trim_start(s: Seq<char>) -> Seq<char>
    decreases s.len(),
{
    if s.len() > 0 && is_white_space(s[0]) {
        trim_start(s.drop_first())
    } else {
        s
    }
}

/// `s` without trailing white space.
pub open spec fn trim_end(s: Seq<char>) -> Seq<char>
    decreases s.len(),
{
    if s.len() > 0 && is_white_space(s.last()) {
        trim_end(s.drop_last())
    } else {
        s
    }
}

/// `s` without white space at either end.
pub open spec fn trim(s: Seq<char>) -> Seq<char> {
    trim_end(trim_start(s))
}

/// `s` without its leading `#` characters.
pub open spec fn trim_hashes(s: Seq<char>) -> Seq<char>
    decreases s.len(),
{
    if s.len() > 0 && s[0] == '#' {
        trim_hashes(s.drop_first())
    } else {
        s
    }
}

/// The label a line gives, if it is not blank: trimmed, without the `#`s of
/// a heading marker, trimmed again.
pub open spec fn line_label(line: Seq<char>) -> Option<Seq<char>> {
    if trim(line).len() == 0 {
        None
    } else {
        Some(trim(trim_hashes(trim(line))))
    }
}

/// The label of the first non-blank line of `s` at or after the line that
/// starts at `start`, scanning from `i`.
pub open spec fn first_label(s: Seq<char>, start: int, i: int) -> Option<Seq<char>>
    decreases s.len() - i,
{
    if i >= s.len() {
        line_label(s.subrange(start, s.len() as int))
    } else if s[i] == '\n' {
        match line_label(s.subrange(start, i)) {
            Some(label) => Some(label),
            None => first_label(s, i + 1, i + 1),
        }
    } else {
        first_label(s, start, i + 1)
    }
}

/// The placeholder for a note with no text yet.
pub open spec fn untitled_label() -> Seq<char> {
    "Untitled note"@
}

/// Bounds of `v[lo..hi]` without white space at either end.
fn trimmed_bounds(v: &Vec<char>, lo: usize, hi: usize) -> (r: (usize, usize))
    requires
        lo <= hi <= v@.len(),
    ensures
        lo <= r.0 <= r.1 <= hi,
        v@.subrange(r.0 as int, r.1 as int) == trim(v@.subrange(lo as int, hi as int)),
{
    let mut a = lo;
    while a < hi && white_space(v[a])
        invariant
            lo <= a <= hi <= v@.len(),
            trim_start(v@.subrange(lo as int, hi as int)) == trim_start(
                v@.subrange(a as int, hi as int),
            ),
        decreases hi - a,
    {
        proof {
            assert(v@.subrange(a as int, hi as int).drop_first() =~= v@.subrange(
                a + 1,
                hi as int,
            ));
        }
        a = a + 1;
    }
    proof {
        if a < hi {
            assert(v@.subrange(a as int, hi as int)[0] == v@[a as int]);
        }
    }
    let mut b = hi;
    while b > a && white_space(v[b - 1])
        invariant
            lo <= a <= b <= hi <= v@.len(),
            trim_start(v@.subrange(lo as int, hi as int)) == v@.subrange(a as int, hi as int),
            trim(v@.subrange(lo as int, hi as int)) == trim_end(v@.subrange(a as int, b as int)),
        decreases b - a,
    {
        proof {
            assert(v@.subrange(a as int, b as int).drop_last() =~= v@.subrange(
                a as int,
                b - 1,
            ));
        }
        b = b - 1;
    }
    proof {
        if b > a {
            assert(v@.subrange(a as int, b as int).last() == v@[b - 1]);
        }
    }
    (a, b)
}

/// Bounds of `v[lo..hi]` without its leading `#`s.
fn without_hashes_bounds(v: &Vec<char>, lo: usize, hi: usize) -> (r: usize)
    requires
        lo <= hi <= v@.len(),
    ensures
        lo <= r <= hi,
        v@.subrange(r as int, hi as int) == trim_hashes(v@.subrange(lo as int, hi as int)),
{
    let mut a = lo;
    while a < hi && v[a] == '#'
        invariant
            lo <= a <= hi <= v@.len(),
            trim_hashes(v@.subrange(lo as int, hi as int)) == trim_hashes(
                v@.subrange(a as int, hi as int),
            ),
        decreases hi - a,
    {
        proof {
            assert(v@.subrange(a as int, hi as int).drop_first() =~= v@.subrange(
                a + 1,
                hi as int,
            ));
        }
        a = a + 1;
    }
    proof {
        if a < hi {
            assert(v@.subrange(a as int, hi as int)[0] == v@[a as int]);
        }
    }
    a
}

/// The characters `v[lo..hi]` as a string.
fn string_of(v: &Vec<char>, lo: usize, hi: usize) -> (r: String)
    requires
        lo <= hi <= v@.len(),
    ensures
        r@ == v@.subrange(lo as int, hi as int),
{
    let mut r = String::new();
    let mut k = lo;
    while k < hi
        invariant
            lo <= k <= hi <= v@.len(),
            r@ == v@.subrange(lo as int, k as int),
        decreases hi - k,
    {
        proof {
            assert(v@.subrange(lo as int, k + 1) =~= v@.subrange(lo as int, k as int).push(
                v@[k as int],
            ));
        }
        crate::strings::push_char(&mut r, v[k]);
        k = k + 1;
    }
    r
}

/// The label of the line `v[lo..hi]`, if it is not blank.
fn line_label_of(v: &Vec<char>, lo: usize, hi: usize) -> (r: Option<String>)
    requires
        lo <= hi <= v@.len(),
    ensures
        match line_label(v@.subrange(lo as int, hi as int)) {
            Some(label) => r matches Some(t) && t@ == label,
            None => r is None,
        },
{
    let (a, b) = trimmed_bounds(v, lo, hi);
    if a == b {
        return None;
    }
    let c = without_hashes_bounds(v, a, b);
    let (d, e) = trimmed_bounds(v, c, b);
    Some(string_of(v, d, e))
}

/// The sidebar label of an unnamed note: its first non-blank line, with
/// the `#`s of a heading marker and surrounding white space removed, or a
/// placeholder while the note has no such line.
pub fn draft_preview(text: &str) -> (r: String)
    ensures
        r@ == match first_label(text@, 0, 0) {
            Some(label) => label,
            None => untitled_label(),
        },
{
    let v = crate::utf::chars_of(text);
    let n = v.len();
    let mut start: usize = 0;
    let mut i: usize = 0;
    while i < n
        invariant
            v@ == text@,
            n == v@.len(),
            start <= i <= n,
            first_label(text@, 0, 0) == first_label(text@, start as int, i as int),
        decreases n - i,
    {
        if v[i] == '\n' {
            if let Some(label) = line_label_of(&v, start, i) {
                return label;
            }
            start = i + 1;
        }
        i = i + 1;
    }
    match line_label_of(&v, start, n) {
        Some(label) => label,
        None => {
            proof {
                reveal_strlit("Untitled note");
            }
            "Untitled note".to_owned()
        },
    }
}

/// How many recent files the header lists.
pub const HEADER_RECENT_FILES: usize = 3;

/// Recent files from `i` on that the header lists, at most `left` of them:
/// every entry but the active document's, in order.
pub open spec fn recent_shown(
    entries: Seq<String>,
    active: Option<Seq<char>>,
    i: int,
    left: int,
) -> Seq<Seq<char>>
    decreases entries.len() - i,
{
    if i < 0 || i >= entries.len() || left <= 0 {
        Seq::empty()
    } else if active matches Some(a) && same_path(entries[i]@, a) {
        recent_shown(entries, active, i + 1, left)
    } else {
        seq![entries[i]@] + recent_shown(entries, active, i + 1, left - 1)
    }
}

/// The recent files the header lists: the first few that are not the
/// active document.
pub fn header_recent_files(entries: &Vec<String>, active: Option<&str>) -> (r: Vec<String>)
    ensures
        r@.map_values(|p: String| p@) == recent_shown(
            entries@,
            match active {
                Some(a) => Some(a@),
                None => None,
            },
            0,
            HEADER_RECENT_FILES as int,
        ),
{
    let ghost act = match active {
        Some(a) => Some(a@),
        None => None::<Seq<char>>,
    };
    let mut r: Vec<String> = Vec::new();
    let mut i: usize = 0;
    proof {
        assert(r@.map_values(|p: String| p@) =~= Seq::<Seq<char>>::empty());
    }
    while i < entries.len() && r.len() < HEADER_RECENT_FILES
        invariant
            i <= entries.len(),
            r.len() <= HEADER_RECENT_FILES,
            act == match active {
                Some(a) => Some(a@),
                None => None::<Seq<char>>,
            },
            r@.map_values(|p: String| p@) + recent_shown(
                entries@,
                act,
                i as int,
                HEADER_RECENT_FILES - r.len(),
            ) == recent_shown(entries@, act, 0, HEADER_RECENT_FILES as int),
        decreases entries.len() - i,
    {
        let is_active = match active {
            Some(a) => paths_equal(entries[i].as_str(), a),
            None => false,
        };
        if !is_active {
            let ghost before = r@;
            r.push(entries[i].clone());
            proof {
                assert(r@.map_values(|p: String| p@) =~= before.map_values(|p: String| p@).push(
                    entries@[i as int]@,
                ));
                assert(before.map_values(|p: String| p@).push(entries@[i as int]@) + recent_shown(
                    entries@,
                    act,
                    i + 1,
                    HEADER_RECENT_FILES - r.len(),
                ) =~= before.map_values(|p: String| p@) + recent_shown(
                    entries@,
                    act,
                    i as int,
                    HEADER_RECENT_FILES - before.len(),
                ));
            }
        }
        i = i + 1;
    }
    proof {
        let rest = recent_shown(entries@, act, i as int, HEADER_RECENT_FILES - r.len());
        assert(rest =~= Seq::<Seq<char>>::empty());
        assert(r@.map_values(|p: String| p@) + rest =~= r@.map_values(|p: String| p@));
    }
    r
}

/// The header lists at most three recent files and never the active
/// document; while fewer than three are listed, every entry that is not the
/// active document is listed.
pub proof fn law_recent_files_skip_the_active_document(
    entries: Seq<String>,
    active: Option<Seq<char>>,
    i: int,
    left: int,
)
    requires
        0 <= i,
    ensures
        recent_shown(entries, active, i, left).len() <= if left > 0 {
            left
        } else {
            0
        },
        forall|k: int|
            0 <= k < recent_shown(entries, active, i, left).len() ==> !(active matches Some(a)
                && same_path(#[trigger] recent_shown(entries, active, i, left)[k], a)),
        recent_shown(entries, active, i, left).len() < left ==> forall|j: int|
            i <= j < entries.len() && !(active matches Some(a) && same_path(entries[j]@, a))
                ==> recent_shown(entries, active, i, left).contains(#[trigger] entries[j]@),
    decreases entries.len() - i,
{
    if i < entries.len() && left > 0 {
        law_recent_files_skip_the_active_document(entries, active, i + 1, left);
        law_recent_files_skip_the_active_document(entries, active, i + 1, left - 1);
        let all = recent_shown(entries, active, i, left);
        if !(active matches Some(a) && same_path(entries[i]@, a)) {
            let rest = recent_shown(entries, active, i + 1, left - 1);
            assert(all == seq![entries[i]@] + rest);
            assert forall|k: int| 0 <= k < all.len() implies !(active matches Some(a) && same_path(
                #[trigger] all[k],
                a,
            )) by {
                if k > 0 {
                    assert(all[k] == rest[k - 1]);
                }
            }
            if all.len() < left {
                assert forall|j: int|
                    i <= j < entries.len() && !(active matches Some(a) && same_path(entries[j]@, a))
                        implies all.contains(#[trigger] entries[j]@) by {
                    if j == i {
                        assert(all[0] == entries[i]@);
                    } else {
                        assert(rest.contains(entries[j]@));
                        let k = choose|k: int| 0 <= k < rest.len() && rest[k] == entries[j]@;
                        assert(all[k + 1] == rest[k]);
                    }
                }
            }
        } else {
            let rest = recent_shown(entries, active, i + 1, left);
            assert(all == rest);
            if all.len() < left {
                assert forall|j: int|
                    i <= j < entries.len() && !(active matches Some(a) && same_path(entries[j]@, a))
                        implies all.contains(#[trigger] entries[j]@) by {
                    if j > i {
                        assert(rest.contains(entries[j]@));
                    }
                }
            }
        }
    }
}

} // verus!
