//! Work-folder paths as the sidebar handles them: what part of a name the
//! rename field edits, which names a rename accepts, and how paths that lay
//! inside a renamed folder follow it. Paths are held as UTF-8 text and taken
//! apart by `std::path` as the target platform parses them.

use vstd::prelude::*;
use std::path::Path;
use crate::strings::push_char;
use crate::text_field::{InlineRename, InlineRenameKind};
use crate::utf::chars_of;

verus! {

broadcast use vstd::seq::group_seq_axioms;

/// The last component of a path, when it is a normal one
/// (`Path::file_name`). Like the other path names below, this is how
/// `std::path` parses on the platform the crate is built for: Unix and
/// Windows separators differ.
pub uninterp spec fn file_name_of(path: Seq<char>) -> Option<Seq<char>>;

/// The extension of a path's file name (`Path::extension`).
pub uninterp spec fn extension_of(path: Seq<char>) -> Option<Seq<char>>;

/// `path` relative to `base`, when `base` is a leading run of its
/// components (`Path::strip_prefix`).
pub uninterp spec fn strip_prefix_of(path: Seq<char>, base: Seq<char>) -> Option<Seq<char>>;

/// `relative` appended to `base` (`Path::join`).
pub uninterp spec fn join_of(base: Seq<char>, relative: Seq<char>) -> Seq<char>;

/// The path without its last component (`Path::parent`).
pub uninterp spec fn parent_of(path: Seq<char>) -> Option<Seq<char>>;

/// Whether two paths have the same components (`Path`'s `==`).
pub uninterp spec fn same_path(a: Seq<char>, b: Seq<char>) -> bool;

/// An optional string as an optional sequence of characters.
pub open spec fn opt_view(s: Option<String>) -> Option<Seq<char>> {
    match s {
        Some(t) => Some(t@),
        None => None,
    }
}

/// `Path::file_name`. The name of a path given as UTF-8 is UTF-8 itself,
/// so the conversion back to a string is exact.
#[verifier::external_body]
fn path_file_name(path: &str) -> (r: Option<String>)
    ensures
        opt_view(r) == file_name_of(path@),
{
    Path::new(path).file_name().map(|name| name.to_string_lossy().into_owned())
}

/// `Path::extension`, converted back to a string exactly as for
/// `path_file_name`. As documented, an extension is the part of the file
/// name after its final `.`, so the file name ends with `.` and it.
#[verifier::external_body]
fn path_extension(path: &str) -> (r: Option<String>)
    ensures
        opt_view(r) == extension_of(path@),
        r matches Some(e) ==> file_name_of(path@) matches Some(name) && e@.len() + 1 <= name.len()
            && name.skip(name.len() - e@.len() - 1) == seq!['.'] + e@,
{
    Path::new(path).extension().map(|extension| extension.to_string_lossy().into_owned())
}

/// `Path::strip_prefix`, with the error turned into `None`.
#[verifier::external_body]
fn path_strip_prefix(path: &str, base: &str) -> (r: Option<String>)
    ensures
        opt_view(r) == strip_prefix_of(path@, base@),
{
    match Path::new(path).strip_prefix(base) {
        Ok(relative) => Some(relative.to_string_lossy().into_owned()),
        Err(_) => None,
    }
}

/// `Path::join`.
#[verifier::external_body]
fn path_join(base: &str, relative: &str) -> (r: String)
    ensures
        r@ == join_of(base@, relative@),
{
    Path::new(base).join(relative).to_string_lossy().into_owned()
}

/// `Path::parent`.
#[verifier::external_body]
fn path_parent(path: &str) -> (r: Option<String>)
    ensures
        opt_view(r) == parent_of(path@),
{
    Path::new(path).parent().map(|parent| parent.to_string_lossy().into_owned())
}

/// `Path`'s `==`, which compares components.
#[verifier::external_body]
pub(crate) fn paths_equal(a: &str, b: &str) -> (r: bool)
    ensures
        r == same_path(a@, b@),
{
    Path::new(a) == Path::new(b)
}

/// `e` is `md` in any ASCII case.
pub open spec fn is_markdown_extension(e: Seq<char>) -> bool {
    &&& e.len() == 2
    &&& (e[0] == 'm' || e[0] == 'M')
    &&& (e[1] == 'd' || e[1] == 'D')
}

/// `s` without `suffix` at its end, or `s` itself when it does not end so.
pub open spec fn without_suffix(s: Seq<char>, suffix: Seq<char>) -> Seq<char> {
    if suffix.len() <= s.len() && s.skip(s.len() - suffix.len()) == suffix {
        s.take(s.len() - suffix.len())
    } else {
        s
    }
}

/// What the rename field edits, from an item's file name and extension:
/// a note named `*.md` (in any case) is edited without its extension, which
/// stays fixed; any other name is edited whole. No name, no field.
pub open spec fn rename_parts(
    file_name: Option<Seq<char>>,
    extension: Option<Seq<char>>,
    kind: InlineRenameKind,
) -> Option<(Seq<char>, Option<Seq<char>>)> {
    match file_name {
        None => None,
        Some(name) => match extension {
            Some(e) => if kind == InlineRenameKind::File && is_markdown_extension(e) {
                Some((without_suffix(name, seq!['.'] + e), Some(seq!['.'] + e)))
            } else {
                Some((name, None))
            },
            None => Some((name, None)),
        },
    }
}

/// The parts of a rename as sequences of characters.
pub open spec fn parts_view(parts: Option<(String, Option<String>)>) -> Option<
    (Seq<char>, Option<Seq<char>>),
> {
    match parts {
        Some((text, extension)) => Some((text@, opt_view(extension))),
        None => None,
    }
}

/// `s` without `suffix` at its end (what `str::strip_suffix` followed by
/// `unwrap_or(s)` gives).
fn strip_suffix_or_keep(s: &str, suffix: &str) -> (r: String)
    ensures
        r@ == without_suffix(s@, suffix@),
{
    let chars = chars_of(s);
    let tail = chars_of(suffix);
    let n = chars.len();
    let m = tail.len();
    if m > n {
        return s.to_owned();
    }
    let offset = n - m;
    let mut i: usize = 0;
    while i < m
        invariant
            chars@ == s@,
            tail@ == suffix@,
            n == s@.len(),
            m == suffix@.len(),
            offset == n - m,
            i <= m,
            forall|j: int| 0 <= j < i ==> chars@[offset + j] == tail@[j],
        decreases m - i,
    {
        if chars[offset + i] != tail[i] {
            proof {
                assert(s@.skip(offset as int)[i as int] != suffix@[i as int]);
            }
            return s.to_owned();
        }
        i = i + 1;
    }
    proof {
        assert(s@.skip(offset as int) =~= suffix@);
    }
    let mut r = String::new();
    let mut k: usize = 0;
    while k < offset
        invariant
            chars@ == s@,
            n == s@.len(),
            offset <= n,
            k <= offset,
            r@ == s@.take(k as int),
        decreases offset - k,
    {
        proof {
            assert(s@.take(k + 1) =~= s@.take(k as int).push(chars@[k as int]));
        }
        push_char(&mut r, chars[k]);
        k = k + 1;
    }
    r
}

/// `e` is `md` in any ASCII case (what `eq_ignore_ascii_case("md")` tells).
fn is_markdown(e: &str) -> (r: bool)
    ensures
        r == is_markdown_extension(e@),
{
    let chars = chars_of(e);
    chars.len() == 2 && (chars[0] == 'm' || chars[0] == 'M') && (chars[1] == 'd' || chars[1]
        == 'D')
}

/// What the rename field edits, from a file name and extension already
/// taken from a path.
pub fn inline_rename_parts_from(
    file_name: Option<String>,
    extension: Option<String>,
    kind: InlineRenameKind,
) -> (r: Option<(String, Option<String>)>)
    ensures
        parts_view(r) == rename_parts(opt_view(file_name), opt_view(extension), kind),
{
    let name = match file_name {
        Some(name) => name,
        None => return None,
    };
    if let Some(extension) = extension {
        if kind == InlineRenameKind::File && is_markdown(extension.as_str()) {
            let mut fixed_extension = String::new();
            push_char(&mut fixed_extension, '.');
            fixed_extension.append(extension.as_str());
            let stem = strip_suffix_or_keep(name.as_str(), fixed_extension.as_str());
            proof {
                assert(fixed_extension@ =~= seq!['.'] + extension@);
            }
            return Some((stem, Some(fixed_extension)));
        }
    }
    Some((name, None))
}

/// What the rename field edits for the item at `path`: its file name, less
/// a fixed `.md` extension for a note. `None` when the path has no file
/// name.
pub fn inline_rename_parts(path: &str, kind: InlineRenameKind) -> (r: Option<
    (String, Option<String>),
>)
    ensures
        parts_view(r) == rename_parts(file_name_of(path@), extension_of(path@), kind),
        r is None <==> file_name_of(path@) is None,
        r matches Some(parts) ==> Some(renamed_file_name(parts.0@, opt_view(parts.1)))
            == file_name_of(path@),
        r matches Some(parts) ==> (parts.1 is Some <==> (kind == InlineRenameKind::File
            && extension_of(path@) is Some && is_markdown_extension(extension_of(path@)->0))),
{
    let file_name = path_file_name(path);
    let extension = path_extension(path);
    let r = inline_rename_parts_from(file_name, extension, kind);
    proof {
        if let Some(name) = file_name_of(path@) {
            if let Some(e) = extension_of(path@) {
                if kind == InlineRenameKind::File && is_markdown_extension(e) {
                    let fixed = seq!['.'] + e;
                    assert(name =~= name.take(name.len() - fixed.len()) + fixed);
                }
            }
        }
    }
    r
}

/// A name a rename accepts: not empty, not `.` or `..`, and without a path
/// separator, so the item stays in its directory.
pub open spec fn valid_rename_name(s: Seq<char>) -> bool {
    &&& s.len() > 0
    &&& s != seq!['.']
    &&& s != seq!['.', '.']
    &&& !s.contains('/')
    &&& !s.contains('\\')
}

/// Whether a rename may use `name`.
pub fn valid_inline_rename_name(name: &str) -> (r: bool)
    ensures
        r == valid_rename_name(name@),
{
    let chars = chars_of(name);
    let n = chars.len();
    if n == 0 {
        return false;
    }
    if n == 1 && chars[0] == '.' {
        proof {
            assert(name@ =~= seq!['.']);
        }
        return false;
    }
    if n == 2 && chars[0] == '.' && chars[1] == '.' {
        proof {
            assert(name@ =~= seq!['.', '.']);
        }
        return false;
    }
    let mut i: usize = 0;
    while i < n
        invariant
            chars@ == name@,
            n == name@.len(),
            i <= n,
            forall|j: int| 0 <= j < i ==> chars@[j] != '/' && chars@[j] != '\\',
        decreases n - i,
    {
        if chars[i] == '/' || chars[i] == '\\' {
            return false;
        }
        i = i + 1;
    }
    proof {
        if name@ =~= seq!['.'] {
            assert(name@[0] == '.');
        }
        if name@ =~= seq!['.', '.'] {
            assert(name@[0] == '.' && name@[1] == '.');
        }
    }
    true
}

/// Where `path` lands when the folder `from` becomes `to`: `to` itself for
/// `from`, the same relative path under `to` for what lay inside `from`,
/// and `None` for a path outside `from`.
pub open spec fn rebased(path: Seq<char>, from: Seq<char>, to: Seq<char>) -> Option<Seq<char>> {
    match strip_prefix_of(path, from) {
        None => None,
        Some(relative) => Some(
            if relative.len() == 0 {
                to
            } else {
                join_of(to, relative)
            },
        ),
    }
}

/// `path` moved along with the folder `from` renamed to `to`, or `None`
/// when it does not lie in `from`.
pub fn rebase_ui_path(path: &str, from: &str, to: &str) -> (r: Option<String>)
    ensures
        opt_view(r) == rebased(path@, from@, to@),
{
    let relative = match path_strip_prefix(path, from) {
        Some(relative) => relative,
        None => return None,
    };
    if relative.as_str().is_empty() {
        Some(to.to_owned())
    } else {
        Some(path_join(to, relative.as_str()))
    }
}

/// The sidebar label for the work folder root: its own name, or the whole
/// path when it has none (a file system root).
pub fn work_folder_root_display_name(root: &str) -> (r: String)
    ensures
        r@ == match file_name_of(root@) {
            Some(name) => name,
            None => root@,
        },
{
    match path_file_name(root) {
        Some(name) => name,
        None => root.to_owned(),
    }
}

/// A note that a rename touches is the renamed note itself; for a folder,
/// everything at or under it.
pub open spec fn belongs_to_rename(path: Seq<char>, from: Seq<char>, kind: InlineRenameKind) -> bool {
    match kind {
        InlineRenameKind::File => same_path(path, from),
        InlineRenameKind::Folder => rebased(path, from, from) is Some,
    }
}

/// Whether a rename of `from` touches `path`.
pub fn path_belongs_to_rename(path: &str, from: &str, kind: InlineRenameKind) -> (r: bool)
    ensures
        r == belongs_to_rename(path@, from@, kind),
{
    match kind {
        InlineRenameKind::File => paths_equal(path, from),
        InlineRenameKind::Folder => rebase_ui_path(path, from, from).is_some(),
    }
}

/// Where a path the view remembers goes after `from` was renamed to
/// `target`: the note itself or anything in the folder follows it, every
/// other path stays as it was.
pub open spec fn followed_path(
    path: Seq<char>,
    from: Seq<char>,
    target: Seq<char>,
    kind: InlineRenameKind,
) -> Seq<char> {
    match kind {
        InlineRenameKind::File => if same_path(path, from) {
            target
        } else {
            path
        },
        InlineRenameKind::Folder => match rebased(path, from, target) {
            Some(moved) => moved,
            None => path,
        },
    }
}

/// `path` after `from` was renamed to `target`.
pub fn follow_inline_rename_path(path: &str, from: &str, target: &str, kind: InlineRenameKind) -> (r:
    String)
    ensures
        r@ == followed_path(path@, from@, target@, kind),
{
    match kind {
        InlineRenameKind::File => if paths_equal(path, from) {
            target.to_owned()
        } else {
            path.to_owned()
        },
        InlineRenameKind::Folder => match rebase_ui_path(path, from, target) {
            Some(moved) => moved,
            None => path.to_owned(),
        },
    }
}

/// Every path of `paths` after `from` was renamed to `target`, in order.
pub fn follow_inline_rename_paths(
    paths: &Vec<String>,
    from: &str,
    target: &str,
    kind: InlineRenameKind,
) -> (r: Vec<String>)
    ensures
        r.len() == paths.len(),
        forall|i: int|
            0 <= i < paths.len() ==> #[trigger] r[i]@ == followed_path(
                paths[i]@,
                from@,
                target@,
                kind,
            ),
{
    let mut r: Vec<String> = Vec::new();
    let mut i: usize = 0;
    while i < paths.len()
        invariant
            i <= paths.len(),
            r.len() == i,
            forall|j: int|
                0 <= j < i ==> #[trigger] r[j]@ == followed_path(paths[j]@, from@, target@, kind),
        decreases paths.len() - i,
    {
        r.push(follow_inline_rename_path(paths[i].as_str(), from, target, kind));
        i = i + 1;
    }
    r
}

/// What Enter in the rename field leads to.
pub enum RenameDecision {
    /// The rename is already on its way; nothing to do.
    Pending,
    /// The name is empty, `.`, `..` or holds a path separator.
    InvalidName,
    /// Something else is working on the item; try again later.
    Deferred,
    /// The item has no parent directory to rename it in.
    NoParent,
    /// The new path is the old one: close the field without renaming.
    Unchanged,
    /// Rename the item to this path.
    Rename(String),
}

/// The file name a rename gives: the edited text followed by the fixed
/// extension, if any.
pub open spec fn renamed_file_name(text: Seq<char>, fixed_extension: Option<Seq<char>>) -> Seq<
    char,
> {
    match fixed_extension {
        Some(extension) => text + extension,
        None => text,
    }
}

/// Decides what confirming the rename does, given whether another operation
/// on the item is in progress (`busy`), tested in this order:
/// pending, then the name, then `busy`, then the parent directory, then
/// whether the path changes at all.
pub fn decide_inline_rename(rename: &InlineRename, busy: bool) -> (r: RenameDecision)
    ensures
        rename.pending ==> r is Pending,
        !rename.pending && !valid_rename_name(rename.text@) ==> r is InvalidName,
        !rename.pending && valid_rename_name(rename.text@) && busy ==> r is Deferred,
        !rename.pending && valid_rename_name(rename.text@) && !busy ==> match parent_of(
            rename.from@,
        ) {
            None => r is NoParent,
            Some(parent) => {
                let target = join_of(
                    parent,
                    renamed_file_name(rename.text@, opt_view(rename.fixed_extension)),
                );
                &&& same_path(target, rename.from@) ==> r is Unchanged
                &&& !same_path(target, rename.from@) ==> (r matches RenameDecision::Rename(t)
                    && t@ == target)
            },
        },
{
    if rename.pending {
        return RenameDecision::Pending;
    }
    if !valid_inline_rename_name(rename.text.as_str()) {
        return RenameDecision::InvalidName;
    }
    if busy {
        return RenameDecision::Deferred;
    }
    let parent = match path_parent(rename.from.as_str()) {
        Some(parent) => parent,
        None => return RenameDecision::NoParent,
    };
    let mut file_name = rename.text.clone();
    match &rename.fixed_extension {
        Some(extension) => file_name.append(extension.as_str()),
        None => {},
    }
    let target = path_join(parent.as_str(), file_name.as_str());
    if paths_equal(target.as_str(), rename.from.as_str()) {
        RenameDecision::Unchanged
    } else {
        RenameDecision::Rename(target)
    }
}

/// A note's editable text and its fixed extension put back together give
/// its file name whenever the name ends with that extension, so a rename
/// that leaves the text alone renames nothing.
pub proof fn law_rename_parts_rejoin_to_the_file_name(
    name: Seq<char>,
    extension: Option<Seq<char>>,
    kind: InlineRenameKind,
)
    requires
        rename_parts(Some(name), extension, kind) is Some,
    ensures
        ({
            let (text, fixed) = rename_parts(Some(name), extension, kind)->0;
            fixed matches Some(x) && x.len() <= name.len() && name.skip(name.len() - x.len()) == x
                ==> renamed_file_name(text, fixed) == name
        }),
        ({
            let (text, fixed) = rename_parts(Some(name), extension, kind)->0;
            fixed is None ==> renamed_file_name(text, fixed) == name
        }),
{
    let (text, fixed) = rename_parts(Some(name), extension, kind)->0;
    if fixed is Some {
        let x = fixed->0;
        if x.len() <= name.len() && name.skip(name.len() - x.len()) == x {
            assert(name =~= name.take(name.len() - x.len()) + name.skip(name.len() - x.len()));
        }
    }
}

/// The status line while a rename is refused for an invalid name.
pub open spec fn invalid_name_status() -> Seq<char> {
    "Rename failed: invalid file or folder name"@
}

/// The status line while other work on the item defers a rename.
pub open spec fn busy_status() -> Seq<char> {
    "Rename deferred while another operation is in progress"@
}

/// The status line when the item has no parent directory.
pub open spec fn no_parent_status() -> Seq<char> {
    "Rename failed: item has no parent directory"@
}

/// The status line while a save of a document inside the item defers a
/// rename.
pub open spec fn save_in_progress_status() -> Seq<char> {
    "Rename deferred while a save is in progress"@
}

/// The status line while the rename is on its way to the file system.
pub open spec fn renaming_status() -> Seq<char> {
    "Renaming\u{2026}"@
}

/// The status line when something asks the field to close while its rename
/// is on its way.
pub open spec fn in_progress_status() -> Seq<char> {
    "Rename in progress"@
}

/// The status line when the item's name cannot be edited as text.
pub open spec fn unnamed_status() -> Seq<char> {
    "Rename failed: file or folder name is not valid UTF-8"@
}

/// The status line after a rename landed.
pub open spec fn renamed_status() -> Seq<char> {
    "Renamed"@
}

/// The status line a confirmation decision sets, if any: `Rename` sets the
/// "renaming" line only once the documents inside the item are reserved.
pub open spec fn decision_status(decision: RenameDecision) -> Option<Seq<char>> {
    match decision {
        RenameDecision::Pending => None,
        RenameDecision::InvalidName => Some(invalid_name_status()),
        RenameDecision::Deferred => Some(busy_status()),
        RenameDecision::NoParent => Some(no_parent_status()),
        RenameDecision::Unchanged => None,
        RenameDecision::Rename(_) => Some(renaming_status()),
    }
}

/// The status line for a confirmation decision.
pub fn rename_status_message(decision: &RenameDecision) -> (r: Option<String>)
    ensures
        opt_view(r) == decision_status(*decision),
{
    match decision {
        RenameDecision::Pending => None,
        RenameDecision::InvalidName => Some(
            "Rename failed: invalid file or folder name".to_owned(),
        ),
        RenameDecision::Deferred => Some(
            "Rename deferred while another operation is in progress".to_owned(),
        ),
        RenameDecision::NoParent => Some("Rename failed: item has no parent directory".to_owned()),
        RenameDecision::Unchanged => None,
        RenameDecision::Rename(_) => Some("Renaming\u{2026}".to_owned()),
    }
}

/// A rename handed to the file system: a note is renamed with the file
/// service's file rename, a folder with its folder rename.
pub struct RenameJob {
    pub kind: InlineRenameKind,
    pub from: String,
    pub target: String,
}

/// What confirming the rename field does.
pub enum ConfirmAction {
    /// Nothing: no field, or its rename is already on its way.
    Nothing,
    /// The rename is refused or deferred; the status line says why.
    Refused,
    /// The name is unchanged; the field is closed.
    Closed,
    /// The field is marked pending and this one rename starts.
    Start(RenameJob),
}

/// Carries out a confirmation `decision` (from `decide_inline_rename` on the
/// open field) once the view has tried to reserve the documents inside the
/// item (`tickets_reserved`): a refusal sets its status line and leaves the
/// field as it is; an unchanged name closes the field; a rename marks the
/// field pending and starts exactly one rename of its item to the target,
/// unless a save holds a document, which defers it.
pub fn confirm_inline_rename_step(
    slot: &mut Option<InlineRename>,
    status: &mut Option<String>,
    decision: &RenameDecision,
    tickets_reserved: bool,
) -> (r: ConfirmAction)
    ensures
        *old(slot) is None ==> r is Nothing && *final(slot) == *old(slot) && *final(status)
            == *old(status),
        *old(slot) is Some ==> match *decision {
            RenameDecision::Pending => r is Nothing && *final(slot) == *old(slot) && *final(status)
                == *old(status),
            RenameDecision::InvalidName => r is Refused && *final(slot) == *old(slot) && opt_view(
                *final(status),
            ) == Some(invalid_name_status()),
            RenameDecision::Deferred => r is Refused && *final(slot) == *old(slot) && opt_view(
                *final(status),
            ) == Some(busy_status()),
            RenameDecision::NoParent => r is Refused && *final(slot) == *old(slot) && opt_view(
                *final(status),
            ) == Some(no_parent_status()),
            RenameDecision::Unchanged => r is Closed && *final(slot) is None && *final(status)
                == *old(status),
            RenameDecision::Rename(target) => if tickets_reserved {
                &&& r matches ConfirmAction::Start(job) && job.kind == old(slot)->0.kind
                    && job.from@ == old(slot)->0.from@ && job.target@ == target@
                &&& *final(slot) matches Some(rename) && rename.pending && rename.field()
                    == old(slot)->0.field() && rename.kind == old(slot)->0.kind && rename.from
                    == old(slot)->0.from && rename.fixed_extension == old(slot)->0.fixed_extension
                &&& opt_view(*final(status)) == Some(renaming_status())
            } else {
                &&& r is Refused
                &&& *final(slot) == *old(slot)
                &&& opt_view(*final(status)) == Some(save_in_progress_status())
            },
        },
{
    let rename = match slot {
        Some(rename) => rename,
        None => return ConfirmAction::Nothing,
    };
    match decision {
        RenameDecision::Pending => ConfirmAction::Nothing,
        RenameDecision::InvalidName => {
            *status = Some("Rename failed: invalid file or folder name".to_owned());
            ConfirmAction::Refused
        },
        RenameDecision::Deferred => {
            *status = Some("Rename deferred while another operation is in progress".to_owned());
            ConfirmAction::Refused
        },
        RenameDecision::NoParent => {
            *status = Some("Rename failed: item has no parent directory".to_owned());
            ConfirmAction::Refused
        },
        RenameDecision::Unchanged => {
            *slot = None;
            ConfirmAction::Closed
        },
        RenameDecision::Rename(target) => {
            if !tickets_reserved {
                *status = Some("Rename deferred while a save is in progress".to_owned());
                return ConfirmAction::Refused;
            }
            let job = RenameJob { kind: rename.kind, from: rename.from.clone(), target: target.clone() };
            rename.pending = true;
            *status = Some("Renaming\u{2026}".to_owned());
            ConfirmAction::Start(job)
        },
    }
}

/// The status line after a rename failed with the error text `error`.
pub open spec fn rename_failed_status(error: Seq<char>) -> Seq<char> {
    "Rename failed: "@ + error
}

/// The status line after a rename landed but the recent-files list could
/// not be stored, with the error text `error`.
pub open spec fn recent_files_failed_status(error: Seq<char>) -> Seq<char> {
    "Recent files failed: "@ + error
}

/// `prefix` followed by `text`, as a new string.
fn prefixed(prefix: &str, text: &str) -> (r: String)
    ensures
        r@ == prefix@ + text@,
{
    let mut r = prefix.to_owned();
    r.append(text);
    r
}

/// When the file system answers a started rename (`rename`, with the
/// error's text on failure), and, after a success, how storing the
/// recent-files list went (`recent_files`). On success the field closes and
/// the status says "Renamed", or that the recent files could not be stored.
/// On failure the field stays open, editable again, everything else as it
/// was, and the status says why the rename failed.
pub fn finish_inline_rename_field(
    slot: &mut Option<InlineRename>,
    status: &mut Option<String>,
    rename: Result<(), String>,
    recent_files: Result<(), String>,
)
    ensures
        rename is Ok ==> *final(slot) is None && opt_view(*final(status)) == Some(
            match recent_files {
                Ok(_) => renamed_status(),
                Err(e) => recent_files_failed_status(e@),
            },
        ),
        rename matches Err(e) ==> opt_view(*final(status)) == Some(rename_failed_status(e@)),
        rename is Err ==> match *old(slot) {
            None => *final(slot) is None,
            Some(before) => *final(slot) matches Some(after) && !after.pending && after.field()
                == before.field() && after.kind == before.kind && after.from == before.from
                && after.fixed_extension == before.fixed_extension,
        },
{
    match rename {
        Ok(()) => {
            *slot = None;
            *status = Some(
                match recent_files {
                    Ok(()) => "Renamed".to_owned(),
                    Err(error) => prefixed("Recent files failed: ", error.as_str()),
                },
            );
        },
        Err(error) => {
            if let Some(open) = slot {
                open.pending = false;
            }
            *status = Some(prefixed("Rename failed: ", error.as_str()));
        },
    }
}

/// A rename waits while a path it would move is still loading: the note
/// itself, or anything at or under a renamed folder.
pub open spec fn blocked_by_loading(
    loading_paths: Seq<String>,
    from: Seq<char>,
    kind: InlineRenameKind,
) -> bool {
    exists|i: int| 0 <= i < loading_paths.len() && belongs_to_rename(#[trigger] loading_paths[i]@, from, kind)
}

/// Whether a path that a rename of `from` would move is still loading.
pub fn rename_blocked_by_loading(loading_paths: &Vec<String>, from: &str, kind: InlineRenameKind) -> (r:
    bool)
    ensures
        r == blocked_by_loading(loading_paths@, from@, kind),
{
    let mut i: usize = 0;
    while i < loading_paths.len()
        invariant
            i <= loading_paths.len(),
            forall|j: int| 0 <= j < i ==> !belongs_to_rename(#[trigger] loading_paths@[j]@, from@, kind),
        decreases loading_paths.len() - i,
    {
        if path_belongs_to_rename(loading_paths[i].as_str(), from, kind) {
            proof {
                assert(belongs_to_rename(loading_paths@[i as int]@, from@, kind));
            }
            return true;
        }
        i = i + 1;
    }
    false
}

/// What a request to start renaming an item led to.
pub enum BeginRename {
    /// A rename is already open, or the item is not in the work folder.
    Ignored,
    /// Something else is working on the item; try again later.
    Deferred,
    /// The item's path has no file name to edit.
    NoName,
    /// The rename field is open on the item.
    Started,
}

/// Opens the rename field on the item at `path` when no rename is open, the
/// item is listed in the work folder (`listed`) and nothing else is working
/// on it (`busy`): the field edits its name (a note's without the `.md`
/// extension), all of it selected. A deferral or a nameless item sets the
/// status line.
pub fn begin_inline_rename(
    slot: &mut Option<InlineRename>,
    status: &mut Option<String>,
    path: String,
    kind: InlineRenameKind,
    listed: bool,
    busy: bool,
) -> (r: BeginRename)
    ensures
        *old(slot) is Some || !listed ==> r is Ignored,
        *old(slot) is None && listed && busy ==> r is Deferred,
        *old(slot) is None && listed && !busy && rename_parts(
            file_name_of(path@),
            extension_of(path@),
            kind,
        ) is None ==> r is NoName,
        !(r is Started) ==> *final(slot) == *old(slot),
        r is Ignored || r is Started ==> *final(status) == *old(status),
        r is Deferred ==> opt_view(*final(status)) == Some(busy_status()),
        r is NoName ==> opt_view(*final(status)) == Some(unnamed_status()),
        r is Started ==> ({
            let (text, fixed) = rename_parts(file_name_of(path@), extension_of(path@), kind)->0;
            &&& *old(slot) is None && listed && !busy
            &&& *final(slot) matches Some(rename) && rename.kind == kind && rename.from@ == path@
                && rename.text@ == text && opt_view(rename.fixed_extension) == fixed
                && rename.selected_range.start == 0 && rename.selected_range.end
                == crate::utf::utf8_len(text) && !rename.selection_reversed
                && rename.marked_range is None && rename.composition is None && !rename.pending
                && rename.wf()
        }),
        *old(slot) is None && listed && !busy && rename_parts(
            file_name_of(path@),
            extension_of(path@),
            kind,
        ) is Some ==> r is Started,
{
    if slot.is_some() || !listed {
        return BeginRename::Ignored;
    }
    if busy {
        *status = Some("Rename deferred while another operation is in progress".to_owned());
        return BeginRename::Deferred;
    }
    match inline_rename_parts(path.as_str(), kind) {
        Some((text, fixed_extension)) => {
            *slot = Some(InlineRename::new(kind, path, text, fixed_extension));
            BeginRename::Started
        },
        None => {
            *status = Some("Rename failed: file or folder name is not valid UTF-8".to_owned());
            BeginRename::NoName
        },
    }
}

/// Closes an open rename field unless its rename is already on its way, and
/// reports whether whatever asked for the field to close may go ahead. A
/// pending rename cannot be cancelled safely: the status line says so and
/// the caller must stop.
pub fn cancel_inline_rename(slot: &mut Option<InlineRename>, status: &mut Option<String>) -> (may_proceed: bool)
    ensures
        may_proceed == !(*old(slot) matches Some(rename) && rename.pending),
        may_proceed ==> *final(slot) is None && *final(status) == *old(status),
        !may_proceed ==> *final(slot) == *old(slot) && opt_view(*final(status)) == Some(
            in_progress_status(),
        ),
{
    let pending = match slot {
        Some(rename) => rename.pending,
        None => return true,
    };
    if pending {
        *status = Some("Rename in progress".to_owned());
        return false;
    }
    *slot = None;
    true
}

/// Paths the view remembers that may have to follow a rename. The expanded
/// folders, the folders being created and the paths being loaded are sets:
/// a rename keeps each of them free of the same path twice.
pub struct RememberedPaths {
    pub selected_folder: Option<String>,
    pub expanded_folders: Vec<String>,
    pub pending_new_folders: Vec<String>,
    pub draft_directories: Vec<String>,
    pub loading_paths: Vec<String>,
    pub latest_open_target: Option<String>,
}

/// An optional path after a rename.
pub open spec fn followed_opt(
    path: Option<String>,
    from: Seq<char>,
    target: Seq<char>,
    kind: InlineRenameKind,
) -> Option<Seq<char>> {
    match path {
        Some(p) => Some(followed_path(p@, from, target, kind)),
        None => None,
    }
}

/// Every path of `after` is the path of `before` at the same place after
/// the rename.
pub open spec fn all_followed(
    before: Seq<String>,
    after: Seq<String>,
    from: Seq<char>,
    target: Seq<char>,
    kind: InlineRenameKind,
) -> bool {
    &&& after.len() == before.len()
    &&& forall|i: int|
        0 <= i < before.len() ==> #[trigger] after[i]@ == followed_path(before[i]@, from, target, kind)
}

/// Two lists of paths hold the same text.
pub open spec fn same_paths(a: Seq<String>, b: Seq<String>) -> bool {
    &&& a.len() == b.len()
    &&& forall|i: int| 0 <= i < a.len() ==> #[trigger] a[i]@ == b[i]@
}

fn follow_opt(path: &Option<String>, from: &str, target: &str, kind: InlineRenameKind) -> (r: Option<
    String,
>)
    ensures
        opt_view(r) == followed_opt(*path, from@, target@, kind),
{
    match path {
        Some(p) => Some(follow_inline_rename_path(p.as_str(), from, target, kind)),
        None => None,
    }
}

fn copy_paths(paths: &Vec<String>) -> (r: Vec<String>)
    ensures
        same_paths(r@, paths@),
{
    let mut r: Vec<String> = Vec::new();
    let mut i: usize = 0;
    while i < paths.len()
        invariant
            i <= paths.len(),
            r.len() == i,
            forall|j: int| 0 <= j < i ==> #[trigger] r@[j]@ == paths@[j]@,
        decreases paths.len() - i,
    {
        r.push(paths[i].clone());
        i = i + 1;
    }
    r
}

/// The paths of a list, as text.
pub open spec fn texts_of(paths: Seq<String>) -> Seq<Seq<char>> {
    paths.map_values(|p: String| p@)
}

/// The paths of a list after a rename, as text.
pub open spec fn followed_texts(
    paths: Seq<String>,
    from: Seq<char>,
    target: Seq<char>,
    kind: InlineRenameKind,
) -> Seq<Seq<char>> {
    paths.map_values(|p: String| followed_path(p@, from, target, kind))
}

/// No two paths of `s` are the same path, as a set of paths holds them.
pub open spec fn distinct_paths(s: Seq<Seq<char>>) -> bool {
    forall|i: int, j: int| 0 <= i < j < s.len() ==> !same_path(#[trigger] s[i], #[trigger] s[j])
}

/// `s` as a set of paths collects it: each path kept unless the same path
/// was already kept, in order.
pub open spec fn set_of_paths(s: Seq<Seq<char>>) -> Seq<Seq<char>>
    decreases s.len(),
{
    if s.len() == 0 {
        s
    } else {
        let kept = set_of_paths(s.drop_last());
        if exists|k: int| 0 <= k < kept.len() && same_path(#[trigger] kept[k], s.last()) {
            kept
        } else {
            kept.push(s.last())
        }
    }
}

/// A set of paths holds no path twice.
proof fn lemma_set_of_paths_distinct(s: Seq<Seq<char>>)
    ensures
        distinct_paths(set_of_paths(s)),
    decreases s.len(),
{
    if s.len() > 0 {
        lemma_set_of_paths_distinct(s.drop_last());
    }
}

/// A set of paths after `from` was renamed to `target`: each path followed,
/// and paths that now coincide kept once.
pub fn follow_path_set(paths: &Vec<String>, from: &str, target: &str, kind: InlineRenameKind) -> (r:
    Vec<String>)
    ensures
        texts_of(r@) == set_of_paths(followed_texts(paths@, from@, target@, kind)),
        distinct_paths(texts_of(r@)),
{
    let mut r: Vec<String> = Vec::new();
    let mut i: usize = 0;
    proof {
        assert(followed_texts(paths@.take(0), from@, target@, kind) =~= Seq::<Seq<char>>::empty());
        assert(texts_of(r@) =~= Seq::<Seq<char>>::empty());
    }
    while i < paths.len()
        invariant
            i <= paths.len(),
            texts_of(r@) == set_of_paths(followed_texts(paths@.take(i as int), from@, target@, kind)),
        decreases paths.len() - i,
    {
        let moved = follow_inline_rename_path(paths[i].as_str(), from, target, kind);
        let ghost prefix = followed_texts(paths@.take(i + 1), from@, target@, kind);
        proof {
            assert(prefix.drop_last() =~= followed_texts(paths@.take(i as int), from@, target@, kind));
            assert(prefix.last() == moved@);
        }
        let mut k: usize = 0;
        let mut seen = false;
        while k < r.len()
            invariant
                k <= r.len(),
                seen == exists|j: int| 0 <= j < k && same_path(#[trigger] texts_of(r@)[j], moved@),
            decreases r.len() - k,
        {
            if paths_equal(r[k].as_str(), moved.as_str()) {
                proof {
                    assert(texts_of(r@)[k as int] == r@[k as int]@);
                }
                seen = true;
            }
            k = k + 1;
        }
        if !seen {
            let ghost before = r@;
            r.push(moved);
            proof {
                assert(texts_of(r@) =~= texts_of(before).push(moved@));
            }
        }
        i = i + 1;
    }
    proof {
        assert(paths@.take(paths@.len() as int) =~= paths@);
        lemma_set_of_paths_distinct(followed_texts(paths@, from@, target@, kind));
    }
    r
}

impl RememberedPaths {
    /// The remembered paths after `from` was renamed to `target`: a folder
    /// rename moves the selected, expanded and new folders and the drafts'
    /// directories that lay in it; any rename moves the paths being loaded
    /// and the latest open target.
    pub fn followed(&self, from: &str, target: &str, kind: InlineRenameKind) -> (r: Self)
        ensures
            kind == InlineRenameKind::Folder ==> {
                &&& opt_view(r.selected_folder) == followed_opt(
                    self.selected_folder,
                    from@,
                    target@,
                    kind,
                )
                &&& texts_of(r.expanded_folders@) == set_of_paths(
                    followed_texts(self.expanded_folders@, from@, target@, kind),
                )
                &&& texts_of(r.pending_new_folders@) == set_of_paths(
                    followed_texts(self.pending_new_folders@, from@, target@, kind),
                )
                &&& all_followed(
                    self.draft_directories@,
                    r.draft_directories@,
                    from@,
                    target@,
                    kind,
                )
                &&& distinct_paths(texts_of(r.expanded_folders@))
                &&& distinct_paths(texts_of(r.pending_new_folders@))
            },
            kind == InlineRenameKind::File ==> {
                &&& opt_view(r.selected_folder) == opt_view(self.selected_folder)
                &&& same_paths(r.expanded_folders@, self.expanded_folders@)
                &&& same_paths(r.pending_new_folders@, self.pending_new_folders@)
                &&& same_paths(r.draft_directories@, self.draft_directories@)
            },
            texts_of(r.loading_paths@) == set_of_paths(
                followed_texts(self.loading_paths@, from@, target@, kind),
            ),
            distinct_paths(texts_of(r.loading_paths@)),
            opt_view(r.latest_open_target) == followed_opt(
                self.latest_open_target,
                from@,
                target@,
                kind,
            ),
    {
        let loading_paths = follow_path_set(&self.loading_paths, from, target, kind);
        let latest_open_target = follow_opt(&self.latest_open_target, from, target, kind);
        match kind {
            InlineRenameKind::Folder => RememberedPaths {
                selected_folder: follow_opt(&self.selected_folder, from, target, kind),
                expanded_folders: follow_path_set(&self.expanded_folders, from, target, kind),
                pending_new_folders: follow_path_set(&self.pending_new_folders, from, target, kind),
                draft_directories: follow_inline_rename_paths(
                    &self.draft_directories,
                    from,
                    target,
                    kind,
                ),
                loading_paths,
                latest_open_target,
            },
            InlineRenameKind::File => RememberedPaths {
                selected_folder: match &self.selected_folder {
                    Some(p) => Some(p.clone()),
                    None => None,
                },
                expanded_folders: copy_paths(&self.expanded_folders),
                pending_new_folders: copy_paths(&self.pending_new_folders),
                draft_directories: copy_paths(&self.draft_directories),
                loading_paths,
                latest_open_target,
            },
        }
    }
}

/// An open document as a rename sees it: its path, if saved, and whether a
/// save or title sync of it is under way.
pub struct SessionActivity {
    pub path: Option<String>,
    pub busy: bool,
}

/// A draft waiting to become a note: the directory it will be created in
/// and whether its title sync is under way.
pub struct DraftActivity {
    pub target_directory: String,
    pub busy: bool,
}

/// Whether other work touches what a rename of `from` would move: for a
/// folder, a folder being created inside it or a busy draft headed there;
/// for either kind, a busy open document at or under it.
pub open spec fn background_conflict(
    from: Seq<char>,
    kind: InlineRenameKind,
    pending_new_folders: Seq<String>,
    sessions: Seq<SessionActivity>,
    drafts: Seq<DraftActivity>,
) -> bool {
    ||| kind == InlineRenameKind::Folder && exists|i: int|
        0 <= i < pending_new_folders.len() && belongs_to_rename(
            #[trigger] pending_new_folders[i]@,
            from,
            kind,
        )
    ||| exists|i: int|
        0 <= i < sessions.len() && (#[trigger] sessions[i]).busy && (sessions[i].path matches Some(
            p,
        ) && belongs_to_rename(p@, from, kind))
    ||| kind == InlineRenameKind::Folder && exists|i: int|
        0 <= i < drafts.len() && (#[trigger] drafts[i]).busy && belongs_to_rename(
            drafts[i].target_directory@,
            from,
            kind,
        )
}

/// Whether a rename of `from` has to wait for other work on what it moves.
pub fn rename_has_background_conflict(
    from: &str,
    kind: InlineRenameKind,
    pending_new_folders: &Vec<String>,
    sessions: &Vec<SessionActivity>,
    drafts: &Vec<DraftActivity>,
) -> (r: bool)
    ensures
        r == background_conflict(from@, kind, pending_new_folders@, sessions@, drafts@),
{
    if kind == InlineRenameKind::Folder {
        let mut i: usize = 0;
        while i < pending_new_folders.len()
            invariant
                i <= pending_new_folders.len(),
                kind == InlineRenameKind::Folder,
                forall|j: int|
                    0 <= j < i ==> !belongs_to_rename(
                        #[trigger] pending_new_folders@[j]@,
                        from@,
                        kind,
                    ),
            decreases pending_new_folders.len() - i,
        {
            if path_belongs_to_rename(pending_new_folders[i].as_str(), from, kind) {
                proof {
                    assert(belongs_to_rename(pending_new_folders@[i as int]@, from@, kind));
                }
                return true;
            }
            i = i + 1;
        }
    }
    let mut i: usize = 0;
    while i < sessions.len()
        invariant
            i <= sessions.len(),
            forall|j: int|
                0 <= j < i ==> !((#[trigger] sessions@[j]).busy && (sessions@[j].path matches Some(
                    p,
                ) && belongs_to_rename(p@, from@, kind))),
        decreases sessions.len() - i,
    {
        let session = &sessions[i];
        if session.busy {
            if let Some(path) = &session.path {
                if path_belongs_to_rename(path.as_str(), from, kind) {
                    return true;
                }
            }
        }
        i = i + 1;
    }
    if kind == InlineRenameKind::Folder {
        let mut i: usize = 0;
        while i < drafts.len()
            invariant
                i <= drafts.len(),
                kind == InlineRenameKind::Folder,
                forall|j: int|
                    0 <= j < i ==> !((#[trigger] drafts@[j]).busy && belongs_to_rename(
                        drafts@[j].target_directory@,
                        from@,
                        kind,
                    )),
            decreases drafts.len() - i,
        {
            let draft = &drafts[i];
            if draft.busy && path_belongs_to_rename(draft.target_directory.as_str(), from, kind) {
                proof {
                    assert(drafts@[i as int].busy);
                }
                return true;
            }
            i = i + 1;
        }
    }
    false
}

/// The session at `i` is a saved document that a rename of `from` moves.
pub open spec fn session_moves(
    sessions: Seq<SessionActivity>,
    i: int,
    from: Seq<char>,
    kind: InlineRenameKind,
) -> bool {
    sessions[i].path matches Some(p) && belongs_to_rename(p@, from, kind)
}

/// Indices, from `i` on and in order, of the sessions a rename of `from`
/// moves.
pub open spec fn moved_sessions(
    sessions: Seq<SessionActivity>,
    i: int,
    from: Seq<char>,
    kind: InlineRenameKind,
) -> Seq<int>
    decreases sessions.len() - i,
{
    if i < 0 || i >= sessions.len() {
        Seq::empty()
    } else if session_moves(sessions, i, from, kind) {
        seq![i] + moved_sessions(sessions, i + 1, from, kind)
    } else {
        moved_sessions(sessions, i + 1, from, kind)
    }
}

/// The open documents whose save tickets a rename of `from` must reserve,
/// in order, with `busy` meaning a save of the document is in flight. When
/// any of them is being saved, none is reserved (`None`) and the rename
/// waits.
pub fn rename_ticket_sessions(
    sessions: &Vec<SessionActivity>,
    from: &str,
    kind: InlineRenameKind,
) -> (r: Option<Vec<usize>>)
    ensures
        r is None <==> exists|i: int|
            0 <= i < sessions@.len() && session_moves(sessions@, i, from@, kind)
                && #[trigger] sessions@[i].busy,
        r matches Some(ids) ==> ids@.map_values(|i: usize| i as int) == moved_sessions(
            sessions@,
            0,
            from@,
            kind,
        ),
{
    let mut ids: Vec<usize> = Vec::new();
    let mut saving = false;
    let mut i: usize = 0;
    while i < sessions.len()
        invariant
            i <= sessions.len(),
            saving == exists|j: int|
                0 <= j < i && session_moves(sessions@, j, from@, kind) && #[trigger] sessions@[j].busy,
            ids@.map_values(|k: usize| k as int) + moved_sessions(sessions@, i as int, from@, kind)
                == moved_sessions(sessions@, 0, from@, kind),
        decreases sessions.len() - i,
    {
        let moves = match &sessions[i].path {
            Some(path) => path_belongs_to_rename(path.as_str(), from, kind),
            None => false,
        };
        if moves {
            let ghost before = ids@;
            ids.push(i);
            proof {
                assert(ids@.map_values(|k: usize| k as int) =~= before.map_values(|k: usize| k as int)
                    + seq![i as int]);
                assert(seq![i as int] + moved_sessions(sessions@, i + 1, from@, kind) =~= moved_sessions(
                    sessions@,
                    i as int,
                    from@,
                    kind,
                ));
            }
            if sessions[i].busy {
                saving = true;
            }
        }
        i = i + 1;
    }
    proof {
        assert(moved_sessions(sessions@, i as int, from@, kind) =~= Seq::<int>::empty());
        assert(ids@.map_values(|k: usize| k as int) + Seq::<int>::empty() =~= ids@.map_values(
            |k: usize| k as int,
        ));
    }
    if saving {
        None
    } else {
        Some(ids)
    }
}

/// Whether confirming a rename of `from` must wait: a path it moves is still
/// loading, or other work touches what it moves.
pub fn confirm_rename_busy(
    loading_paths: &Vec<String>,
    from: &str,
    kind: InlineRenameKind,
    pending_new_folders: &Vec<String>,
    sessions: &Vec<SessionActivity>,
    drafts: &Vec<DraftActivity>,
) -> (r: bool)
    ensures
        r == (blocked_by_loading(loading_paths@, from@, kind) || background_conflict(
            from@,
            kind,
            pending_new_folders@,
            sessions@,
            drafts@,
        )),
{
    rename_blocked_by_loading(loading_paths, from, kind) || rename_has_background_conflict(
        from,
        kind,
        pending_new_folders,
        sessions,
        drafts,
    )
}

/// What a timed title sync of a document does first.
pub enum TitleSyncStart {
    /// A rename is on its way: remember the document and sync it after.
    Defer,
    /// Nothing to do now: a sync of it is running (the next edit re-arms the
    /// timer), there is no work folder or no such document, or a later edit
    /// or a replaced document superseded this one.
    Skip,
    /// Go on and compare the document's H1 with its file name.
    Proceed,
}

/// How a title sync starts: a pending rename first, then whether
/// the sync can and should run at all.
pub fn title_sync_start(
    rename_pending: bool,
    sync_in_flight: bool,
    has_work_folder: bool,
    session_open: bool,
    generation_matches: bool,
    revision_matches: bool,
) -> (r: TitleSyncStart)
    ensures
        rename_pending ==> r is Defer,
        !rename_pending && (sync_in_flight || !has_work_folder || !session_open
            || !generation_matches || !revision_matches) ==> r is Skip,
        !rename_pending && !sync_in_flight && has_work_folder && session_open && generation_matches
            && revision_matches ==> r is Proceed,
{
    if rename_pending {
        TitleSyncStart::Defer
    } else if sync_in_flight || !has_work_folder || !session_open || !generation_matches
        || !revision_matches {
        TitleSyncStart::Skip
    } else {
        TitleSyncStart::Proceed
    }
}

/// The name `candidate` for a new folder in `target_directory` is taken: a
/// sibling folder has that name, or a folder of that path is being created.
pub open spec fn folder_name_taken(
    sibling_folder_names: Seq<String>,
    pending_new_folders: Seq<String>,
    target_directory: Seq<char>,
    candidate: Seq<char>,
) -> bool {
    ||| exists|i: int| 0 <= i < sibling_folder_names.len() && #[trigger] sibling_folder_names[i]@ == candidate
    ||| exists|i: int|
        0 <= i < pending_new_folders.len() && same_path(
            #[trigger] pending_new_folders[i]@,
            join_of(target_directory, candidate),
        )
}

/// Whether `candidate` is taken as the name of a new folder.
pub fn new_folder_name_taken(
    sibling_folder_names: &Vec<String>,
    pending_new_folders: &Vec<String>,
    target_directory: &str,
    candidate: &str,
) -> (r: bool)
    ensures
        r == folder_name_taken(
            sibling_folder_names@,
            pending_new_folders@,
            target_directory@,
            candidate@,
        ),
{
    let mut i: usize = 0;
    while i < sibling_folder_names.len()
        invariant
            i <= sibling_folder_names.len(),
            forall|j: int| 0 <= j < i ==> #[trigger] sibling_folder_names@[j]@ != candidate@,
        decreases sibling_folder_names.len() - i,
    {
        if sibling_folder_names[i] == candidate.to_owned() {
            proof {
                assert(sibling_folder_names@[i as int]@ == candidate@);
            }
            return true;
        }
        i = i + 1;
    }
    let path = path_join(target_directory, candidate);
    let mut k: usize = 0;
    while k < pending_new_folders.len()
        invariant
            k <= pending_new_folders.len(),
            path@ == join_of(target_directory@, candidate@),
            forall|j: int| 0 <= j < sibling_folder_names@.len() ==> #[trigger] sibling_folder_names@[j]@ != candidate@,
            forall|j: int| 0 <= j < k ==> !same_path(#[trigger] pending_new_folders@[j]@, path@),
        decreases pending_new_folders.len() - k,
    {
        if paths_equal(pending_new_folders[k].as_str(), path.as_str()) {
            proof {
                assert(same_path(pending_new_folders@[k as int]@, path@));
            }
            return true;
        }
        k = k + 1;
    }
    false
}

/// A rename accepts every name that is not empty, is neither `.` nor `..`
/// and holds no `/` or `\`, however long, and refuses every other one.
pub proof fn law_names_refused_only_for_escaping_their_directory(s: Seq<char>)
    ensures
        valid_rename_name(s) <==> (s.len() > 0 && !(s.len() == 1 && s[0] == '.') && !(s.len() == 2
            && s[0] == '.' && s[1] == '.') && forall|i: int|
            0 <= i < s.len() ==> #[trigger] s[i] != '/' && s[i] != '\\'),
{
    if s.len() == 1 && s[0] == '.' {
        assert(s =~= seq!['.']);
    }
    if s.len() == 2 && s[0] == '.' && s[1] == '.' {
        assert(s =~= seq!['.', '.']);
    }
    if s =~= seq!['.'] {
        assert(s[0] == '.');
    }
    if s =~= seq!['.', '.'] {
        assert(s[0] == '.' && s[1] == '.');
    }
    if s.contains('/') {
        let i = choose|i: int| 0 <= i < s.len() && s[i] == '/';
        assert(s[i] == '/');
    }
    if s.contains('\\') {
        let i = choose|i: int| 0 <= i < s.len() && s[i] == '\\';
        assert(s[i] == '\\');
    }
}

} // verus!
