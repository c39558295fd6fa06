//! The work folder as the sidebar lists it: a tree of notes and folders
//! flattened into rows in display order, either following which folders
//! are expanded or keeping only what matches the filter.

use vstd::prelude::*;
use crate::paths::{opt_view, paths_equal, same_path};
use crate::text_field::InlineRenameKind;

verus! {

broadcast use vstd::seq::group_seq_axioms;

/// A note of the work folder.
pub struct WorkFolderEntry {
    pub path: String,
    pub file_name: String,
}

/// A folder of the work folder with its children, each level already in
/// display order.
pub struct WorkFolderFolder {
    pub path: String,
    pub children: Vec<WorkFolderNode>,
}

/// One node of the work folder tree.
pub enum WorkFolderNode {
    File(WorkFolderEntry),
    Folder(WorkFolderFolder),
}

/// One row of the sidebar tree: a node and how deep it sits.
pub struct WorkFolderRow<'a> {
    pub depth: usize,
    pub node: &'a WorkFolderNode,
}

/// A row as its depth and node.
pub open spec fn row_view(row: WorkFolderRow) -> (int, WorkFolderNode) {
    (row.depth as int, *row.node)
}

/// Rows as depths and nodes.
pub open spec fn rows_view(rows: Seq<WorkFolderRow>) -> Seq<(int, WorkFolderNode)> {
    rows.map_values(|row: WorkFolderRow| row_view(row))
}

/// `path` is one of `set`, compared as paths.
pub open spec fn in_path_set(set: Seq<String>, path: Seq<char>) -> bool {
    exists|i: int| 0 <= i < set.len() && same_path(#[trigger] set[i]@, path)
}

/// How deeply `nodes` nest: 0 for no nodes, one more than its children for
/// a folder.
pub open spec fn nesting(nodes: Seq<WorkFolderNode>) -> nat
    decreases nodes,
{
    if nodes.len() == 0 {
        0
    } else {
        let here: nat = match nodes[0] {
            WorkFolderNode::Folder(folder) => 1 + nesting(folder.children@),
            WorkFolderNode::File(_) => 1,
        };
        let rest = nesting(nodes.drop_first());
        if here >= rest {
            here
        } else {
            rest
        }
    }
}

/// Rows for `nodes` at `depth` in display order: each node, and below a
/// folder its own rows when it is expanded.
pub open spec fn tree_rows(nodes: Seq<WorkFolderNode>, depth: int, expanded: Seq<String>) -> Seq<
    (int, WorkFolderNode),
>
    decreases nodes,
{
    if nodes.len() == 0 {
        Seq::empty()
    } else {
        let below = match nodes[0] {
            WorkFolderNode::Folder(folder) => if in_path_set(expanded, folder.path@) {
                tree_rows(folder.children@, depth + 1, expanded)
            } else {
                Seq::empty()
            },
            WorkFolderNode::File(_) => Seq::empty(),
        };
        seq![(depth, nodes[0])] + below + tree_rows(nodes.drop_first(), depth, expanded)
    }
}

/// The rows of a run of nodes are the rows of its parts, one after the
/// other.
proof fn lemma_tree_rows_concat(
    a: Seq<WorkFolderNode>,
    b: Seq<WorkFolderNode>,
    depth: int,
    expanded: Seq<String>,
)
    ensures
        tree_rows(a + b, depth, expanded) == tree_rows(a, depth, expanded) + tree_rows(
            b,
            depth,
            expanded,
        ),
        nesting(a + b) == if nesting(a) >= nesting(b) {
            nesting(a)
        } else {
            nesting(b)
        },
    decreases a.len(),
{
    if a.len() == 0 {
        assert(a + b =~= b);
    } else {
        lemma_tree_rows_concat(a.drop_first(), b, depth, expanded);
        assert((a + b).drop_first() =~= a.drop_first() + b);
        assert((a + b)[0] == a[0]);
    }
}

/// The run of the first `i + 1` nodes is the first `i` and node `i`.
proof fn lemma_take_one_more(nodes: Seq<WorkFolderNode>, i: int)
    requires
        0 <= i < nodes.len(),
    ensures
        nodes.take(i + 1) == nodes.take(i) + seq![nodes[i]],
        seq![nodes[i]].drop_first() == Seq::<WorkFolderNode>::empty(),
{
    assert(nodes.take(i + 1) =~= nodes.take(i) + seq![nodes[i]]);
    assert(seq![nodes[i]].drop_first() =~= Seq::<WorkFolderNode>::empty());
}

/// What a node adds below its own row.
pub open spec fn rows_below(node: WorkFolderNode, depth: int, expanded: Seq<String>) -> Seq<
    (int, WorkFolderNode),
> {
    match node {
        WorkFolderNode::Folder(folder) => if in_path_set(expanded, folder.path@) {
            tree_rows(folder.children@, depth + 1, expanded)
        } else {
            Seq::empty()
        },
        WorkFolderNode::File(_) => Seq::empty(),
    }
}

/// The rows of a single node: its own and those below it.
proof fn lemma_single_rows(node: WorkFolderNode, depth: int, expanded: Seq<String>)
    ensures
        tree_rows(seq![node], depth, expanded) == seq![(depth, node)] + rows_below(
            node,
            depth,
            expanded,
        ),
{
    assert(seq![node].drop_first() =~= Seq::<WorkFolderNode>::empty());
    assert(tree_rows(Seq::<WorkFolderNode>::empty(), depth, expanded) =~= Seq::empty());
    assert(seq![(depth, node)] + rows_below(node, depth, expanded) + Seq::empty() =~= seq![
        (depth, node),
    ] + rows_below(node, depth, expanded));
}

/// Whether `path` is among `expanded`.
fn contains_path(expanded: &Vec<String>, path: &str) -> (r: bool)
    ensures
        r == in_path_set(expanded@, path@),
{
    let mut i: usize = 0;
    while i < expanded.len()
        invariant
            i <= expanded.len(),
            forall|j: int| 0 <= j < i ==> !same_path(#[trigger] expanded@[j]@, path@),
        decreases expanded.len() - i,
    {
        if paths_equal(expanded[i].as_str(), path) {
            return true;
        }
        i = i + 1;
    }
    false
}

/// Appends the rows of `nodes` at `depth` to `out`, descending into a
/// folder only when it is expanded.
pub fn flatten_work_folder_tree<'a>(
    nodes: &'a [WorkFolderNode],
    depth: usize,
    expanded: &Vec<String>,
    out: &mut Vec<WorkFolderRow<'a>>,
)
    requires
        depth + nesting(nodes@) <= usize::MAX,
    ensures
        rows_view(final(out)@) == rows_view(old(out)@) + tree_rows(
            nodes@,
            depth as int,
            expanded@,
        ),
    decreases nodes@,
{
    let ghost start = old(out)@;
    let mut i: usize = 0;
    proof {
        assert(nodes@.take(0) =~= Seq::<WorkFolderNode>::empty());
        assert(nodes@ =~= nodes@.take(0) + nodes@);
    }
    while i < nodes.len()
        invariant
            i <= nodes.len(),
            depth + nesting(nodes@) <= usize::MAX,
            rows_view(out@) == rows_view(start) + tree_rows(
                nodes@.take(i as int),
                depth as int,
                expanded@,
            ),
        decreases nodes.len() - i,
    {
        let node = &nodes[i];
        proof {
            lemma_take_one_more(nodes@, i as int);
            lemma_tree_rows_concat(nodes@.take(i as int), seq![nodes@[i as int]], depth as int, expanded@);
            assert(nodes@ =~= nodes@.take(i as int) + nodes@.skip(i as int));
            lemma_tree_rows_concat(nodes@.take(i as int), nodes@.skip(i as int), depth as int, expanded@);
            assert(nodes@.skip(i as int) =~= seq![nodes@[i as int]] + nodes@.skip(i + 1));
            lemma_tree_rows_concat(seq![nodes@[i as int]], nodes@.skip(i + 1), depth as int, expanded@);
        }
        let ghost before = out@;
        out.push(WorkFolderRow { depth, node });
        proof {
            assert(rows_view(out@) =~= rows_view(before) + seq![(depth as int, nodes@[i as int])]);
        }
        let ghost mid = out@;
        match node {
            WorkFolderNode::Folder(folder) => {
                if contains_path(expanded, folder.path.as_str()) {
                    flatten_work_folder_tree(folder.children.as_slice(), depth + 1, expanded, out);
                }
            },
            WorkFolderNode::File(_) => {},
        }
        proof {
            lemma_single_rows(nodes@[i as int], depth as int, expanded@);
            assert(rows_view(out@) =~= rows_view(mid) + rows_below(
                nodes@[i as int],
                depth as int,
                expanded@,
            ));
        }
        i = i + 1;
    }
    proof {
        assert(nodes@.take(nodes@.len() as int) =~= nodes@);
    }
}

/// `text` in lower case, as `str::to_lowercase` maps it.
pub uninterp spec fn lowercase_of(text: Seq<char>) -> Seq<char>;

/// `str::to_lowercase`.
#[verifier::external_body]
fn lowercase(text: &str) -> (r: String)
    ensures
        r@ == lowercase_of(text@),
{
    text.to_lowercase()
}

/// `needle` occurs in `haystack` as a run of characters.
pub open spec fn occurs_in(haystack: Seq<char>, needle: Seq<char>) -> bool {
    exists|i: int|
        0 <= i && i + needle.len() <= haystack.len() && #[trigger] haystack.subrange(
            i,
            i + needle.len(),
        ) == needle
}

/// Whether `needle` occurs in `haystack`.
fn contains_text(haystack: &str, needle: &str) -> (r: bool)
    ensures
        r == occurs_in(haystack@, needle@),
{
    let h = crate::utf::chars_of(haystack);
    let n = crate::utf::chars_of(needle);
    if n.len() > h.len() {
        return false;
    }
    let total = h.len();
    let last = h.len() - n.len();
    let mut i: usize = 0;
    while i <= last
        invariant
            h@ == haystack@,
            n@ == needle@,
            total == h@.len(),
            n@.len() <= h@.len(),
            last == h@.len() - n@.len(),
            forall|k: int| 0 <= k < i ==> #[trigger] haystack@.subrange(k, k + needle@.len()) != needle@,
        decreases last + 1 - i,
    {
        let mut j: usize = 0;
        let mut same = true;
        while j < n.len()
            invariant
                h@ == haystack@,
                n@ == needle@,
                i <= last,
                total == h@.len(),
                n@.len() <= h@.len(),
                last == h@.len() - n@.len(),
                j <= n.len(),
                same == forall|m: int| 0 <= m < j ==> h@[i + m] == n@[m],
            decreases n.len() - j,
        {
            if h[i + j] != n[j] {
                same = false;
            }
            j = j + 1;
        }
        if same {
            proof {
                assert(haystack@.subrange(i as int, i + needle@.len()) =~= needle@);
            }
            return true;
        }
        proof {
            let m = choose|m: int| 0 <= m < n@.len() && h@[i + m] != n@[m];
            assert(haystack@.subrange(i as int, i + needle@.len())[m] != needle@[m]);
        }
        if i == last {
            proof {
                assert forall|k: int|
                    0 <= k && k + needle@.len() <= haystack@.len() implies #[trigger] haystack@.subrange(
                    k,
                    k + needle@.len(),
                ) != needle@ by {
                    assert(k <= i);
                }
            }
            return false;
        }
        i = i + 1;
    }
    false
}

/// Rows shown while filtering by `query`: a note when its lower-cased name
/// contains the query, a folder only when something below it matches, and
/// then with all its matching rows, whatever is expanded.
pub open spec fn filtered_rows(nodes: Seq<WorkFolderNode>, depth: int, query: Seq<char>) -> Seq<
    (int, WorkFolderNode),
>
    decreases nodes,
{
    if nodes.len() == 0 {
        Seq::empty()
    } else {
        let here = match nodes[0] {
            WorkFolderNode::File(entry) => if occurs_in(lowercase_of(entry.file_name@), query) {
                seq![(depth, nodes[0])]
            } else {
                Seq::empty()
            },
            WorkFolderNode::Folder(folder) => {
                let below = filtered_rows(folder.children@, depth + 1, query);
                if below.len() > 0 {
                    seq![(depth, nodes[0])] + below
                } else {
                    Seq::empty()
                }
            },
        };
        here + filtered_rows(nodes.drop_first(), depth, query)
    }
}

proof fn lemma_filtered_rows_concat(
    a: Seq<WorkFolderNode>,
    b: Seq<WorkFolderNode>,
    depth: int,
    query: Seq<char>,
)
    ensures
        filtered_rows(a + b, depth, query) == filtered_rows(a, depth, query) + filtered_rows(
            b,
            depth,
            query,
        ),
    decreases a.len(),
{
    if a.len() == 0 {
        assert(a + b =~= b);
    } else {
        lemma_filtered_rows_concat(a.drop_first(), b, depth, query);
        assert((a + b).drop_first() =~= a.drop_first() + b);
        assert((a + b)[0] == a[0]);
    }
}

proof fn lemma_filtered_single(node: WorkFolderNode, depth: int, query: Seq<char>)
    ensures
        filtered_rows(seq![node], depth, query) == match node {
            WorkFolderNode::File(entry) => if occurs_in(lowercase_of(entry.file_name@), query) {
                seq![(depth, node)]
            } else {
                Seq::empty()
            },
            WorkFolderNode::Folder(folder) => {
                let below = filtered_rows(folder.children@, depth + 1, query);
                if below.len() > 0 {
                    seq![(depth, node)] + below
                } else {
                    Seq::empty()
                }
            },
        },
{
    assert(seq![node].drop_first() =~= Seq::<WorkFolderNode>::empty());
    assert(filtered_rows(Seq::<WorkFolderNode>::empty(), depth, query) =~= Seq::empty());
    assert(seq![node][0] == node);
    let here = filtered_rows(seq![node], depth, query);
    assert(here =~= here + Seq::<(int, WorkFolderNode)>::empty());
}

/// Appends the rows matching `query` under `nodes` to `out`; reports
/// whether there were any.
pub fn flatten_filtered_work_folder_tree<'a>(
    nodes: &'a [WorkFolderNode],
    depth: usize,
    query: &str,
    out: &mut Vec<WorkFolderRow<'a>>,
) -> (found: bool)
    requires
        depth + nesting(nodes@) <= usize::MAX,
    ensures
        rows_view(final(out)@) == rows_view(old(out)@) + filtered_rows(
            nodes@,
            depth as int,
            query@,
        ),
        found == (filtered_rows(nodes@, depth as int, query@).len() > 0),
    decreases nodes@,
{
    let ghost start = old(out)@;
    let mut found = false;
    let mut i: usize = 0;
    proof {
        assert(nodes@.take(0) =~= Seq::<WorkFolderNode>::empty());
    }
    while i < nodes.len()
        invariant
            i <= nodes.len(),
            depth + nesting(nodes@) <= usize::MAX,
            rows_view(out@) == rows_view(start) + filtered_rows(
                nodes@.take(i as int),
                depth as int,
                query@,
            ),
            found == (filtered_rows(nodes@.take(i as int), depth as int, query@).len() > 0),
        decreases nodes.len() - i,
    {
        let node = &nodes[i];
        proof {
            lemma_take_one_more(nodes@, i as int);
            lemma_filtered_rows_concat(
                nodes@.take(i as int),
                seq![nodes@[i as int]],
                depth as int,
                query@,
            );
            lemma_filtered_single(nodes@[i as int], depth as int, query@);
            assert(nodes@ =~= nodes@.take(i as int) + nodes@.skip(i as int));
            lemma_tree_rows_concat(
                nodes@.take(i as int),
                nodes@.skip(i as int),
                depth as int,
                Seq::empty(),
            );
            assert(nodes@.skip(i as int) =~= seq![nodes@[i as int]] + nodes@.skip(i + 1));
            lemma_tree_rows_concat(
                seq![nodes@[i as int]],
                nodes@.skip(i + 1),
                depth as int,
                Seq::empty(),
            );
        }
        let ghost before = out@;
        match node {
            WorkFolderNode::File(entry) => {
                let name = lowercase(entry.file_name.as_str());
                if contains_text(name.as_str(), query) {
                    out.push(WorkFolderRow { depth, node });
                    proof {
                        assert(rows_view(out@) =~= rows_view(before) + seq![
                            (depth as int, nodes@[i as int]),
                        ]);
                    }
                    found = true;
                }
            },
            WorkFolderNode::Folder(folder) => {
                let mut descendants: Vec<WorkFolderRow<'a>> = Vec::new();
                let below = flatten_filtered_work_folder_tree(
                    folder.children.as_slice(),
                    depth + 1,
                    query,
                    &mut descendants,
                );
                if below {
                    out.push(WorkFolderRow { depth, node });
                    let ghost pushed = out@;
                    out.append(&mut descendants);
                    proof {
                        assert(rows_view(Seq::<WorkFolderRow>::empty()) =~= Seq::empty());
                        assert(rows_view(out@) =~= rows_view(before) + seq![
                            (depth as int, nodes@[i as int]),
                        ] + filtered_rows(folder.children@, depth + 1, query@));
                    }
                    found = true;
                }
            },
        }
        i = i + 1;
    }
    proof {
        assert(nodes@.take(nodes@.len() as int) =~= nodes@);
    }
    found
}

/// The rows the sidebar lists under the work folder root (depth 1): while
/// the filter, lower-cased, is not empty, the matching rows; otherwise the
/// tree as far as folders are expanded.
pub fn sidebar_rows<'a>(nodes: &'a [WorkFolderNode], filter: &str, expanded: &Vec<String>) -> (r:
    Vec<WorkFolderRow<'a>>)
    requires
        1 + nesting(nodes@) <= usize::MAX,
    ensures
        rows_view(r@) == if lowercase_of(filter@).len() > 0 {
            filtered_rows(nodes@, 1, lowercase_of(filter@))
        } else {
            tree_rows(nodes@, 1, expanded@)
        },
{
    let query = lowercase(filter);
    let mut rows: Vec<WorkFolderRow<'a>> = Vec::new();
    proof {
        assert(rows_view(rows@) =~= Seq::empty());
    }
    if query.as_str().is_empty() {
        flatten_work_folder_tree(nodes, 1, expanded, &mut rows);
    } else {
        flatten_filtered_work_folder_tree(nodes, 1, query.as_str(), &mut rows);
    }
    proof {
        assert(rows_view(rows@) =~= Seq::<(int, WorkFolderNode)>::empty() + rows_view(rows@));
    }
    rows
}

/// A row for the note at `path`.
pub open spec fn is_note_row(row: (int, WorkFolderNode), path: Seq<char>) -> bool {
    row.1 matches WorkFolderNode::File(entry) && same_path(entry.path@, path)
}

/// Whether the note at `path` has a row in the unfiltered tree.
pub fn tree_shows_note(nodes: &[WorkFolderNode], expanded: &Vec<String>, path: &str) -> (r: bool)
    requires
        1 + nesting(nodes@) <= usize::MAX,
    ensures
        r == exists|k: int|
            0 <= k < tree_rows(nodes@, 1, expanded@).len() && is_note_row(
                #[trigger] tree_rows(nodes@, 1, expanded@)[k],
                path@,
            ),
{
    let mut rows: Vec<WorkFolderRow> = Vec::new();
    flatten_work_folder_tree(nodes, 1, expanded, &mut rows);
    proof {
        assert(rows_view(Seq::<WorkFolderRow>::empty()) =~= Seq::empty());
        assert(rows_view(rows@) =~= tree_rows(nodes@, 1, expanded@));
    }
    let mut i: usize = 0;
    while i < rows.len()
        invariant
            i <= rows.len(),
            rows_view(rows@) == tree_rows(nodes@, 1, expanded@),
            forall|k: int| 0 <= k < i ==> !is_note_row(#[trigger] rows_view(rows@)[k], path@),
        decreases rows.len() - i,
    {
        let shown = match rows[i].node {
            WorkFolderNode::File(entry) => paths_equal(entry.path.as_str(), path),
            WorkFolderNode::Folder(_) => false,
        };
        proof {
            assert(rows_view(rows@)[i as int] == row_view(rows@[i as int]));
        }
        if shown {
            return true;
        }
        i = i + 1;
    }
    false
}

/// While filtering, every note listed matches the query, and every folder
/// listed is followed directly by a row one level deeper.
pub proof fn law_filtered_rows_match(nodes: Seq<WorkFolderNode>, depth: int, query: Seq<char>)
    ensures
        forall|k: int|
            0 <= k < filtered_rows(nodes, depth, query).len() ==> match #[trigger] filtered_rows(
                nodes,
                depth,
                query,
            )[k].1 {
                WorkFolderNode::File(entry) => occurs_in(lowercase_of(entry.file_name@), query),
                WorkFolderNode::Folder(_) => k + 1 < filtered_rows(nodes, depth, query).len()
                    && filtered_rows(nodes, depth, query)[k + 1].0 == filtered_rows(
                    nodes,
                    depth,
                    query,
                )[k].0 + 1,
            },
    decreases nodes,
{
    if nodes.len() > 0 {
        law_filtered_rows_match(nodes.drop_first(), depth, query);
        match nodes[0] {
            WorkFolderNode::Folder(folder) => {
                law_filtered_rows_match(folder.children@, depth + 1, query);
                lemma_filtered_rows_start_depth(folder.children@, depth + 1, query);
            },
            WorkFolderNode::File(_) => {},
        }
        let rows = filtered_rows(nodes, depth, query);
        let rest = filtered_rows(nodes.drop_first(), depth, query);
        let here = rows.subrange(0, rows.len() - rest.len());
        assert(rows =~= here + rest);
    }
}

/// Every row of a filtered run sits at its depth or deeper, and a run
/// starts at its own depth.
proof fn lemma_filtered_rows_start_depth(nodes: Seq<WorkFolderNode>, depth: int, query: Seq<char>)
    ensures
        filtered_rows(nodes, depth, query).len() > 0 ==> filtered_rows(nodes, depth, query)[0].0
            == depth,
    decreases nodes,
{
    if nodes.len() > 0 {
        lemma_filtered_rows_start_depth(nodes.drop_first(), depth, query);
    }
}

/// Which of the sidebar's selections is highlighted: the row of the active
/// document, or the selected folder.
#[derive(Clone, Copy, Debug, PartialEq, Eq, Structural)]
pub enum SidebarFocus {
    ActiveSession,
    Folder,
}

/// The item F2 renames: the selected folder while folders have the focus,
/// else the active document's note; nothing while the keyboard is not in
/// the sidebar, the filter has it, or a rename is already open.
pub open spec fn rename_target(
    keyboard_in_sidebar: bool,
    filter_focused: bool,
    rename_open: bool,
    focus: SidebarFocus,
    selected_folder: Option<Seq<char>>,
    active_path: Option<Seq<char>>,
) -> Option<(Seq<char>, InlineRenameKind)> {
    if !keyboard_in_sidebar || filter_focused || rename_open {
        None
    } else {
        match focus {
            SidebarFocus::Folder => match selected_folder {
                Some(path) => Some((path, InlineRenameKind::Folder)),
                None => None,
            },
            SidebarFocus::ActiveSession => match active_path {
                Some(path) => Some((path, InlineRenameKind::File)),
                None => None,
            },
        }
    }
}

/// What F2 in the sidebar would rename, if anything.
pub fn inline_rename_target_from_selection(
    keyboard_in_sidebar: bool,
    filter_focused: bool,
    rename_open: bool,
    focus: SidebarFocus,
    selected_folder: Option<String>,
    active_path: Option<String>,
) -> (r: Option<(String, InlineRenameKind)>)
    ensures
        match rename_target(
            keyboard_in_sidebar,
            filter_focused,
            rename_open,
            focus,
            opt_view(selected_folder),
            opt_view(active_path),
        ) {
            Some((path, kind)) => r matches Some(target) && target.0@ == path && target.1 == kind,
            None => r is None,
        },
{
    if !keyboard_in_sidebar || filter_focused || rename_open {
        return None;
    }
    match focus {
        SidebarFocus::Folder => match selected_folder {
            Some(path) => Some((path, InlineRenameKind::Folder)),
            None => None,
        },
        SidebarFocus::ActiveSession => match active_path {
            Some(path) => Some((path, InlineRenameKind::File)),
            None => None,
        },
    }
}

/// Where a new note or folder goes: into the selected folder when it is a
/// folder of the work folder (`selected_is_folder`), else into the root.
pub fn target_directory_for_new_entry(
    root: &str,
    selected_folder: Option<String>,
    selected_is_folder: bool,
) -> (r: String)
    ensures
        r@ == match selected_folder {
            Some(path) => if selected_is_folder {
                path@
            } else {
                root@
            },
            None => root@,
        },
{
    match selected_folder {
        Some(path) => if selected_is_folder {
            path
        } else {
            root.to_owned()
        },
        None => root.to_owned(),
    }
}

/// The paths of a list, as text.
pub open spec fn path_texts(set: Seq<String>) -> Seq<Seq<char>> {
    set.map_values(|p: String| p@)
}

/// `set` without the paths that are the same path as `path`, in order.
pub open spec fn without_path(set: Seq<Seq<char>>, path: Seq<char>) -> Seq<Seq<char>>
    decreases set.len(),
{
    if set.len() == 0 {
        set
    } else {
        let rest = without_path(set.drop_last(), path);
        if same_path(set.last(), path) {
            rest
        } else {
            rest.push(set.last())
        }
    }
}

/// A click on a folder row: the folder is collapsed if it was expanded and
/// expanded otherwise; every other folder keeps its place.
pub fn toggle_expanded_folder(expanded: &mut Vec<String>, path: String)
    ensures
        path_texts(final(expanded)@) == if in_path_set(old(expanded)@, path@) {
            without_path(path_texts(old(expanded)@), path@)
        } else {
            path_texts(old(expanded)@).push(path@)
        },
{
    let mut kept: Vec<String> = Vec::new();
    let mut found = false;
    let mut i: usize = 0;
    proof {
        assert(path_texts(expanded@).take(0) =~= Seq::<Seq<char>>::empty());
        assert(path_texts(kept@) =~= Seq::<Seq<char>>::empty());
    }
    while i < expanded.len()
        invariant
            i <= expanded.len(),
            found == exists|j: int| 0 <= j < i && same_path(#[trigger] expanded@[j]@, path@),
            path_texts(kept@) == without_path(path_texts(expanded@).take(i as int), path@),
        decreases expanded.len() - i,
    {
        proof {
            assert(path_texts(expanded@).take(i + 1).drop_last() =~= path_texts(expanded@).take(
                i as int,
            ));
            assert(path_texts(expanded@).take(i + 1).last() == expanded@[i as int]@);
        }
        if paths_equal(expanded[i].as_str(), path.as_str()) {
            found = true;
        } else {
            let ghost before = kept@;
            kept.push(expanded[i].clone());
            proof {
                assert(path_texts(kept@) =~= path_texts(before).push(expanded@[i as int]@));
            }
        }
        i = i + 1;
    }
    proof {
        assert(path_texts(expanded@).take(expanded@.len() as int) =~= path_texts(expanded@));
    }
    if found {
        *expanded = kept;
    } else {
        let ghost before = expanded@;
        expanded.push(path);
        proof {
            assert(path_texts(expanded@) =~= path_texts(before).push(path@));
        }
    }
}

/// The root row is highlighted while folders have the focus and none is
/// selected, or while the active document has no row of its own.
pub fn root_row_is_selected(
    focus: SidebarFocus,
    folder_selected: bool,
    active_has_row: bool,
) -> (r: bool)
    ensures
        r == ((focus == SidebarFocus::Folder && !folder_selected) || (focus
            == SidebarFocus::ActiveSession && !active_has_row)),
{
    (focus == SidebarFocus::Folder && !folder_selected) || (focus == SidebarFocus::ActiveSession
        && !active_has_row)
}

/// Ids of the drafts, from `i` on, whose document is still open.
pub open spec fn open_draft_ids(drafts: Seq<(u64, bool)>, i: int) -> Seq<u64>
    decreases drafts.len() - i,
{
    if i < 0 || i >= drafts.len() {
        Seq::empty()
    } else if drafts[i].1 {
        seq![drafts[i].0] + open_draft_ids(drafts, i + 1)
    } else {
        open_draft_ids(drafts, i + 1)
    }
}

/// `s` is in increasing order.
pub open spec fn ascending(s: Seq<u64>) -> bool {
    forall|i: int, j: int| 0 <= i < j < s.len() ==> s[i] <= s[j]
}

/// The draft rows of the sidebar: the drafts (each an id and whether its
/// document is still open) whose document is open, by id.
pub fn draft_row_ids(drafts: &Vec<(u64, bool)>) -> (r: Vec<u64>)
    ensures
        ascending(r@),
        r@.to_multiset() == open_draft_ids(drafts@, 0).to_multiset(),
{
    let mut r: Vec<u64> = Vec::new();
    let mut i: usize = drafts.len();
    proof {
        assert(open_draft_ids(drafts@, i as int) =~= Seq::<u64>::empty());
    }
    while i > 0
        invariant
            i <= drafts.len(),
            ascending(r@),
            r@.to_multiset() == open_draft_ids(drafts@, i as int).to_multiset(),
        decreases i,
    {
        i = i - 1;
        let (id, open) = drafts[i];
        if open {
            let mut p: usize = 0;
            while p < r.len() && r[p] <= id
                invariant
                    p <= r.len(),
                    forall|k: int| 0 <= k < p ==> r@[k] <= id,
                decreases r.len() - p,
            {
                p = p + 1;
            }
            let ghost before = r@;
            r.insert(p, id);
            proof {
                vstd::seq_lib::to_multiset_insert(before, p as int, id);
                assert(open_draft_ids(drafts@, i as int) =~= seq![id] + open_draft_ids(
                    drafts@,
                    i + 1,
                ));
                vstd::seq_lib::lemma_seq_union_to_multiset_commutative(
                    seq![id],
                    open_draft_ids(drafts@, i + 1),
                );
                let rest = open_draft_ids(drafts@, i + 1);
                assert(rest.push(id) =~= rest + seq![id]);
                assert((seq![id] + rest).to_multiset() == (rest + seq![id]).to_multiset());
                rest.to_multiset_ensures();
                assert(rest.push(id).to_multiset() =~= rest.to_multiset().insert(id));
                assert(open_draft_ids(drafts@, i as int).to_multiset() =~= rest.to_multiset().insert(
                    id,
                ));
                assert(r@ =~= before.insert(p as int, id));
                assert forall|a: int, b: int| 0 <= a < b < r@.len() implies r@[a] <= r@[b] by {
                    if b < p {
                    } else if a < p && b == p {
                    } else if a < p {
                        assert(r@[b] == before[b - 1]);
                        if p < before.len() {
                            assert(before[p as int] > id);
                        }
                    } else if a == p {
                        assert(before[p as int] > id);
                        assert(r@[b] == before[b - 1]);
                    } else {
                        assert(r@[a] == before[a - 1]);
                        assert(r@[b] == before[b - 1]);
                    }
                }
            }
        } else {
            proof {
                assert(open_draft_ids(drafts@, i as int) == open_draft_ids(drafts@, i + 1));
            }
        }
    }
    r
}

/// The query's characters follow one another in the name from position
/// `i` on.
pub open spec fn found_at(haystack: Seq<char>, needle: Seq<char>, i: int) -> bool {
    &&& 0 <= i
    &&& i + needle.len() <= haystack.len()
    &&& forall|m: int| 0 <= m < needle.len() ==> #[trigger] haystack[i + m] == needle[m]
}

/// A query occurs in a name exactly when it is found at some position of
/// the name: a match anywhere counts, not only at the start.
pub proof fn law_occurs_anywhere(haystack: Seq<char>, needle: Seq<char>)
    ensures
        occurs_in(haystack, needle) <==> exists|i: int| #[trigger] found_at(haystack, needle, i),
{
    if occurs_in(haystack, needle) {
        let i = choose|i: int|
            0 <= i && i + needle.len() <= haystack.len() && #[trigger] haystack.subrange(
                i,
                i + needle.len(),
            ) == needle;
        assert forall|m: int| 0 <= m < needle.len() implies #[trigger] haystack[i + m]
            == needle[m] by {
            assert(haystack.subrange(i, i + needle.len())[m] == haystack[i + m]);
        }
        assert(found_at(haystack, needle, i));
    }
    if exists|i: int| #[trigger] found_at(haystack, needle, i) {
        let i = choose|i: int| #[trigger] found_at(haystack, needle, i);
        assert forall|m: int| 0 <= m < needle.len() implies haystack.subrange(
            i,
            i + needle.len(),
        )[m] == needle[m] by {
            assert(haystack[i + m] == needle[m]);
        }
        assert(haystack.subrange(i, i + needle.len()) =~= needle);
    }
}

/// While filtering, a note of the run whose lower-cased name has the query
/// at any position gets its own row, at its depth.
pub proof fn law_matching_notes_are_listed(
    nodes: Seq<WorkFolderNode>,
    depth: int,
    query: Seq<char>,
    j: int,
    i: int,
)
    requires
        0 <= j < nodes.len(),
        nodes[j] matches WorkFolderNode::File(entry) && found_at(
            lowercase_of(entry.file_name@),
            query,
            i,
        ),
    ensures
        filtered_rows(nodes, depth, query).contains((depth, nodes[j])),
    decreases j,
{
    let entry = nodes[j]->File_0;
    law_occurs_anywhere(lowercase_of(entry.file_name@), query);
    if j == 0 {
        lemma_filtered_single(nodes[0], depth, query);
        assert(nodes =~= seq![nodes[0]] + nodes.drop_first());
        lemma_filtered_rows_concat(seq![nodes[0]], nodes.drop_first(), depth, query);
        assert(filtered_rows(nodes, depth, query)[0] == (depth, nodes[0]));
    } else {
        law_matching_notes_are_listed(nodes.drop_first(), depth, query, j - 1, i);
        assert(nodes =~= seq![nodes[0]] + nodes.drop_first());
        lemma_filtered_rows_concat(seq![nodes[0]], nodes.drop_first(), depth, query);
        let head = filtered_rows(seq![nodes[0]], depth, query);
        let rest = filtered_rows(nodes.drop_first(), depth, query);
        let k = choose|k: int| 0 <= k < rest.len() && rest[k] == (depth, nodes[j]);
        assert((head + rest)[head.len() + k] == (depth, nodes[j]));
    }
}

/// With none of its folders expanded, a run of nodes lists exactly its
/// nodes, in order, each at the run's depth.
pub proof fn law_collapsed_tree_lists_only_the_run(
    nodes: Seq<WorkFolderNode>,
    depth: int,
    expanded: Seq<String>,
)
    requires
        forall|j: int|
            0 <= j < nodes.len() ==> (#[trigger] nodes[j] matches WorkFolderNode::Folder(f)
                ==> !in_path_set(expanded, f.path@)),
    ensures
        tree_rows(nodes, depth, expanded).len() == nodes.len(),
        forall|j: int|
            0 <= j < nodes.len() ==> #[trigger] tree_rows(nodes, depth, expanded)[j] == (
            depth,
            nodes[j],
        ),
    decreases nodes.len(),
{
    if nodes.len() > 0 {
        assert forall|j: int| 0 <= j < nodes.drop_first().len() implies (
        #[trigger] nodes.drop_first()[j] matches WorkFolderNode::Folder(f) ==> !in_path_set(
            expanded,
            f.path@,
        )) by {
            assert(nodes.drop_first()[j] == nodes[j + 1]);
        }
        law_collapsed_tree_lists_only_the_run(nodes.drop_first(), depth, expanded);
        assert(nodes[0] == nodes[0]);
        let rest = tree_rows(nodes.drop_first(), depth, expanded);
        assert(tree_rows(nodes, depth, expanded) =~= seq![(depth, nodes[0])] + rest);
        assert forall|j: int| 0 <= j < nodes.len() implies #[trigger] tree_rows(
            nodes,
            depth,
            expanded,
        )[j] == (depth, nodes[j]) by {
            if j > 0 {
                assert(tree_rows(nodes, depth, expanded)[j] == rest[j - 1]);
                assert(nodes.drop_first()[j - 1] == nodes[j]);
            }
        }
    }
}

} // verus!
