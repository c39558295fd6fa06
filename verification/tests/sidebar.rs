use hane_ui::labels::{draft_preview, header_recent_files};
use hane_ui::paths::{
    begin_inline_rename, cancel_inline_rename, rename_has_background_conflict, BeginRename,
    DraftActivity, RememberedPaths, SessionActivity,
};
use hane_ui::sidebar_tree::{
    draft_row_ids, flatten_filtered_work_folder_tree, flatten_work_folder_tree,
    inline_rename_target_from_selection, root_row_is_selected,
    sidebar_rows, target_directory_for_new_entry, toggle_expanded_folder, tree_shows_note,
    SidebarFocus, WorkFolderEntry, WorkFolderFolder, WorkFolderNode, WorkFolderRow,
};
use hane_ui::text_field::{text_input_render_state, InlineRenameKind, SidebarFilter};

fn note(path: &str) -> WorkFolderNode {
    WorkFolderNode::File(WorkFolderEntry {
        path: path.to_owned(),
        file_name: path.rsplit('/').next().unwrap().to_owned(),
    })
}

fn folder(path: &str, children: Vec<WorkFolderNode>) -> WorkFolderNode {
    WorkFolderNode::Folder(WorkFolderFolder {
        path: path.to_owned(),
        children,
    })
}

fn tree() -> Vec<WorkFolderNode> {
    vec![
        folder(
            "/w/Projects",
            vec![
                note("/w/Projects/Meeting notes.md"),
                folder("/w/Projects/Old", vec![note("/w/Projects/Old/plan.md")]),
            ],
        ),
        folder("/w/Empty", vec![]),
        note("/w/todo.md"),
    ]
}

fn labels(rows: &[WorkFolderRow]) -> Vec<(usize, String)> {
    rows.iter()
        .map(|row| {
            let path = match row.node {
                WorkFolderNode::File(entry) => entry.path.clone(),
                WorkFolderNode::Folder(folder) => folder.path.clone(),
            };
            (row.depth, path)
        })
        .collect()
}

#[test]
fn the_tree_descends_only_into_expanded_folders() {
    let nodes = tree();
    let mut rows = Vec::new();
    flatten_work_folder_tree(&nodes, 1, &Vec::new(), &mut rows);
    assert_eq!(
        labels(&rows),
        vec![
            (1, "/w/Projects".to_owned()),
            (1, "/w/Empty".to_owned()),
            (1, "/w/todo.md".to_owned())
        ]
    );
    let expanded = vec!["/w/Projects".to_owned(), "/w/Projects/Old/".to_owned()];
    let mut rows = Vec::new();
    flatten_work_folder_tree(&nodes, 1, &expanded, &mut rows);
    assert_eq!(
        labels(&rows),
        vec![
            (1, "/w/Projects".to_owned()),
            (2, "/w/Projects/Meeting notes.md".to_owned()),
            (2, "/w/Projects/Old".to_owned()),
            (3, "/w/Projects/Old/plan.md".to_owned()),
            (1, "/w/Empty".to_owned()),
            (1, "/w/todo.md".to_owned())
        ]
    );
}

#[test]
fn filtering_keeps_matching_notes_and_the_folders_above_them() {
    let nodes = tree();
    let mut rows = Vec::new();
    assert!(flatten_filtered_work_folder_tree(&nodes, 1, "plan", &mut rows));
    assert_eq!(
        labels(&rows),
        vec![
            (1, "/w/Projects".to_owned()),
            (2, "/w/Projects/Old".to_owned()),
            (3, "/w/Projects/Old/plan.md".to_owned())
        ]
    );
    let mut rows = Vec::new();
    assert!(!flatten_filtered_work_folder_tree(&nodes, 1, "nothing", &mut rows));
    assert!(rows.is_empty());
}

#[test]
fn the_filter_ignores_case() {
    let nodes = tree();
    let rows = sidebar_rows(&nodes, "MEETING", &Vec::new());
    assert_eq!(
        labels(&rows),
        vec![
            (1, "/w/Projects".to_owned()),
            (2, "/w/Projects/Meeting notes.md".to_owned())
        ]
    );
    let rows = sidebar_rows(&nodes, "", &Vec::new());
    assert_eq!(rows.len(), 3);
}

#[test]
fn a_note_has_a_row_only_when_its_folder_is_expanded() {
    let nodes = tree();
    assert!(tree_shows_note(&nodes, &Vec::new(), "/w/todo.md"));
    assert!(!tree_shows_note(&nodes, &Vec::new(), "/w/Projects/Meeting notes.md"));
    assert!(tree_shows_note(
        &nodes,
        &vec!["/w/Projects".to_owned()],
        "/w/Projects/Meeting notes.md"
    ));
    assert!(!tree_shows_note(&nodes, &vec!["/w/Projects".to_owned()], "/w/Projects"));
}

#[test]
fn a_draft_is_labelled_by_its_first_line() {
    assert_eq!(draft_preview(""), "Untitled note");
    assert_eq!(draft_preview("  \n\t\n"), "Untitled note");
    assert_eq!(draft_preview("\n\n  # Weekly plan  \nbody"), "Weekly plan");
    assert_eq!(draft_preview("##\n ### \nsecond"), "");
    assert_eq!(draft_preview("\u{3000}本日のメモ\r\n続き"), "本日のメモ");
    assert_eq!(draft_preview("plain text"), "plain text");
}

#[test]
fn starting_a_rename_opens_the_field_on_the_name() {
    let mut slot = None;
    let mut status: Option<String> = None;
    assert!(matches!(
        begin_inline_rename(&mut slot, &mut status, "/w/a.md".to_owned(), InlineRenameKind::File, false, false),
        BeginRename::Ignored
    ));
    assert!(matches!(
        begin_inline_rename(&mut slot, &mut status, "/w/a.md".to_owned(), InlineRenameKind::File, true, true),
        BeginRename::Deferred
    ));
    assert_eq!(
        status.as_deref(),
        Some("Rename deferred while another operation is in progress")
    );
    assert!(matches!(
        begin_inline_rename(&mut slot, &mut status, "/".to_owned(), InlineRenameKind::Folder, true, false),
        BeginRename::NoName
    ));
    assert_eq!(
        status.as_deref(),
        Some("Rename failed: file or folder name is not valid UTF-8")
    );
    assert!(slot.is_none());
    assert!(matches!(
        begin_inline_rename(&mut slot, &mut status, "/w/a.md".to_owned(), InlineRenameKind::File, true, false),
        BeginRename::Started
    ));
    let rename = slot.as_ref().unwrap();
    assert_eq!(rename.text, "a");
    assert_eq!(rename.fixed_extension, Some(".md".to_owned()));
    assert_eq!(rename.selected_range, 0..1);
    assert!(matches!(
        begin_inline_rename(&mut slot, &mut status, "/w/b.md".to_owned(), InlineRenameKind::File, true, false),
        BeginRename::Ignored
    ));
    assert_eq!(slot.as_ref().unwrap().from, "/w/a.md");

    slot.as_mut().unwrap().pending = true;
    assert!(!cancel_inline_rename(&mut slot, &mut status));
    assert!(slot.is_some());
    assert_eq!(status.as_deref(), Some("Rename in progress"));
    slot.as_mut().unwrap().pending = false;
    assert!(cancel_inline_rename(&mut slot, &mut status));
    assert!(slot.is_none());
    assert!(cancel_inline_rename(&mut slot, &mut status));
}

#[test]
fn remembered_paths_follow_a_folder_rename() {
    let remembered = RememberedPaths {
        selected_folder: Some("/w/F/Sub".to_owned()),
        expanded_folders: vec!["/w/F".to_owned(), "/w/G".to_owned()],
        pending_new_folders: vec!["/w/F/New".to_owned()],
        draft_directories: vec!["/w/G".to_owned()],
        loading_paths: vec!["/w/F/x.md".to_owned()],
        latest_open_target: None,
    };
    let folder = remembered.followed("/w/F", "/w/H", InlineRenameKind::Folder);
    assert_eq!(folder.selected_folder, Some("/w/H/Sub".to_owned()));
    assert_eq!(folder.expanded_folders, vec!["/w/H".to_owned(), "/w/G".to_owned()]);
    assert_eq!(folder.pending_new_folders, vec!["/w/H/New".to_owned()]);
    assert_eq!(folder.draft_directories, vec!["/w/G".to_owned()]);
    assert_eq!(folder.loading_paths, vec!["/w/H/x.md".to_owned()]);
    assert_eq!(folder.latest_open_target, None);

    let file = remembered.followed("/w/F/x.md", "/w/F/y.md", InlineRenameKind::File);
    assert_eq!(file.selected_folder, Some("/w/F/Sub".to_owned()));
    assert_eq!(file.expanded_folders, remembered.expanded_folders);
    assert_eq!(file.loading_paths, vec!["/w/F/y.md".to_owned()]);
}

#[test]
fn busy_work_inside_a_folder_defers_its_rename() {
    let idle = SessionActivity {
        path: Some("/w/F/a.md".to_owned()),
        busy: false,
    };
    let saving = SessionActivity {
        path: Some("/w/F/a.md".to_owned()),
        busy: true,
    };
    let draft = DraftActivity {
        target_directory: "/w/F".to_owned(),
        busy: true,
    };
    let kind = InlineRenameKind::Folder;
    assert!(!rename_has_background_conflict("/w/F", kind, &vec![], &vec![idle], &vec![]));
    assert!(rename_has_background_conflict("/w/F", kind, &vec![], &vec![saving], &vec![]));
    assert!(rename_has_background_conflict("/w/F", kind, &vec!["/w/F/N".to_owned()], &vec![], &vec![]));
    assert!(rename_has_background_conflict("/w/F", kind, &vec![], &vec![], &vec![draft]));
    let draft = DraftActivity {
        target_directory: "/w/F".to_owned(),
        busy: true,
    };
    assert!(!rename_has_background_conflict(
        "/w/F/a.md",
        InlineRenameKind::File,
        &vec!["/w/F/a.md".to_owned()],
        &vec![],
        &vec![draft]
    ));
}

#[test]
fn the_text_input_shows_the_rename_field_first() {
    let mut filter = SidebarFilter::new();
    filter.focus(None);
    assert!(filter.replace_text(None, "abc"));
    let state = text_input_render_state(&None, &filter);
    assert_eq!(state.text, "abc");
    assert_eq!(state.selected_range, 3..3);
    let mut slot = None;
    let mut status = None;
    begin_inline_rename(&mut slot, &mut status, "/w/x.md".to_owned(), InlineRenameKind::File, true, false);
    let state = text_input_render_state(&slot, &filter);
    assert_eq!(state.text, "x");
    assert_eq!(state.selected_range, 0..1);
}

#[test]
fn f2_renames_the_highlighted_selection() {
    let folder = Some("/w/F".to_owned());
    let note = Some("/w/a.md".to_owned());
    assert_eq!(
        inline_rename_target_from_selection(true, false, false, SidebarFocus::Folder, folder.clone(), note.clone()),
        Some(("/w/F".to_owned(), InlineRenameKind::Folder))
    );
    assert_eq!(
        inline_rename_target_from_selection(true, false, false, SidebarFocus::ActiveSession, folder.clone(), note.clone()),
        Some(("/w/a.md".to_owned(), InlineRenameKind::File))
    );
    assert_eq!(
        inline_rename_target_from_selection(false, false, false, SidebarFocus::Folder, folder.clone(), note.clone()),
        None
    );
    assert_eq!(
        inline_rename_target_from_selection(true, true, false, SidebarFocus::Folder, folder.clone(), note.clone()),
        None
    );
    assert_eq!(
        inline_rename_target_from_selection(true, false, true, SidebarFocus::Folder, folder, note),
        None
    );
    assert_eq!(
        inline_rename_target_from_selection(true, false, false, SidebarFocus::ActiveSession, None, None),
        None
    );
}

#[test]
fn new_entries_go_into_the_selected_folder() {
    assert_eq!(target_directory_for_new_entry("/w", Some("/w/F".to_owned()), true), "/w/F");
    assert_eq!(target_directory_for_new_entry("/w", Some("/w/gone".to_owned()), false), "/w");
    assert_eq!(target_directory_for_new_entry("/w", None, false), "/w");
}

#[test]
fn clicking_a_folder_toggles_only_that_folder() {
    let mut expanded = vec!["/w/A".to_owned(), "/w/B".to_owned()];
    toggle_expanded_folder(&mut expanded, "/w/C".to_owned());
    assert_eq!(expanded, vec!["/w/A".to_owned(), "/w/B".to_owned(), "/w/C".to_owned()]);
    toggle_expanded_folder(&mut expanded, "/w/A/".to_owned());
    assert_eq!(expanded, vec!["/w/B".to_owned(), "/w/C".to_owned()]);
    toggle_expanded_folder(&mut expanded, "/w/C".to_owned());
    assert_eq!(expanded, vec!["/w/B".to_owned()]);
}

#[test]
fn the_header_lists_three_recent_files_other_than_the_active_one() {
    let recent: Vec<String> = ["/w/a.md", "/w/b.md", "/w/c.md", "/w/d.md"]
        .iter()
        .map(|p| p.to_string())
        .collect();
    assert_eq!(
        header_recent_files(&recent, Some("/w/b.md")),
        vec!["/w/a.md".to_owned(), "/w/c.md".to_owned(), "/w/d.md".to_owned()]
    );
    assert_eq!(
        header_recent_files(&recent, None),
        vec!["/w/a.md".to_owned(), "/w/b.md".to_owned(), "/w/c.md".to_owned()]
    );
    assert_eq!(header_recent_files(&Vec::new(), None), Vec::<String>::new());
}

#[test]
fn draft_rows_are_the_open_drafts_by_id() {
    assert_eq!(
        draft_row_ids(&vec![(7, true), (2, true), (5, false), (3, true)]),
        vec![2, 3, 7]
    );
    assert_eq!(draft_row_ids(&vec![]), Vec::<u64>::new());
}

#[test]
fn the_root_row_is_selected_when_nothing_else_is() {
    assert!(root_row_is_selected(SidebarFocus::Folder, false, true));
    assert!(!root_row_is_selected(SidebarFocus::Folder, true, false));
    assert!(root_row_is_selected(SidebarFocus::ActiveSession, true, false));
    assert!(!root_row_is_selected(SidebarFocus::ActiveSession, false, true));
}
