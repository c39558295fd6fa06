use hane_ui::paths::{
    decide_inline_rename, follow_inline_rename_path, follow_inline_rename_paths,
    inline_rename_parts, inline_rename_parts_from, path_belongs_to_rename, rebase_ui_path,
    valid_inline_rename_name, work_folder_root_display_name, RenameDecision,
};
use hane_ui::text_field::{InlineRename, InlineRenameKind};

fn rename(kind: InlineRenameKind, from: &str) -> InlineRename {
    let (text, fixed_extension) = inline_rename_parts(from, kind).unwrap();
    InlineRename::new(kind, from.to_owned(), text, fixed_extension)
}

#[test]
fn only_markdown_notes_keep_a_fixed_extension() {
    assert_eq!(
        inline_rename_parts("/notes/todo.txt", InlineRenameKind::File),
        Some(("todo.txt".to_owned(), None))
    );
    assert_eq!(
        inline_rename_parts("/notes/archive.md", InlineRenameKind::Folder),
        Some(("archive.md".to_owned(), None))
    );
    assert_eq!(
        inline_rename_parts("/notes/Deep/plan.Md", InlineRenameKind::File),
        Some(("plan".to_owned(), Some(".Md".to_owned())))
    );
    assert_eq!(inline_rename_parts("/", InlineRenameKind::Folder), None);
    assert_eq!(inline_rename_parts("/notes/..", InlineRenameKind::File), None);
}

#[test]
fn parts_from_a_name_and_extension_follow_the_same_rule() {
    assert_eq!(
        inline_rename_parts_from(Some("a.mD".to_owned()), Some("mD".to_owned()), InlineRenameKind::File),
        Some(("a".to_owned(), Some(".mD".to_owned())))
    );
    assert_eq!(
        inline_rename_parts_from(Some("a.markdown".to_owned()), Some("markdown".to_owned()), InlineRenameKind::File),
        Some(("a.markdown".to_owned(), None))
    );
    assert_eq!(
        inline_rename_parts_from(Some("odd".to_owned()), Some("md".to_owned()), InlineRenameKind::File),
        Some(("odd".to_owned(), Some(".md".to_owned())))
    );
    assert_eq!(
        inline_rename_parts_from(None, Some("md".to_owned()), InlineRenameKind::File),
        None
    );
}

#[test]
fn names_with_dots_or_unicode_are_valid() {
    assert!(valid_inline_rename_name("..."));
    assert!(valid_inline_rename_name(".hidden"));
    assert!(valid_inline_rename_name("会議メモ"));
    assert!(!valid_inline_rename_name("a/"));
}

#[test]
fn rebasing_the_folder_itself_gives_its_new_path() {
    assert_eq!(
        rebase_ui_path("/w/Project", "/w/Project", "/w/Renamed"),
        Some("/w/Renamed".to_owned())
    );
    assert_eq!(rebase_ui_path("/w/ProjectX", "/w/Project", "/w/Renamed"), None);
}

#[test]
fn the_root_label_is_its_name_or_the_whole_path() {
    assert_eq!(work_folder_root_display_name("/home/me/Notes"), "Notes");
    assert_eq!(work_folder_root_display_name("/"), "/");
}

#[test]
fn a_rename_touches_the_note_itself_or_everything_in_the_folder() {
    assert!(path_belongs_to_rename("/w/a.md", "/w/a.md", InlineRenameKind::File));
    assert!(!path_belongs_to_rename("/w/a.md/x", "/w/a.md", InlineRenameKind::File));
    assert!(path_belongs_to_rename("/w/F/x.md", "/w/F", InlineRenameKind::Folder));
    assert!(path_belongs_to_rename("/w/F", "/w/F", InlineRenameKind::Folder));
    assert!(!path_belongs_to_rename("/w/G/x.md", "/w/F", InlineRenameKind::Folder));
}

#[test]
fn remembered_paths_follow_the_rename() {
    assert_eq!(
        follow_inline_rename_path("/w/a.md", "/w/a.md", "/w/b.md", InlineRenameKind::File),
        "/w/b.md"
    );
    assert_eq!(
        follow_inline_rename_path("/w/c.md", "/w/a.md", "/w/b.md", InlineRenameKind::File),
        "/w/c.md"
    );
    let paths = vec![
        "/w/F".to_owned(),
        "/w/F/Deep/x.md".to_owned(),
        "/w/Other".to_owned(),
    ];
    assert_eq!(
        follow_inline_rename_paths(&paths, "/w/F", "/w/G", InlineRenameKind::Folder),
        vec![
            "/w/G".to_owned(),
            "/w/G/Deep/x.md".to_owned(),
            "/w/Other".to_owned()
        ]
    );
}

#[test]
fn confirming_a_rename_decides_in_order() {
    let mut note = rename(InlineRenameKind::File, "/w/Alpha.md");
    assert!(matches!(decide_inline_rename(&note, false), RenameDecision::Unchanged));
    assert!(matches!(decide_inline_rename(&note, true), RenameDecision::Deferred));
    assert!(note.replace_text(None, "Beta"));
    match decide_inline_rename(&note, false) {
        RenameDecision::Rename(target) => assert_eq!(target, "/w/Beta.md"),
        _ => panic!("a new name renames"),
    }
    assert!(note.replace_text(Some(0..4), "a/b"));
    assert!(matches!(decide_inline_rename(&note, true), RenameDecision::InvalidName));
    note.pending = true;
    assert!(matches!(decide_inline_rename(&note, false), RenameDecision::Pending));

    let folder = rename(InlineRenameKind::Folder, "/w/F");
    assert!(matches!(decide_inline_rename(&folder, false), RenameDecision::Unchanged));
    let root = InlineRename::new(InlineRenameKind::Folder, "/".to_owned(), "x".to_owned(), None);
    assert!(matches!(decide_inline_rename(&root, false), RenameDecision::NoParent));
}
