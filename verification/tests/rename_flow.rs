use hane_ui::parse_jobs::{
    accept_joined_parse, document_parse_completion, joined_parse_jobs_to_start,
    joined_parse_outcome, DocumentParseState, JoinCandidate, JoinedParseOutcome, ParseCompletion,
    ParseStart, MAX_JOINED_PARSE_JOBS,
};
use hane_ui::paths::{
    begin_inline_rename, confirm_inline_rename_step, confirm_rename_busy, new_folder_name_taken,
    rename_blocked_by_loading, title_sync_start, RememberedPaths, TitleSyncStart, rename_ticket_sessions, SessionActivity, decide_inline_rename,
    finish_inline_rename_field, rename_status_message, ConfirmAction, RenameDecision,
};
use hane_ui::text_field::{InlineRename, InlineRenameKind};

fn open_rename(path: &str, kind: InlineRenameKind) -> Option<InlineRename> {
    let mut slot = None;
    let mut status = None;
    begin_inline_rename(&mut slot, &mut status, path.to_owned(), kind, true, false);
    slot
}

#[test]
fn confirming_a_renamed_note_starts_one_file_rename_and_marks_it_pending() {
    let mut slot = open_rename("/w/Plain.md", InlineRenameKind::File);
    let mut status = None;
    assert!(slot.as_mut().unwrap().replace_text(None, "Renamed"));
    let decision = decide_inline_rename(slot.as_ref().unwrap(), false);
    match confirm_inline_rename_step(&mut slot, &mut status, &decision, true) {
        ConfirmAction::Start(job) => {
            assert_eq!(job.kind, InlineRenameKind::File);
            assert_eq!(job.from, "/w/Plain.md");
            assert_eq!(job.target, "/w/Renamed.md");
        }
        _ => panic!("a new name starts a rename"),
    }
    assert!(slot.as_ref().unwrap().pending);
    assert_eq!(status.as_deref(), Some("Renaming…"));
    let decision = decide_inline_rename(slot.as_ref().unwrap(), false);
    assert!(matches!(
        confirm_inline_rename_step(&mut slot, &mut status, &decision, true),
        ConfirmAction::Nothing
    ));
    finish_inline_rename_field(&mut slot, &mut status, Ok(()), Ok(()));
    assert!(slot.is_none());
    assert_eq!(status.as_deref(), Some("Renamed"));
}

#[test]
fn a_failed_rename_leaves_the_field_open_and_editable() {
    let mut slot = open_rename("/w/F", InlineRenameKind::Folder);
    let mut status = Some("before".to_owned());
    assert!(slot.as_mut().unwrap().replace_text(None, "G"));
    let decision = decide_inline_rename(slot.as_ref().unwrap(), false);
    assert!(matches!(
        confirm_inline_rename_step(&mut slot, &mut status, &decision, true),
        ConfirmAction::Start(_)
    ));
    finish_inline_rename_field(
        &mut slot,
        &mut status,
        Err("Permission denied".to_owned()),
        Ok(()),
    );
    let rename = slot.as_ref().unwrap();
    assert!(!rename.pending);
    assert_eq!(rename.text, "G");
    assert_eq!(status.as_deref(), Some("Rename failed: Permission denied"));
}

#[test]
fn refusals_set_their_own_status_and_keep_the_field() {
    let mut slot = open_rename("/w/Plain.md", InlineRenameKind::File);
    let mut status = None;
    assert!(slot.as_mut().unwrap().replace_text(None, "a/b"));
    let decision = decide_inline_rename(slot.as_ref().unwrap(), false);
    assert!(matches!(
        confirm_inline_rename_step(&mut slot, &mut status, &decision, true),
        ConfirmAction::Refused
    ));
    assert_eq!(status.as_deref(), Some("Rename failed: invalid file or folder name"));
    assert_eq!(slot.as_ref().unwrap().text, "a/b");
    assert!(!slot.as_ref().unwrap().pending);

    assert!(slot.as_mut().unwrap().replace_text(Some(0..3), "ok"));
    let decision = decide_inline_rename(slot.as_ref().unwrap(), false);
    assert!(matches!(
        confirm_inline_rename_step(&mut slot, &mut status, &decision, false),
        ConfirmAction::Refused
    ));
    assert_eq!(status.as_deref(), Some("Rename deferred while a save is in progress"));
    assert!(!slot.as_ref().unwrap().pending);

    let decision = decide_inline_rename(slot.as_ref().unwrap(), true);
    confirm_inline_rename_step(&mut slot, &mut status, &decision, true);
    assert_eq!(
        status.as_deref(),
        Some("Rename deferred while another operation is in progress")
    );
}

#[test]
fn an_unchanged_name_closes_the_field() {
    let mut slot = open_rename("/w/Plain.md", InlineRenameKind::File);
    let mut status = None;
    let decision = decide_inline_rename(slot.as_ref().unwrap(), false);
    assert!(matches!(
        confirm_inline_rename_step(&mut slot, &mut status, &decision, true),
        ConfirmAction::Closed
    ));
    assert!(slot.is_none());
    assert_eq!(status, None);
    assert!(matches!(
        confirm_inline_rename_step(&mut slot, &mut status, &decision, true),
        ConfirmAction::Nothing
    ));
}

#[test]
fn each_decision_has_its_status_line() {
    assert_eq!(rename_status_message(&RenameDecision::Pending), None);
    assert_eq!(rename_status_message(&RenameDecision::Unchanged), None);
    assert_eq!(
        rename_status_message(&RenameDecision::NoParent).as_deref(),
        Some("Rename failed: item has no parent directory")
    );
    assert_eq!(
        rename_status_message(&RenameDecision::Rename("/x".to_owned())).as_deref(),
        Some("Renaming…")
    );
}

#[test]
fn one_document_parse_runs_at_a_time() {
    let mut state = DocumentParseState::new();
    assert!(matches!(state.start(false, 1, Some(3..3)), ParseStart::Skip));
    assert!(matches!(state.start(true, 1, Some(3..3)), ParseStart::Start));
    assert!(state.job_running);
    assert_eq!(state.last_background_disclosure, Some((1, 3..3)));
    assert!(matches!(state.start(true, 2, None), ParseStart::Busy));
    assert!(matches!(
        state.complete(1, true, true, true, Some(3..3), Some(3..3), true, true),
        ParseCompletion::Install
    ));
    assert!(!state.job_running);
    assert!(matches!(state.start(false, 1, Some(3..3)), ParseStart::Skip));
    assert!(matches!(state.start(false, 1, Some(2..5)), ParseStart::Start));
    assert!(!state.proceed(true, false, true));
    assert!(!state.job_running);
    assert!(matches!(state.start(false, 1, Some(4..4)), ParseStart::Start));
}

#[test]
fn a_finished_parse_is_rebased_or_rescheduled_rather_than_published_stale() {
    let c = |same_document, line_height, revision, snapshot, current, blocks, len| {
        document_parse_completion(same_document, line_height, revision, &snapshot, &current, blocks, len)
    };
    assert!(matches!(c(false, true, true, None, None, true, true), ParseCompletion::Reschedule));
    assert!(matches!(c(true, false, true, None, None, true, true), ParseCompletion::Reschedule));
    assert!(matches!(c(true, true, true, Some(1..1), Some(1..1), true, true), ParseCompletion::Install));
    assert!(matches!(c(true, true, false, Some(1..1), Some(1..1), true, true), ParseCompletion::Resync));
    assert!(matches!(c(true, true, true, Some(1..1), Some(2..2), true, true), ParseCompletion::BoundedUpdate));
    assert!(matches!(c(true, true, true, Some(1..3), Some(2..2), true, true), ParseCompletion::RetrySnapshot));
    assert!(matches!(c(true, true, true, None, None, false, true), ParseCompletion::Resync));
}

#[test]
fn joined_parses_start_in_order_until_the_slots_are_full() {
    let needs = JoinCandidate {
        joinable: true,
        has_span: true,
        fits_sync_budget: false,
        job_running: false,
        cache_current: false,
    };
    let fits = JoinCandidate { fits_sync_budget: true, ..needs };
    let cached = JoinCandidate { cache_current: true, ..needs };
    let candidates = vec![fits, needs, cached, needs, needs];
    assert_eq!(MAX_JOINED_PARSE_JOBS, 2);
    assert_eq!(joined_parse_jobs_to_start(0, &candidates), vec![1, 3]);
    assert_eq!(joined_parse_jobs_to_start(1, &candidates), vec![1]);
    assert_eq!(joined_parse_jobs_to_start(2, &candidates), Vec::<usize>::new());
    assert!(matches!(joined_parse_outcome(false, true, true, true), JoinedParseOutcome::Stale));
    assert!(matches!(joined_parse_outcome(true, true, false, true), JoinedParseOutcome::Dropped));
    assert!(accept_joined_parse(true, true, true, true));
    assert!(!accept_joined_parse(true, true, true, false));
}

#[test]
fn a_rename_reserves_the_documents_it_moves_unless_one_is_saving() {
    let session = |path: Option<&str>, busy| SessionActivity {
        path: path.map(str::to_owned),
        busy,
    };
    let sessions = vec![
        session(Some("/w/F/a.md"), false),
        session(None, true),
        session(Some("/w/G/b.md"), true),
        session(Some("/w/F/c.md"), false),
    ];
    assert_eq!(
        rename_ticket_sessions(&sessions, "/w/F", InlineRenameKind::Folder),
        Some(vec![0, 3])
    );
    assert_eq!(
        rename_ticket_sessions(&sessions, "/w/F/c.md", InlineRenameKind::File),
        Some(vec![3])
    );
    assert_eq!(rename_ticket_sessions(&sessions, "/w/G", InlineRenameKind::Folder), None);
}

#[test]
fn a_rename_that_lands_reports_a_recent_files_failure() {
    let mut slot = open_rename("/w/a.md", InlineRenameKind::File);
    let mut status = None;
    finish_inline_rename_field(&mut slot, &mut status, Ok(()), Err("disk full".to_owned()));
    assert!(slot.is_none());
    assert_eq!(status.as_deref(), Some("Recent files failed: disk full"));
}

#[test]
fn loading_paths_defer_a_confirmed_rename() {
    let loading = vec!["/w/F/a.md".to_owned()];
    assert!(rename_blocked_by_loading(&loading, "/w/F", InlineRenameKind::Folder));
    assert!(!rename_blocked_by_loading(&loading, "/w/F", InlineRenameKind::File));
    assert!(rename_blocked_by_loading(&loading, "/w/F/a.md", InlineRenameKind::File));
    assert!(confirm_rename_busy(&loading, "/w/F", InlineRenameKind::Folder, &vec![], &vec![], &vec![]));
    assert!(!confirm_rename_busy(&vec![], "/w/F", InlineRenameKind::Folder, &vec![], &vec![], &vec![]));
}

#[test]
fn a_followed_set_holds_no_path_twice() {
    let remembered = RememberedPaths {
        selected_folder: None,
        expanded_folders: vec!["/w/F".to_owned(), "/w/G".to_owned(), "/w/F/Sub".to_owned()],
        pending_new_folders: vec![],
        draft_directories: vec![],
        loading_paths: vec!["/w/F/x.md".to_owned(), "/w/G/x.md".to_owned()],
        latest_open_target: None,
    };
    let moved = remembered.followed("/w/F", "/w/G", InlineRenameKind::Folder);
    assert_eq!(moved.expanded_folders, vec!["/w/G".to_owned(), "/w/G/Sub".to_owned()]);
    assert_eq!(moved.loading_paths, vec!["/w/G/x.md".to_owned()]);
}

#[test]
fn new_folder_names_avoid_siblings_and_folders_being_created() {
    let siblings = vec!["New Folder".to_owned()];
    let pending = vec!["/w/New Folder 2".to_owned()];
    assert!(new_folder_name_taken(&siblings, &pending, "/w", "New Folder"));
    assert!(new_folder_name_taken(&siblings, &pending, "/w", "New Folder 2"));
    assert!(!new_folder_name_taken(&siblings, &pending, "/w", "New Folder 3"));
}

#[test]
fn title_syncs_wait_for_a_pending_rename() {
    assert!(matches!(title_sync_start(true, true, false, false, false, false), TitleSyncStart::Defer));
    assert!(matches!(title_sync_start(false, true, true, true, true, true), TitleSyncStart::Skip));
    assert!(matches!(title_sync_start(false, false, true, true, false, true), TitleSyncStart::Skip));
    assert!(matches!(title_sync_start(false, false, true, true, true, true), TitleSyncStart::Proceed));
}
