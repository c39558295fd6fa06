use hane_ui::text_field::{InlineRename, InlineRenameKind, SidebarFilter};
use hane_ui::utf::{
    byte_offset_from_utf16, byte_range_from_utf16, range_to_utf16, utf16_offset_from_byte,
};

fn rename_of(text: &str) -> InlineRename {
    InlineRename::new(
        InlineRenameKind::File,
        format!("/notes/{text}.md"),
        text.to_owned(),
        Some(".md".to_owned()),
    )
}

fn focused_filter(text: &str) -> SidebarFilter {
    let mut filter = SidebarFilter::new();
    filter.focus(None);
    assert!(filter.replace_text(None, text));
    filter
}

#[test]
fn ime_selection_is_relative_to_the_marked_replacement() {
    let mut rename = rename_of("AlphaBeta");
    assert!(rename.replace_and_mark_text(Some(5..5), "日本", Some(1..1)));
    assert_eq!(rename.text, "Alpha日本Beta");
    assert_eq!(rename.selection_utf16().0, 6..6);
    assert_eq!(rename.marked_range, Some(5..11));
    assert_eq!(rename.marked_range_utf16(), Some(5..7));
}

#[test]
fn escape_cancels_the_composition_and_restores_the_name() {
    let mut rename = rename_of("Alpha");
    assert!(rename.replace_and_mark_text(None, "かな", Some(2..2)));
    assert!(rename.has_composition());
    assert_eq!(rename.text, "かな");
    assert!(rename.replace_and_mark_text(None, "仮名", None));
    assert_eq!(rename.text, "仮名");
    assert!(rename.cancel_composition());
    assert!(!rename.has_composition());
    assert_eq!(rename.text, "Alpha");
    assert_eq!(rename.selected_range, 0..5);
    assert_eq!(rename.marked_range, None);
    assert!(!rename.cancel_composition());
}

#[test]
fn enter_commits_the_composition_as_composed() {
    let mut rename = rename_of("Alpha");
    assert!(rename.replace_and_mark_text(None, "日本", Some(2..2)));
    assert!(rename.commit_composition());
    assert!(!rename.has_composition());
    assert_eq!(rename.text, "日本");
    assert_eq!(rename.marked_range, None);
    assert_eq!(rename.selected_range, 6..6);
    assert!(!rename.commit_composition());
}

#[test]
fn typing_replaces_the_selection_and_drops_line_breaks() {
    let mut rename = rename_of("Alpha");
    assert!(rename.replace_text(None, "Be\nta\r"));
    assert_eq!(rename.text, "Beta");
    assert_eq!(rename.selected_range, 4..4);
    assert!(!rename.selection_reversed);
    assert!(rename.replace_text(Some(0..2), "Ze"));
    assert_eq!(rename.text, "Zeta");
    assert_eq!(rename.selected_range, 2..2);
}

#[test]
fn a_pending_rename_takes_no_edits() {
    let mut rename = rename_of("Alpha");
    rename.pending = true;
    assert!(rename.replace_text(None, "x"));
    assert!(rename.replace_and_mark_text(None, "x", None));
    assert!(!rename.has_composition());
    assert!(!rename.move_horizontal(true, false));
    assert!(!rename.select_all());
    assert!(!rename.select_to_edge(true));
    assert!(!rename.move_to_edge(false));
    assert!(!rename.delete_with_direction(true));
    assert!(!rename.move_to_utf16(1));
    assert_eq!(rename.text, "Alpha");
    assert_eq!(rename.selected_range, 0..5);
}

#[test]
fn backspace_and_delete_remove_whole_graphemes() {
    let mut rename = rename_of("a\u{301}b👩‍💻");
    assert!(rename.move_to_edge(true));
    assert!(rename.delete_with_direction(true));
    assert_eq!(rename.text, "a\u{301}b");
    assert!(rename.move_to_edge(false));
    assert!(rename.delete_with_direction(false));
    assert_eq!(rename.text, "b");
    assert_eq!(rename.selected_range, 0..0);
}

#[test]
fn deleting_a_selection_removes_exactly_it() {
    let mut rename = rename_of("abcdef");
    assert!(rename.move_to_utf16(1));
    assert!(rename.move_horizontal(true, true));
    assert!(rename.move_horizontal(true, true));
    assert_eq!(rename.selected_range, 1..3);
    assert_eq!(rename.selected_text(), Some("bc".to_owned()));
    assert!(rename.delete_with_direction(false));
    assert_eq!(rename.text, "adef");
    assert_eq!(rename.selected_range, 1..1);
    assert_eq!(rename.selected_text(), None);
}

#[test]
fn plain_arrows_collapse_a_selection_to_its_side() {
    let mut rename = rename_of("abcdef");
    assert!(rename.move_horizontal(false, false));
    assert_eq!(rename.selected_range, 0..0);
    assert!(rename.select_all());
    assert!(rename.move_horizontal(true, false));
    assert_eq!(rename.selected_range, 6..6);
    assert!(rename.move_horizontal(false, false));
    assert_eq!(rename.selected_range, 5..5);
}

#[test]
fn shift_arrows_extend_and_flip_across_the_anchor() {
    let mut rename = rename_of("abcd");
    assert!(rename.move_to_utf16(2));
    rename.select_horizontal(false);
    assert_eq!(rename.selected_range, 1..2);
    assert!(rename.selection_reversed);
    rename.select_horizontal(true);
    rename.select_horizontal(true);
    assert_eq!(rename.selected_range, 2..3);
    assert!(!rename.selection_reversed);
    assert!(rename.select_to_edge(false));
    assert_eq!(rename.selected_range, 0..2);
    assert!(rename.selection_reversed);
}

#[test]
fn clicks_land_on_utf16_offsets_snapped_to_characters() {
    let mut rename = rename_of("a😀b");
    assert!(rename.move_to_utf16(2));
    assert_eq!(rename.selected_range, 5..5);
    assert_eq!(rename.selection_utf16(), (3..3, false));
    assert_eq!(
        rename.text_for_range(1..3),
        ("😀".to_owned(), 1..3)
    );
    assert!(rename.replace_and_mark_text(None, "x", None));
    assert!(!rename.move_to_utf16(0));
}

#[test]
fn the_render_state_is_what_the_field_holds() {
    let rename = rename_of("Alpha");
    let state = rename.render_state();
    assert_eq!(state.text, "Alpha");
    assert_eq!(state.selected_range, 0..5);
    assert!(!state.selection_reversed);
    assert_eq!(state.marked_range, None);
}

#[test]
fn an_unfocused_filter_ignores_input_and_shows_no_selection() {
    let mut filter = SidebarFilter::new();
    assert!(!filter.replace_text(None, "x"));
    assert!(!filter.replace_and_mark_text(None, "x", None));
    assert!(!filter.move_horizontal(true, false));
    assert!(!filter.select_horizontal(true));
    assert!(!filter.select_all());
    assert!(!filter.select_to_edge(true));
    assert!(!filter.move_to_edge(true));
    assert!(!filter.delete_with_direction(true));
    assert!(!filter.blur());
    assert_eq!(filter.selection_utf16(), None);
    assert_eq!(filter.text, "");
    let state = filter.render_state();
    assert_eq!(state.selected_range, 0..0);
    assert_eq!(state.marked_range, None);
}

#[test]
fn focusing_the_filter_selects_it_and_a_second_click_places_the_caret() {
    let mut filter = focused_filter("notes");
    assert!(filter.blur());
    assert!(!filter.focused);
    filter.focus(Some(2));
    assert!(filter.focused);
    assert_eq!(filter.selected_range, 0..5);
    filter.focus(Some(2));
    assert_eq!(filter.selected_range, 2..2);
    filter.focus(None);
    assert_eq!(filter.selected_range, 2..2);
    assert_eq!(filter.selection_utf16(), Some((2..2, false)));
}

#[test]
fn the_filter_edits_like_the_rename_field() {
    let mut filter = focused_filter("meeting");
    assert_eq!(filter.selected_range, 7..7);
    assert!(filter.delete_with_direction(true));
    assert_eq!(filter.text, "meetin");
    assert!(filter.select_to_edge(false));
    assert_eq!(filter.selected_text(), Some("meetin".to_owned()));
    assert!(filter.replace_and_mark_text(None, "会議", Some(0..1)));
    assert_eq!(filter.selected_range, 0..3);
    assert_eq!(filter.marked_range, Some(0..6));
    assert!(filter.cancel_composition());
    assert_eq!(filter.text, "meetin");
    assert!(filter.replace_and_mark_text(None, "会議", None));
    assert!(filter.commit_composition());
    assert_eq!(filter.text, "会議");
    assert!(filter.select_all());
    assert_eq!(filter.selected_range, 0..6);
    assert_eq!(filter.text_for_range(1..2), ("議".to_owned(), 1..2));
}

#[test]
fn blurring_the_filter_drops_the_composition_as_it_stands() {
    let mut filter = focused_filter("");
    assert!(filter.replace_and_mark_text(None, "かな", None));
    assert!(filter.has_composition());
    assert!(filter.blur());
    assert!(!filter.has_composition());
    assert_eq!(filter.marked_range, None);
    assert_eq!(filter.text, "かな");
}

#[test]
fn utf16_and_byte_offsets_round_trip_on_character_boundaries() {
    let text = "a😀bé";
    for byte in [0, 1, 5, 6, 8] {
        assert_eq!(byte_offset_from_utf16(text, utf16_offset_from_byte(text, byte)), byte);
    }
    assert_eq!(utf16_offset_from_byte(text, 2), 3);
    assert_eq!(byte_offset_from_utf16(text, 2), 5);
    assert_eq!(byte_offset_from_utf16(text, 99), text.len());
    assert_eq!(byte_range_from_utf16(text, &(1..4)), 1..6);
    assert_eq!(range_to_utf16(text, &(1..6)), 1..4);
}

#[test]
fn a_field_reports_whether_it_is_in_step_with_its_text() {
    let mut rename = rename_of("a😀b");
    assert!(rename.well_formed());
    rename.selected_range = 2..2;
    assert!(!rename.well_formed());
    rename.selected_range = 5..1;
    assert!(!rename.well_formed());
    rename.selected_range = 1..5;
    rename.marked_range = Some(0..1);
    assert!(!rename.well_formed());
    let filter = SidebarFilter::new();
    assert!(filter.well_formed());
}
