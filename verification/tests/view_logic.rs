use std::path::Path;

use hane_ui::grapheme::{next_inline_rename_boundary, previous_inline_rename_boundary};
use hane_ui::height_blocks::{rebase_ordinal_after_splice, BlockId, HeightBlock, HeightBlocks};
use hane_ui::labels::{
    badge_renders_before_remainder, date_badge_background, header_status_line, DateBadgePosition,
    DateBadgeRange, DATE_BADGE_FOREGROUND, DATE_BADGE_OTHER_BACKGROUND,
    DATE_BADGE_THIS_MONTH_BACKGROUND, DATE_BADGE_THIS_WEEK_BACKGROUND,
    DATE_BADGE_THIS_YEAR_BACKGROUND, DATE_BADGE_TODAY_BACKGROUND,
};
use hane_ui::layout::{
    block_context_revision_is_current, collapsed_boundary_bias, invert_visible_line_prefix, Bias,
    MarkerEdge, Revision, VisualSegment,
};
use hane_ui::paths::{inline_rename_parts, rebase_ui_path, valid_inline_rename_name};
use hane_ui::text_field::{
    inline_rename_cursor, select_inline_rename_to, InlineRename, InlineRenameKind,
};
use hane_ui::utf::inline_rename_selected_range;

fn relative_luminance(color: u32) -> f32 {
    fn linear_channel(channel: u32) -> f32 {
        let srgb = ((channel & 0xff) as f32) / 255.0;
        if srgb <= 0.04045 {
            srgb / 12.92
        } else {
            ((srgb + 0.055) / 1.055).powf(2.4)
        }
    }

    0.2126 * linear_channel(color >> 16)
        + 0.7152 * linear_channel(color >> 8)
        + 0.0722 * linear_channel(color)
}

#[test]
fn date_badge_palette_has_visible_steps_and_readable_light_text() {
    let backgrounds = [
        DATE_BADGE_TODAY_BACKGROUND,
        DATE_BADGE_THIS_WEEK_BACKGROUND,
        DATE_BADGE_THIS_MONTH_BACKGROUND,
        DATE_BADGE_THIS_YEAR_BACKGROUND,
        DATE_BADGE_OTHER_BACKGROUND,
    ];
    let luminances: Vec<_> = backgrounds
        .iter()
        .map(|&background| relative_luminance(background))
        .collect();

    for pair in luminances.windows(2) {
        assert!(
            pair[0] > pair[1],
            "date badge palette must darken in proximity order: {pair:?}"
        );
        assert!(
            pair[0] - pair[1] >= 0.02,
            "adjacent date badge colors are too close: {pair:?}"
        );
    }

    let foreground_luminance = relative_luminance(DATE_BADGE_FOREGROUND);
    for (&background, &background_luminance) in backgrounds.iter().zip(&luminances) {
        let contrast = (foreground_luminance + 0.05) / (background_luminance + 0.05);
        assert!(
            contrast >= 4.5,
            "date badge foreground contrast is too low for {background:#08x}: {contrast:.2}"
        );
    }
}

#[test]
fn the_date_badge_renders_before_the_remainder_only_on_the_left() {
    assert!(badge_renders_before_remainder(DateBadgePosition::Left));
    assert!(!badge_renders_before_remainder(DateBadgePosition::Right));
}

#[test]
fn inline_rename_keeps_markdown_extensions_out_of_the_editable_text() {
    assert_eq!(
        inline_rename_parts("Meeting 2026-09-19.md", InlineRenameKind::File),
        Some(("Meeting 2026-09-19".to_owned(), Some(".md".to_owned())))
    );
    assert_eq!(
        inline_rename_parts("Upper.MD", InlineRenameKind::File),
        Some(("Upper".to_owned(), Some(".MD".to_owned())))
    );
    assert_eq!(
        inline_rename_parts("folder", InlineRenameKind::Folder),
        Some(("folder".to_owned(), None))
    );
}

#[test]
fn inline_rename_movement_uses_grapheme_boundaries() {
    let text = "a\u{301}👩‍💻z";
    let combining_end = "a\u{301}".len();
    let emoji_end = "a\u{301}👩‍💻".len();

    assert_eq!(next_inline_rename_boundary(text, 0), combining_end);
    assert_eq!(previous_inline_rename_boundary(text, combining_end), 0);
    assert_eq!(next_inline_rename_boundary(text, combining_end), emoji_end);
    assert_eq!(
        previous_inline_rename_boundary(text, emoji_end),
        combining_end
    );
    assert_eq!(next_inline_rename_boundary(text, emoji_end), text.len());
}

#[test]
fn inline_rename_shift_home_and_end_extend_from_the_active_caret() {
    let mut forward = InlineRename {
        kind: InlineRenameKind::File,
        from: "note.md".to_owned(),
        text: "abcdef".to_owned(),
        fixed_extension: Some(".md".to_owned()),
        selected_range: 2..4,
        selection_reversed: false,
        marked_range: None,
        composition: None,
        pending: false,
    };
    select_inline_rename_to(&mut forward, 0);
    assert_eq!(forward.selected_range, 0..2);
    assert!(forward.selection_reversed);

    let mut reversed = InlineRename {
        selection_reversed: true,
        ..forward
    };
    reversed.selected_range = 2..4;
    select_inline_rename_to(&mut reversed, 6);
    assert_eq!(reversed.selected_range, 4..6);
    assert!(!reversed.selection_reversed);
}

#[test]
fn inline_rename_rejects_names_that_escape_the_parent_directory() {
    for name in ["", ".", "..", "folder/name", r"folder\name"] {
        assert!(!valid_inline_rename_name(name), "{name:?} must be rejected");
    }
    assert!(valid_inline_rename_name("Meeting 2026-09-19"));
}

#[test]
fn inline_rename_ime_selection_is_relative_to_the_inserted_text() {
    assert_eq!(
        inline_rename_selected_range(6, "かな", Some(1..2), 12..12),
        9..12
    );
    assert_eq!(
        inline_rename_selected_range(6, "かな", None, 12..12),
        12..12
    );
}

#[test]
fn folder_rename_path_rebasing_preserves_unrelated_ui_paths() {
    let root = Path::new("/tmp/hane-217");
    let from = root.join("Project");
    let to = root.join("Renamed");
    let from = from.to_str().unwrap();
    let to_str = to.to_str().unwrap();
    assert_eq!(
        rebase_ui_path(
            Path::new(from).join("Deep/Child.md").to_str().unwrap(),
            from,
            to_str
        ),
        Some(to.join("Deep/Child.md").to_str().unwrap().to_owned())
    );
    assert_eq!(
        rebase_ui_path(root.join("Other").to_str().unwrap(), from, to_str),
        None
    );
}

#[test]
fn visible_line_prefix_inversion_skips_a_long_collapsed_fence_prefix() {
    const COLLAPSED: usize = 5_000;
    const PHYSICAL: usize = 10_000;
    let visible_prefix = |physical: usize| physical.saturating_sub(physical.min(COLLAPSED));

    assert_eq!(
        invert_visible_line_prefix(PHYSICAL, 1, visible_prefix),
        COLLAPSED + 1
    );
    assert_eq!(
        invert_visible_line_prefix(PHYSICAL, 37, visible_prefix),
        COLLAPSED + 37
    );
    assert_eq!(
        invert_visible_line_prefix(PHYSICAL, PHYSICAL, visible_prefix),
        PHYSICAL
    );
}

#[test]
fn block_context_rejects_stale_revision() {
    assert!(block_context_revision_is_current(Revision(4), Revision(4)));
    assert!(!block_context_revision_is_current(Revision(5), Revision(4)));
}

#[test]
fn height_anchor_rebases_without_scanning_untouched_blocks() {
    let inserted = [
        HeightBlock {
            id: BlockId(20),
            line_count: 1,
        },
        HeightBlock {
            id: BlockId(21),
            line_count: 1,
        },
        HeightBlock {
            id: BlockId(22),
            line_count: 1,
        },
    ];
    assert_eq!(
        rebase_ordinal_after_splice(2, Some(BlockId(2)), 4..6, &inserted, 9),
        2
    );
    assert_eq!(
        rebase_ordinal_after_splice(7, Some(BlockId(7)), 4..6, &inserted, 9),
        8
    );
    assert_eq!(
        rebase_ordinal_after_splice(5, Some(BlockId(21)), 4..6, &inserted, 9),
        5
    );
    assert_eq!(
        rebase_ordinal_after_splice(5, Some(BlockId(99)), 4..6, &inserted, 9),
        4
    );
}

#[test]
fn height_block_metadata_splices_across_chunk_boundaries() {
    let mut flat = (0..300)
        .map(|id| HeightBlock {
            id: BlockId(id),
            line_count: id as usize % 5 + 1,
        })
        .collect::<Vec<_>>();
    let mut blocks = HeightBlocks::from_iter(flat.clone());
    let inserted = [
        HeightBlock {
            id: BlockId(1_000),
            line_count: 2,
        },
        HeightBlock {
            id: BlockId(1_001),
            line_count: 3,
        },
        HeightBlock {
            id: BlockId(1_002),
            line_count: 4,
        },
    ];
    flat.splice(127..131, inserted);
    blocks.splice(127..131, &inserted);
    assert_eq!(blocks.len(), flat.len());
    assert!(blocks.range_eq(0..flat.len(), &flat));
    assert_eq!(blocks.get(126), flat.get(126).copied());
    assert_eq!(blocks.get(130), flat.get(130).copied());
}

#[test]
fn header_status_line_combines_warning_and_status_without_dropping_either() {
    assert_eq!(header_status_line(None, None), None);
    assert_eq!(
        header_status_line(Some("2 drafts could not be recovered"), None),
        Some("2 drafts could not be recovered".to_owned())
    );
    assert_eq!(
        header_status_line(None, Some("Opened")),
        Some("Opened".to_owned())
    );
    assert_eq!(
        header_status_line(
            Some("2 drafts could not be recovered"),
            Some("Save failed: disk full")
        ),
        Some("2 drafts could not be recovered · Save failed: disk full".to_owned())
    );
}

#[test]
fn date_badge_background_follows_the_range() {
    assert_eq!(date_badge_background(DateBadgeRange::Today), 0x44779e);
    assert_eq!(date_badge_background(DateBadgeRange::ThisWeek), 0x356d94);
    assert_eq!(date_badge_background(DateBadgeRange::ThisMonth), 0x2e6287);
    assert_eq!(date_badge_background(DateBadgeRange::ThisYear), 0x285878);
    assert_eq!(date_badge_background(DateBadgeRange::Other), 0x214c68);
}

#[test]
fn badge_palette_darkens_channel_by_channel() {
    let tiers = [
        DateBadgeRange::Today,
        DateBadgeRange::ThisWeek,
        DateBadgeRange::ThisMonth,
        DateBadgeRange::ThisYear,
        DateBadgeRange::Other,
    ];
    for pair in tiers.windows(2) {
        let near = date_badge_background(pair[0]);
        let far = date_badge_background(pair[1]);
        for shift in [16, 8, 0] {
            assert!((far >> shift) & 0xff < (near >> shift) & 0xff);
            assert!((near >> shift) & 0xff < (DATE_BADGE_FOREGROUND >> shift) & 0xff);
        }
    }
}

#[test]
fn the_caret_is_the_moving_end_of_the_selection() {
    let mut rename = InlineRename::new(
        InlineRenameKind::File,
        "a/b.md".to_owned(),
        "abcdef".to_owned(),
        Some(".md".to_owned()),
    );
    assert_eq!(rename.selected_range, 0..6);
    assert_eq!(inline_rename_cursor(&rename), 6);
    rename.selection_reversed = true;
    assert_eq!(inline_rename_cursor(&rename), 0);
}

#[test]
fn inverting_an_empty_prefix_is_zero() {
    assert_eq!(invert_visible_line_prefix(10, 0, |line: usize| line), 0);
    assert_eq!(invert_visible_line_prefix(10, 4, |_line: usize| 0), 0);
    assert_eq!(invert_visible_line_prefix(10, 4, |line: usize| line), 4);
    assert_eq!(invert_visible_line_prefix(10, 40, |line: usize| line), 10);
    assert_eq!(invert_visible_line_prefix(0, 4, |line: usize| line), 0);
}

#[test]
fn collapsed_boundaries_resolve_by_row_edge_then_by_marker() {
    let opening = VisualSegment {
        visual_start: 4,
        visual_end: 4,
        hidden_markup: true,
        marker_edge: Some(MarkerEdge::Opening),
    };
    let closing = VisualSegment {
        visual_start: 8,
        visual_end: 8,
        hidden_markup: true,
        marker_edge: Some(MarkerEdge::Closing),
    };
    let segments = vec![opening, closing];
    assert_eq!(collapsed_boundary_bias(12, &segments, 4, None), Bias::After);
    assert_eq!(collapsed_boundary_bias(12, &segments, 8, None), Bias::Before);
    assert_eq!(collapsed_boundary_bias(12, &segments, 6, None), Bias::Before);
    assert_eq!(collapsed_boundary_bias(12, &segments, 8, Some(&(8..12))), Bias::After);
    assert_eq!(collapsed_boundary_bias(12, &segments, 4, Some(&(0..4))), Bias::Before);
    assert_eq!(collapsed_boundary_bias(12, &segments, 12, Some(&(4..12))), Bias::Before);
    assert_eq!(collapsed_boundary_bias(12, &segments, 0, Some(&(0..4))), Bias::Before);
    let shown = VisualSegment {
        hidden_markup: false,
        ..opening
    };
    assert_eq!(collapsed_boundary_bias(12, &vec![shown], 4, None), Bias::Before);
}
