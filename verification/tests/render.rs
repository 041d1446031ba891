use andamento::model::{
    Priority, StatusIcon, TabStatusSummary, GroupPath, GroupSegment, MetadataIdentity, MetadataPathSegmentValue, MetadataPathValue,
    MetadataValue, PaneTarget, ReachableMetadataIdentity,
};
use andamento::render::{
    absolute_viewport_start, append_meta_panel, ensure_visible_start, format_group_path,
    format_metadata_value, format_pane_target, group_segment_label, middle_elide_to_width,
    push_aligned_table, push_metadata_section_header, push_metadata_text_line,
    push_reachable_identity_lines, render_strip_segment, truncate_to_width, wrap_to_width,
    body_line, body_lines, hit_at, status_icon_rect, SizeInPixels, ColumnAlign, RenderedRail, HitAction, HitRegion, PaletteColor, RenderTheme, TableColumn,
};
use andamento::segment_bar::SegmentItem;
use andamento::text::visible_width_without_ansi;

fn test_theme() -> RenderTheme {
    RenderTheme {
        active_border: PaletteColor::EightBit(2),
        inactive_border: PaletteColor::EightBit(8),
        body_foreground: PaletteColor::EightBit(7),
        segment_active_background: PaletteColor::EightBit(10),
        segment_active_foreground: PaletteColor::EightBit(11),
        segment_inactive_background: PaletteColor::EightBit(12),
        segment_inactive_foreground: PaletteColor::EightBit(13),
        segment_between_background: PaletteColor::EightBit(14),
    }
}

#[test]
fn absolute_viewport_base_clamps_to_content_bounds() {
    assert_eq!(absolute_viewport_start(-4, 12), 0);
    assert_eq!(absolute_viewport_start(7, 12), 7);
    assert_eq!(absolute_viewport_start(40, 12), 12);
}

#[test]
fn ensure_visible_moves_only_far_enough_to_reveal_target() {
    assert_eq!(ensure_visible_start(10, 5, 7, 6, 30), 5);
    assert_eq!(ensure_visible_start(10, 18, 20, 6, 30), 15);
    assert_eq!(ensure_visible_start(10, 9, 10, 6, 30), 10);
    assert_eq!(ensure_visible_start(10, 15, 17, 6, 30), 10);
}

#[test]
fn themed_strip_segment_truncates_before_styling_when_narrow() {
    let item = SegmentItem {
        label: "repo-overview".to_owned(),
        active: true,
    };

    let (segment, visible_width) = render_strip_segment(&item, 3, Some(test_theme()));

    assert_eq!(visible_width, 3);
    assert_eq!(visible_width_without_ansi(&segment), 3);
}

#[test]
fn append_meta_panel_emits_red_bar_and_content() {
    let mut lines: Vec<String> = vec![];
    let panel_lines = vec!["group: zellij".to_owned(), "  [metadata]".to_owned()];
    append_meta_panel(&mut lines, 2, 30, panel_lines, None);
    assert_eq!(lines.len(), 2);
    assert!(
        lines[0].starts_with("  │ group: zellij"),
        "got {:?}",
        lines[0]
    );
    assert!(
        lines[1].starts_with("  │   [metadata]"),
        "got {:?}",
        lines[1]
    );
}

#[test]
fn meta_panel_without_room_for_content_keeps_the_bar() {
    let mut lines: Vec<String> = vec!["keep".to_owned()];
    append_meta_panel(&mut lines, 2, 4, vec!["x".to_owned(), "y".to_owned()], None);
    assert_eq!(lines, vec!["keep".to_owned(), "  │ ".to_owned(), "  │ ".to_owned()]);
}

#[test]
fn themed_meta_panel_bar_is_red_and_bold() {
    let mut lines: Vec<String> = vec![];
    append_meta_panel(&mut lines, 0, 10, vec!["a".to_owned()], Some(test_theme()));
    assert!(lines[0].starts_with("\u{1b}[1;31m│\u{1b}[0m"), "got {:?}", lines[0]);
}

#[test]
fn plain_strip_segment_is_the_spaced_label() {
    let item = SegmentItem {
        label: "main".to_owned(),
        active: false,
    };
    let (segment, visible_width) = render_strip_segment(&item, 20, None);
    assert_eq!(segment, " main ");
    assert_eq!(visible_width, 8);
    assert_eq!(render_strip_segment(&item, 0, None), (String::new(), 0));
}

#[test]
fn truncation_ends_with_dots() {
    assert_eq!(truncate_to_width("abcdefgh", 8), "abcdefgh");
    assert_eq!(truncate_to_width("abcdefgh", 6), "abc...");
    assert_eq!(truncate_to_width("abcdefgh", 2), "..");
}

#[test]
fn middle_elision_keeps_both_ends() {
    assert_eq!(middle_elide_to_width("abcdefghij", 10), "abcdefghij");
    let elided = middle_elide_to_width("abcdefghij", 7);
    assert_eq!(elided.chars().count(), 7);
    assert!(elided.starts_with('a'));
    assert!(elided.ends_with('j'));
    assert!(elided.contains('…'));
}

#[test]
fn wrapping_fills_exactly_the_requested_lines() {
    let lines = wrap_to_width("needs a fairly long approval before continuing", 18, 4);
    assert_eq!(
        lines,
        vec![
            "needs a fairly".to_owned(),
            "long approval".to_owned(),
            "before continuing".to_owned(),
            String::new(),
        ]
    );
    assert_eq!(wrap_to_width("a b", 0, 2), vec![String::new(), String::new()]);
    assert!(wrap_to_width("a b", 5, 0).is_empty());
}

#[test]
fn wrapping_stops_at_the_last_line_and_cuts_long_words() {
    let lines = wrap_to_width("one two three four", 4, 2);
    assert_eq!(lines, vec!["one".to_owned(), "two".to_owned()]);
    let lines = wrap_to_width("extraordinary", 6, 1);
    assert_eq!(lines, vec!["ext...".to_owned()]);
}

#[test]
fn aligned_table_drops_empty_columns_and_aligns_the_rest() {
    let columns = [
        TableColumn { header: "key", align: ColumnAlign::Left },
        TableColumn { header: "empty", align: ColumnAlign::Left },
        TableColumn { header: "n", align: ColumnAlign::Right },
    ];
    let rows = vec![
        vec!["alpha".to_owned(), String::new(), "7".to_owned()],
        vec!["b".to_owned(), String::new(), "123".to_owned()],
    ];
    let mut lines = vec![];
    push_aligned_table(&mut lines, 1, &columns, &rows);
    assert_eq!(
        lines,
        vec![
            " key      n".to_owned(),
            " alpha    7".to_owned(),
            " b      123".to_owned(),
        ]
    );
    let mut none = vec![];
    push_aligned_table(&mut none, 0, &columns, &[]);
    assert!(none.is_empty());
}

#[test]
fn metadata_values_read_as_text() {
    assert_eq!(format_metadata_value(&MetadataValue::Text("x".to_owned())), "x");
    assert_eq!(format_metadata_value(&MetadataValue::Bool(true)), "true");
    assert_eq!(format_metadata_value(&MetadataValue::Integer(-42)), "-42");
    assert_eq!(format_metadata_value(&MetadataValue::Integer(i64::MIN)), i64::MIN.to_string());
    assert_eq!(
        format_metadata_value(&MetadataValue::StringList(vec!["a".to_owned(), "b".to_owned()])),
        "a, b"
    );
    let path = MetadataValue::GroupPath(vec![
        MetadataPathSegmentValue {
            key: "repo".to_owned(),
            value: MetadataPathValue::Text("zellij".to_owned()),
            label: None,
        },
        MetadataPathSegmentValue {
            key: "branch".to_owned(),
            value: MetadataPathValue::Integer(3),
            label: Some("main".to_owned()),
        },
    ]);
    assert_eq!(format_metadata_value(&path), "zellij / main");
}

#[test]
fn group_paths_and_pane_targets_read_as_text() {
    let path = GroupPath(vec![
        GroupSegment {
            key: "git.repo".to_owned(),
            value: MetadataValue::Text("zellij".to_owned()),
            label: Some("Zellij".to_owned()),
        },
        GroupSegment {
            key: "pr".to_owned(),
            value: MetadataValue::Integer(12),
            label: None,
        },
    ]);
    assert_eq!(format_group_path(&path), "git.repo=zellij / pr=12");
    assert_eq!(group_segment_label(&path.0[0]), "Zellij");
    assert_eq!(group_segment_label(&path.0[1]), "12");
    assert_eq!(format_pane_target(PaneTarget::Terminal(3)), "terminal:3");
    assert_eq!(format_pane_target(PaneTarget::Plugin(40)), "plugin:40");
}

#[test]
fn metadata_lines_and_reachable_identity_table() {
    let mut lines = vec![];
    push_metadata_section_header(&mut lines, 2, "metadata");
    push_metadata_text_line(&mut lines, 4, "key", "value");
    assert_eq!(lines, vec!["  [metadata]".to_owned(), "    key: value".to_owned()]);

    let mut lines = vec![];
    push_reachable_identity_lines(&mut lines, 0, &[]);
    assert!(lines.is_empty());
    let reachable = vec![ReachableMetadataIdentity {
        identity: MetadataIdentity {
            key: "git.repo".to_owned(),
            value: MetadataValue::Text("zellij".to_owned()),
        },
        distance: 2,
    }];
    push_reachable_identity_lines(&mut lines, 0, &reachable);
    assert_eq!(
        lines,
        vec![
            "[reachable_identities]".to_owned(),
            "  identity  value   distance".to_owned(),
            "  git.repo  zellij         2".to_owned(),
        ]
    );
}

fn region(row_start: usize, row_end: usize, col_start: usize, col_end: usize, action: HitAction) -> HitRegion {
    HitRegion {
        row_start,
        row_end,
        col_start,
        col_end,
        tab_id: 1,
        tab_position: 0,
        group_path: None,
        action,
    }
}

#[test]
fn the_smallest_region_under_a_click_wins_and_later_ties_win() {
    let regions = vec![
        region(0, 4, 0, 19, HitAction::SwitchTab),
        region(1, 1, 18, 18, HitAction::InspectNode),
        region(1, 1, 18, 18, HitAction::TogglePin),
    ];
    assert_eq!(hit_at(&regions, 1, 18).map(|hit| hit.action), Some(HitAction::TogglePin));
    assert_eq!(hit_at(&regions, 2, 5).map(|hit| hit.action), Some(HitAction::SwitchTab));
    assert!(hit_at(&regions, 9, 5).is_none());
}

fn status(icon: Option<StatusIcon>) -> TabStatusSummary {
    TabStatusSummary {
        priority: Priority::Waiting,
        title: "Helper waiting".to_owned(),
        detail: None,
        icon,
        source_pane: PaneTarget::Terminal(1),
    }
}

#[test]
fn status_icons_take_a_square_beside_the_body() {
    let png = status(Some(StatusIcon::PngFile("/tmp/waiting.png".to_owned())));
    let rect = status_icon_rect(&png, 3, 2, 24, None).expect("placed");
    assert_eq!((rect.x, rect.y, rect.columns, rect.rows), (1, 4, 2, 2));
    let cell = Some(SizeInPixels { height: 20, width: 10 });
    let rect = status_icon_rect(&png, 0, 2, 24, cell).expect("placed");
    assert_eq!(rect.columns, 4);
    assert!(status_icon_rect(&png, 0, 2, 5, cell).is_none());
    assert!(status_icon_rect(&png, 0, 0, 24, None).is_none());
    let builtin = status(Some(StatusIcon::Builtin("spinner".to_owned())));
    assert!(status_icon_rect(&builtin, 0, 2, 24, None).is_none());
}

#[test]
fn words_are_runs_between_white_space() {
    assert_eq!(
        andamento::text::split_words("  one\ttwo\u{3000}three \n"),
        vec!["one".to_owned(), "two".to_owned(), "three".to_owned()]
    );
    assert!(andamento::text::split_words(" \n ").is_empty());
}

#[test]
fn body_lines_sit_between_side_borders_in_a_box() {
    assert_eq!(body_line("waiting: input", 10, true, false, None, true), "│waiti...│");
    assert_eq!(body_line("ok", 6, true, false, None, true), "│ok  │");
    assert_eq!(body_line("ok", 1, true, false, None, true), "│");
    assert_eq!(body_line("ok", 0, true, false, None, true), "");
    assert_eq!(body_line("ok", 4, false, false, None, false), "ok  ");
    assert_eq!(body_line("ok", 4, false, true, None, false), "\u{1b}[2mok  \u{1b}[0m");
    assert_eq!(
        body_line("ok", 4, true, false, Some(test_theme()), true),
        "\u{1b}[1;38;5;2m│\u{1b}[0m\u{1b}[38;5;7mok\u{1b}[0m\u{1b}[1;38;5;2m│\u{1b}[0m"
    );
}

#[test]
fn status_text_wraps_next_to_full_height_icon() {
    let png = status(Some(StatusIcon::PngFile("/tmp/waiting.png".to_owned())));
    let lines = body_lines(
        Some(&png),
        None,
        "Helper waiting: needs a fairly long approval before continuing",
        0,
        4,
        24,
        None,
    );
    assert_eq!(
        lines,
        vec![
            "     Helper waiting:".to_owned(),
            "     needs a fairly".to_owned(),
            "     long approval".to_owned(),
            "     before continuing".to_owned(),
        ]
    );
}

#[test]
fn builtin_icon_key_does_not_reserve_space_until_an_asset_exists() {
    let builtin = status(Some(StatusIcon::Builtin("waiting".to_owned())));
    let lines = body_lines(Some(&builtin), None, "waiting: input", 0, 3, 24, None);
    assert_eq!(lines[0], "waiting: input");
}

#[test]
fn status_icon_slot_uses_terminal_cell_aspect_ratio() {
    let png = status(Some(StatusIcon::PngFile("/tmp/waiting.png".to_owned())));
    let cell = Some(SizeInPixels { width: 9, height: 18 });
    assert_eq!(
        status_icon_rect(&png, 0, 4, 24, cell).map(|rect| (rect.x, rect.y, rect.columns, rect.rows)),
        Some((1, 1, 8, 4))
    );
    let lines = body_lines(Some(&png), None, "waiting", 0, 4, 24, cell);
    assert_eq!(lines[0], "         waiting");
}

#[test]
fn latent_cards_show_their_summary_and_empty_cards_stay_blank() {
    let lines = body_lines(None, Some("1 vessel ready"), "", 0, 2, 12, None);
    assert_eq!(lines, vec!["1 vessel".to_owned(), "ready".to_owned()]);
    let lines = body_lines(None, None, "", 0, 2, 12, None);
    assert_eq!(lines, vec![String::new(), String::new()]);
}

fn rendered_with_heights(content_height: usize, available_rows: usize) -> RenderedRail {
    RenderedRail {
        lines: Vec::new(),
        hit_regions: Vec::new(),
        visible_cards: Vec::new(),
        content_height,
        available_rows,
        ensure_visible_offset: None,
        ensure_active_resolved: false,
    }
}

#[test]
fn rendered_rail_scrolls_only_when_content_overflows() {
    assert!(rendered_with_heights(12, 10).can_scroll());
    assert!(!rendered_with_heights(10, 10).can_scroll());
    assert!(!rendered_with_heights(3, 10).can_scroll());
}
