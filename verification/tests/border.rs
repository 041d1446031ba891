use andamento::border::{BorderHitPayload, BorderRow};
use andamento::render::{BorderKind, HitAction};

#[test]
fn border_row_zero_width_emits_empty_string() {
    let line = BorderRow::new(
        0,
        BorderKind::Top {
            active: true,
            first_cell: true,
        },
    )
    .into_line(None);
    assert_eq!(line, "");
    let line = BorderRow::new(0, BorderKind::Bottom { active: false }).into_line(None);
    assert_eq!(line, "");
    let line = BorderRow::new(0, BorderKind::Footer).into_line(None);
    assert_eq!(line, "");
}

#[test]
fn border_row_width_one_emits_left_corner_only() {
    let line = BorderRow::new(
        1,
        BorderKind::Top {
            active: true,
            first_cell: true,
        },
    )
    .into_line(None);
    assert_eq!(line, "┌");
    let line = BorderRow::new(1, BorderKind::Bottom { active: true }).into_line(None);
    assert_eq!(line, "└");
}

#[test]
fn border_row_top_with_title_matches_old_format() {
    let mut row = BorderRow::new(
        20,
        BorderKind::Top {
            active: true,
            first_cell: true,
        },
    );
    row.title("zellij");
    let line = row.into_line(None);
    assert_eq!(line, "┌ zellij ──────────┐");
}

#[test]
fn border_row_top_continuation_uses_t_corners() {
    let mut row = BorderRow::new(
        10,
        BorderKind::Top {
            active: true,
            first_cell: false,
        },
    );
    row.title("x");
    let line = row.into_line(None);
    assert_eq!(line, "├ x ─────┤");
}

#[test]
fn border_row_bottom_has_no_title_slot() {
    let line = BorderRow::new(10, BorderKind::Bottom { active: false }).into_line(None);
    assert_eq!(line, "└────────┘");
}

#[test]
fn border_row_title_truncates_to_fit() {
    let mut row = BorderRow::new(
        8,
        BorderKind::Top {
            active: false,
            first_cell: true,
        },
    );
    row.title("a-very-long-title-here");
    let line = row.into_line(None);
    assert_eq!(line.chars().count(), 8);
    assert!(line.starts_with('┌'));
    assert!(line.ends_with('┐'));
}

#[test]
fn border_row_footer_places_gear_and_scroll_arrows() {
    let mut footer = BorderRow::new(10, BorderKind::Footer);
    footer.place_left(0, '⚙', None, "gear");
    footer.place_right(1, '▲', None, "up");
    footer.place_right(0, '▼', None, "down");
    let line = footer.into_line(None);
    assert_eq!(line, "⚙       ▲▼");
}

#[test]
fn border_row_footer_emits_hit_regions_at_correct_columns() {
    let mut footer = BorderRow::new(10, BorderKind::Footer);
    footer.place_left(
        0,
        '⚙',
        Some((HitAction::OpenConfig, BorderHitPayload::none())),
        "gear",
    );
    footer.place_right(
        1,
        '▲',
        Some((HitAction::ScrollRailUp, BorderHitPayload::none())),
        "up",
    );
    footer.place_right(
        0,
        '▼',
        Some((HitAction::ScrollRailDown, BorderHitPayload::none())),
        "down",
    );
    let (_, hits) = footer.finish(7, None);
    assert_eq!(hits.len(), 3);
    assert_eq!(hits[0].row_start, 7);
    assert_eq!(hits[0].col_start, 0);
    assert_eq!(hits[0].action, HitAction::OpenConfig);
    assert_eq!(hits[1].col_start, 8);
    assert_eq!(hits[1].action, HitAction::ScrollRailUp);
    assert_eq!(hits[2].col_start, 9);
    assert_eq!(hits[2].action, HitAction::ScrollRailDown);
}

#[test]
fn border_row_top_decoration_then_title_fills_around_it() {
    let mut row = BorderRow::new(
        20,
        BorderKind::Top {
            active: true,
            first_cell: true,
        },
    );
    row.place_right(0, '○', None, "tristate");
    row.title("tab");
    let line = row.into_line(None);
    assert_eq!(line, "┌ tab ────────────○┐");
}

#[test]
fn border_row_title_skips_claimed_left_cells() {
    let mut row = BorderRow::new(
        20,
        BorderKind::Top {
            active: true,
            first_cell: true,
        },
    );
    row.place_left(0, '◇', None, "root_toggle");
    row.title("tab");
    let line = row.into_line(None);
    assert_eq!(line, "┌◇ tab ────────────┐");
}

#[test]
fn border_row_reports_free_cells_and_ignores_offsets_past_the_corners() {
    let mut row = BorderRow::new(6, BorderKind::Bottom { active: false });
    assert_eq!(row.inner_range(), (1, 5));
    assert!(row.left_cell_is_available(0));
    assert!(row.right_cell_is_available(3));
    assert!(!row.right_cell_is_available(4));
    row.place_right(9, 'x', None, "far");
    row.place_right(0, 'x', None, "near");
    assert!(!row.right_cell_is_available(0));
    assert_eq!(row.into_line(None), "└───x┘");
}

#[test]
fn themed_border_row_styles_each_run_once() {
    let theme = andamento::render::RenderTheme {
        active_border: andamento::render::PaletteColor::EightBit(2),
        inactive_border: andamento::render::PaletteColor::EightBit(8),
        body_foreground: andamento::render::PaletteColor::EightBit(7),
        segment_active_background: andamento::render::PaletteColor::EightBit(10),
        segment_active_foreground: andamento::render::PaletteColor::EightBit(11),
        segment_inactive_background: andamento::render::PaletteColor::EightBit(12),
        segment_inactive_foreground: andamento::render::PaletteColor::EightBit(13),
        segment_between_background: andamento::render::PaletteColor::EightBit(14),
    };
    let line = BorderRow::new(4, BorderKind::Bottom { active: true }).into_line(Some(theme));
    assert_eq!(line, "\u{1b}[1;38;5;2m└──┘\u{1b}[0m");
}

#[test]
fn bottom_lines_are_borders_only_for_boxed_cards() {
    assert_eq!(
        andamento::border::bottom_border_line(5, false, None, true),
        "└───┘"
    );
    assert_eq!(andamento::border::bottom_border_line(3, true, None, false), "   ");
}

fn bordered_tab(position: usize, active: bool) -> andamento::border::BorderedTab {
    andamento::border::BorderedTab {
        tab_id: 7,
        position,
        active,
        latent: false,
    }
}

#[test]
fn tab_top_border_places_selected_inspect_glyph() {
    let mut lines = vec![" ".repeat(20); 1];
    let mut hits = vec![];
    andamento::border::write_tab_top_border(
        &mut lines,
        &mut hits,
        0,
        "tab",
        20,
        true,
        &bordered_tab(0, true),
        None,
        true,
        false,
        true,
    );
    assert!(lines[0].ends_with("●┐"), "got {:?}", lines[0]);
    let cycle_hit = hits
        .iter()
        .find(|h| h.action == HitAction::InspectNode)
        .expect("inspect hit emitted");
    assert_eq!(cycle_hit.col_start, 18);
    assert_eq!(cycle_hit.tab_id, 7);
}

#[test]
fn tab_top_border_places_unselected_inspect_glyph() {
    let mut lines = vec![" ".repeat(20); 1];
    let mut hits = vec![];
    andamento::border::write_tab_top_border(
        &mut lines,
        &mut hits,
        0,
        "tab",
        20,
        true,
        &bordered_tab(0, false),
        None,
        false,
        false,
        true,
    );
    assert!(lines[0].ends_with("○┐"), "got {:?}", lines[0]);
    assert!(hits.iter().any(|h| h.action == HitAction::InspectNode));
}

#[test]
fn unboxed_tab_title_keeps_the_inspect_affordance() {
    let mut lines = vec![" ".repeat(20); 1];
    let mut hits = vec![];
    andamento::border::write_tab_top_border(
        &mut lines,
        &mut hits,
        0,
        "flat tab",
        20,
        true,
        &bordered_tab(3, false),
        None,
        false,
        false,
        false,
    );

    assert!(lines[0].ends_with('○'), "got {:?}", lines[0]);
    let inspect = hits
        .iter()
        .find(|hit| hit.action == HitAction::InspectNode)
        .expect("unboxed title retains inspect hit");
    assert_eq!(inspect.col_start, 19);
    assert_eq!(inspect.tab_id, 7);
    assert_eq!(inspect.tab_position, 3);
}

#[test]
fn latent_tabs_have_no_inspect_glyph() {
    let mut lines = vec![String::new(); 1];
    let mut hits = vec![];
    let card = andamento::border::BorderedTab {
        tab_id: 7,
        position: 0,
        active: false,
        latent: true,
    };
    andamento::border::write_tab_top_border(&mut lines, &mut hits, 0, "x", 6, false, &card, None, false, false, true);
    assert_eq!(lines[0], "├ x ─┤");
    assert!(hits.is_empty());
}
