use andamento::model::{GroupPath, GroupSegment, MetadataValue, Priority};
use andamento::render::{hit_at, HitAction, HitRegion, VisibleCard, VisibleIconRect};
use andamento::viewport::copy_visible_buffer;

fn rows(n: usize) -> Vec<String> {
    (0..n).map(|row| format!("row {row}")).collect()
}

#[test]
fn active_and_status_rows_do_not_move_the_absolute_viewport() {
    let mut lines = vec![String::new(); 3];
    let mut visible_hits = vec![];
    let mut visible_cards = vec![];
    let active_hit = HitRegion {
        row_start: 8,
        row_end: 10,
        col_start: 0,
        col_end: 9,
        tab_id: 2,
        tab_position: 1,
        group_path: None,
        action: HitAction::SwitchTab,
    };
    let status_card = VisibleCard {
        tab_id: 1,
        tab_position: 0,
        row_start: 0,
        status_row: Some(1),
        status_icon_rect: None,
        status_priority: Some(Priority::Waiting),
        status_icon: None,
    };

    let viewport = copy_visible_buffer(
        &mut lines,
        &mut visible_hits,
        &mut visible_cards,
        rows(12),
        vec![active_hit],
        vec![status_card],
        Some((8, 10)),
        3,
        4,
        false,
    );

    assert_eq!(viewport.visible_start, 4);
    assert_eq!(viewport.ensure_visible_offset, None);
    assert!(!viewport.ensure_active_resolved);
    assert_eq!(lines, vec!["row 4".to_owned(), "row 5".to_owned(), "row 6".to_owned()]);
    assert!(visible_hits.is_empty());
    assert!(visible_cards.is_empty());
}

#[test]
fn activation_ensure_visible_requests_a_minimal_absolute_offset() {
    let mut lines = vec![String::new(); 4];
    let mut visible_hits = vec![];
    let mut visible_cards = vec![];
    let active_hit = HitRegion {
        row_start: 10,
        row_end: 12,
        col_start: 0,
        col_end: 9,
        tab_id: 2,
        tab_position: 1,
        group_path: None,
        action: HitAction::SwitchTab,
    };

    let viewport = copy_visible_buffer(
        &mut lines,
        &mut visible_hits,
        &mut visible_cards,
        rows(20),
        vec![active_hit],
        vec![],
        Some((10, 12)),
        4,
        3,
        true,
    );

    assert_eq!(viewport.visible_start, 9);
    assert_eq!(viewport.ensure_visible_offset, Some(9));
    assert!(viewport.ensure_active_resolved);
    assert_eq!(visible_hits.len(), 1);
    assert_eq!(visible_hits[0].row_start, 1);
    assert_eq!(visible_hits[0].row_end, 3);
}

#[test]
fn collapsed_active_tab_ensures_its_visible_group_header() {
    let group_path = GroupPath(vec![GroupSegment {
        key: "git.repo".to_owned(),
        value: MetadataValue::Text("zellij".to_owned()),
        label: Some("zellij".to_owned()),
    }]);
    let mut lines = vec![String::new(); 4];
    let mut visible_hits = vec![];
    let mut visible_cards = vec![];
    let header_hit = HitRegion {
        row_start: 10,
        row_end: 10,
        col_start: 0,
        col_end: 9,
        tab_id: 0,
        tab_position: 0,
        group_path: Some(group_path),
        action: HitAction::ToggleGroup,
    };
    let viewport = copy_visible_buffer(
        &mut lines,
        &mut visible_hits,
        &mut visible_cards,
        rows(20),
        vec![header_hit],
        vec![],
        Some((10, 10)),
        4,
        3,
        true,
    );

    assert_eq!(viewport.visible_start, 7);
    assert_eq!(viewport.ensure_visible_offset, Some(7));
    assert!(viewport.ensure_active_resolved);
}

#[test]
fn shown_cards_are_renumbered_and_lose_rows_outside_the_window() {
    let mut lines = vec![String::new(); 3];
    let mut visible_hits = vec![];
    let mut visible_cards = vec![];
    let card = VisibleCard {
        tab_id: 1,
        tab_position: 0,
        row_start: 5,
        status_row: Some(8),
        status_icon_rect: Some(VisibleIconRect {
            x: 1,
            y: 6,
            columns: 2,
            rows: 1,
        }),
        status_priority: None,
        status_icon: None,
    };
    let viewport = copy_visible_buffer(
        &mut lines,
        &mut visible_hits,
        &mut visible_cards,
        rows(10),
        vec![],
        vec![card],
        None,
        3,
        5,
        false,
    );
    assert_eq!(viewport.visible_start, 5);
    assert_eq!(visible_cards.len(), 1);
    assert_eq!(visible_cards[0].row_start, 0);
    assert_eq!(visible_cards[0].status_row, None);
    assert_eq!(visible_cards[0].status_icon_rect.map(|rect| rect.y), Some(1));
}

#[test]
fn an_empty_buffer_shows_nothing() {
    let mut lines = vec!["old".to_owned()];
    let mut visible_hits = vec![];
    let mut visible_cards = vec![];
    let viewport = copy_visible_buffer(
        &mut lines,
        &mut visible_hits,
        &mut visible_cards,
        vec![],
        vec![],
        vec![],
        None,
        3,
        5,
        true,
    );
    assert_eq!(viewport.visible_start, 0);
    assert_eq!(lines, vec!["old".to_owned()]);
}

#[test]
fn hit_at_prefers_smaller_region_over_card_wide() {
    let hits = vec![
        HitRegion {
            row_start: 0,
            row_end: 5,
            col_start: 0,
            col_end: 19,
            tab_id: 7,
            tab_position: 0,
            group_path: None,
            action: HitAction::SwitchTab,
        },
        HitRegion {
            row_start: 0,
            row_end: 0,
            col_start: 18,
            col_end: 18,
            tab_id: 7,
            tab_position: 0,
            group_path: None,
            action: HitAction::InspectNode,
        },
    ];
    let hit = hit_at(&hits, 0, 18).expect("hit found");
    assert_eq!(hit.action, HitAction::InspectNode);
    let hit = hit_at(&hits, 2, 5).expect("hit found");
    assert_eq!(hit.action, HitAction::SwitchTab);
}
