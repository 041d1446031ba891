use andamento::rail::{RailSizeSync, SizeTarget};
use andamento::model::StatusIcon;
use andamento::rail::{
    active_tab_id, active_tab_idx, direction_name, graphics_signature_needs_sync,
    local_tabs_from_zellij, parse_rail_placement, rail_resize_boundary,
    rail_size_from_constraints, rail_size_target_should_apply, should_forward_scroll_to_controller,
    should_sync_graphics, tab_index_after_scroll, local_tabs_need_render, visible_graphics_signature, Direction, HostTab,
    RailPlacement, ScrollFlush, ScrollQueue, click_effect, wheel_delta, ClickEffect,
};
use andamento::render::{HitAction, HitRegion};
use andamento::render::{LocalTab, RenderedRail, VisibleCard, VisibleIconRect};
use andamento::rail::{render_follow_up, should_ensure_active_visible, accepts_rail_ui_revision, RailUiRevision};

fn check_graphics_sync_waits_for_controller_model() {
    assert!(!should_sync_graphics(false));
    assert!(should_sync_graphics(true));
}

#[test]
fn lib_graphics_sync_waits_for_controller_model() {
    check_graphics_sync_waits_for_controller_model();
}

#[test]
fn main_graphics_sync_waits_for_controller_model() {
    check_graphics_sync_waits_for_controller_model();
}

fn check_unchanged_graphics_signature_does_not_need_sync() {
    let visible_cards = vec![VisibleCard {
        tab_id: 1,
        tab_position: 0,
        row_start: 0,
        status_row: Some(1),
        status_icon_rect: Some(VisibleIconRect {
            x: 2,
            y: 1,
            columns: 1,
            rows: 1,
        }),
        status_priority: None,
        status_icon: Some(StatusIcon::PngFile("/tmp/icon.png".into())),
    }];
    let signature = visible_graphics_signature(&visible_cards);

    assert!(!graphics_signature_needs_sync(Some(&signature), &visible_cards));
}

#[test]
fn lib_unchanged_graphics_signature_does_not_need_sync() {
    check_unchanged_graphics_signature_does_not_need_sync();
}

#[test]
fn main_unchanged_graphics_signature_does_not_need_sync() {
    check_unchanged_graphics_signature_does_not_need_sync();
}

fn check_unchanged_local_tab_projection_does_not_need_render() {
    let current = vec![LocalTab {
        tab_id: 1,
        position: 0,
        name: "work".to_owned(),
        active: true,
    }];
    let host_tabs = vec![HostTab {
        tab_id: 1,
        position: 0,
        name: "work".to_owned(),
        active: true,
    }];

    assert!(!local_tabs_need_render(&current, &host_tabs));
}

#[test]
fn lib_unchanged_local_tab_projection_does_not_need_render() {
    check_unchanged_local_tab_projection_does_not_need_render();
}

#[test]
fn main_unchanged_local_tab_projection_does_not_need_render() {
    check_unchanged_local_tab_projection_does_not_need_render();
}

#[test]
fn renamed_or_moved_tabs_need_a_render() {
    let current = vec![LocalTab {
        tab_id: 1,
        position: 0,
        name: "work".to_owned(),
        active: true,
    }];
    let renamed = vec![HostTab {
        tab_id: 1,
        position: 0,
        name: String::new(),
        active: true,
    }];
    assert!(local_tabs_need_render(&current, &renamed));
    assert!(local_tabs_need_render(&current, &vec![]));
}

fn card_with_icon(icon: Option<StatusIcon>) -> VisibleCard {
    VisibleCard {
        tab_id: 1,
        tab_position: 0,
        row_start: 0,
        status_row: Some(1),
        status_icon_rect: Some(VisibleIconRect {
            x: 1,
            y: 1,
            columns: 4,
            rows: 2,
        }),
        status_priority: None,
        status_icon: icon,
    }
}

#[test]
fn unchanged_graphics_signature_does_not_need_sync() {
    let cards = vec![card_with_icon(Some(StatusIcon::PngFile("/tmp/a.png".to_owned())))];
    let signature = visible_graphics_signature(&cards);
    assert_eq!(signature.len(), 1);
    assert_eq!(signature[0].placement_id, 10_000);
    assert!(!graphics_signature_needs_sync(Some(&signature), &cards));
    assert!(graphics_signature_needs_sync(None, &cards));
    let moved = vec![card_with_icon(Some(StatusIcon::PngFile("/tmp/b.png".to_owned())))];
    assert!(graphics_signature_needs_sync(Some(&signature), &moved));
}

#[test]
fn only_png_icons_with_a_place_enter_the_signature() {
    let mut unplaced = card_with_icon(Some(StatusIcon::PngFile("/tmp/a.png".to_owned())));
    unplaced.status_icon_rect = None;
    let cards = vec![
        card_with_icon(Some(StatusIcon::Builtin("spinner".to_owned()))),
        unplaced,
        card_with_icon(None),
        card_with_icon(Some(StatusIcon::PngFile("/tmp/c.png".to_owned()))),
    ];
    let signature = visible_graphics_signature(&cards);
    assert_eq!(signature.len(), 1);
    assert_eq!(signature[0].placement_id, 10_003);
}

#[test]
fn tab_fallback_requires_a_confirmed_fitting_rail() {
    assert!(should_forward_scroll_to_controller(None));
    assert!(should_forward_scroll_to_controller(Some(true)));
    assert!(!should_forward_scroll_to_controller(Some(false)));
}

#[test]
fn tab_scroll_delta_is_clamped_against_current_state() {
    assert_eq!(tab_index_after_scroll(3, 8, 4), 7);
    assert_eq!(tab_index_after_scroll(3, 8, -2), 1);
    assert_eq!(tab_index_after_scroll(3, 8, 99), 8);
    assert_eq!(tab_index_after_scroll(3, 8, -99), 1);
}

#[test]
fn extreme_scroll_deltas_stay_in_range() {
    assert_eq!(tab_index_after_scroll(3, 8, isize::MIN), 1);
    assert_eq!(tab_index_after_scroll(usize::MAX, 8, isize::MAX), 8);
}

#[test]
fn wheel_burst_does_not_advance_render_state_event_by_event() {
    let mut queue = ScrollQueue::new();
    assert!(queue.queue_scroll_delta(1));
    assert!(!queue.queue_scroll_delta(1));
    assert!(!queue.queue_scroll_delta(-1));
    assert!(queue.flush_scheduled);
    assert_eq!(queue.pending_delta, 1);
    assert_eq!(
        queue.flush_pending_scroll(Some(true), Some(1), 3),
        ScrollFlush::ScrollBy { delta: 1 }
    );
    assert_eq!(queue.pending_delta, 0);
    assert!(!queue.flush_scheduled);
    assert_eq!(queue.flush_pending_scroll(Some(true), Some(1), 3), ScrollFlush::Nothing);
}

#[test]
fn explicit_navigation_clears_scroll_queued_before_it() {
    let mut queue = ScrollQueue::new();
    queue.queue_scroll_delta(3);
    queue.reset_scroll_position();
    assert_eq!(queue.pending_delta, 0);
    assert!(!queue.flush_scheduled);
    assert_eq!(queue.flush_pending_scroll(Some(true), Some(1), 3), ScrollFlush::Nothing);
}

#[test]
fn confirmed_fitting_rail_cycles_tabs() {
    let tabs = vec![
        LocalTab {
            tab_id: 1,
            position: 0,
            name: "one".to_owned(),
            active: true,
        },
        LocalTab {
            tab_id: 2,
            position: 1,
            name: "two".to_owned(),
            active: false,
        },
    ];
    let mut queue = ScrollQueue::new();
    queue.queue_scroll_delta(1);
    assert_eq!(
        queue.flush_pending_scroll(Some(false), active_tab_idx(&tabs), tabs.len()),
        ScrollFlush::SwitchTab { target: 2 }
    );
    queue.queue_scroll_delta(-1);
    assert_eq!(
        queue.flush_pending_scroll(Some(false), active_tab_idx(&tabs), tabs.len()),
        ScrollFlush::Nothing
    );
}

#[test]
fn wheel_before_first_controller_snapshot_sends_scroll_action() {
    let mut queue = ScrollQueue::new();
    queue.queue_scroll_delta(1);
    assert_eq!(
        queue.flush_pending_scroll(None, None, 0),
        ScrollFlush::ScrollBy { delta: 1 }
    );
}

#[test]
fn queued_movement_saturates() {
    let mut queue = ScrollQueue::new();
    queue.queue_scroll_delta(isize::MAX);
    queue.queue_scroll_delta(5);
    assert_eq!(queue.pending_delta, isize::MAX);
    assert!(!queue.queue_scroll_delta(0));
}

fn check_rail_size_target_applies_only_for_new_different_same_client_target() {
    assert!(rail_size_target_should_apply(7, 3, Some(7), Some(false), 2));
    assert!(!rail_size_target_should_apply(7, 3, Some(8), Some(false), 2));
    assert!(!rail_size_target_should_apply(7, 3, Some(7), Some(false), 3));
    assert!(!rail_size_target_should_apply(7, 3, Some(7), Some(true), 2));
    assert!(rail_size_target_should_apply(7, 3, Some(7), None, 2));
    assert!(!rail_size_target_should_apply(7, 3, None, None, 2));
}

fn check_parses_rail_placement_from_plugin_configuration() {
    assert_eq!(parse_rail_placement("left"), Some(RailPlacement::Left));
    assert_eq!(parse_rail_placement("right"), Some(RailPlacement::Right));
    assert_eq!(parse_rail_placement("top"), Some(RailPlacement::Top));
    assert_eq!(parse_rail_placement("bottom"), Some(RailPlacement::Bottom));
    assert_eq!(parse_rail_placement("sideways"), None);
}

#[test]
fn rail_placement_round_trips_through_its_word() {
    for placement in [
        RailPlacement::Left,
        RailPlacement::Right,
        RailPlacement::Top,
        RailPlacement::Bottom,
    ] {
        assert_eq!(parse_rail_placement(placement.as_str()), Some(placement));
    }
    assert_eq!(RailPlacement::default(), RailPlacement::Left);
}

fn check_rail_placement_maps_to_resized_boundary() {
    assert_eq!(rail_resize_boundary(RailPlacement::Left), Direction::Right);
    assert_eq!(rail_resize_boundary(RailPlacement::Right), Direction::Left);
    assert_eq!(rail_resize_boundary(RailPlacement::Top), Direction::Down);
    assert_eq!(rail_resize_boundary(RailPlacement::Bottom), Direction::Up);
    assert_eq!(direction_name(Direction::Up), "up");
    assert_eq!(direction_name(Direction::Right), "right");
}

fn check_rail_placement_selects_the_observed_size_axis() {
    let rows = Some(12.5_f64);
    let columns = Some(25.0_f64);

    assert_eq!(
        rail_size_from_constraints(RailPlacement::Left, rows, columns),
        Some(25.0)
    );
    assert_eq!(
        rail_size_from_constraints(RailPlacement::Top, rows, columns),
        Some(12.5)
    );
}

#[test]
fn unnamed_host_tabs_are_named_by_position() {
    let tabs = vec![
        HostTab {
            tab_id: 4,
            position: 0,
            name: String::new(),
            active: false,
        },
        HostTab {
            tab_id: 9,
            position: 1,
            name: "editor".to_owned(),
            active: true,
        },
    ];
    let local = local_tabs_from_zellij(&tabs);
    assert_eq!(local[0].name, "Tab 1");
    assert_eq!(local[0].tab_id, 4);
    assert_eq!(local[1].name, "editor");
    assert_eq!(active_tab_idx(&local), Some(2));
    assert_eq!(active_tab_id(&local), Some(9));
    assert_eq!(active_tab_idx(&Vec::new()), None);
}

fn hit(action: HitAction) -> HitRegion {
    HitRegion {
        row_start: 0,
        row_end: 0,
        col_start: 0,
        col_end: 0,
        tab_id: 42,
        tab_position: 2,
        group_path: None,
        action,
    }
}

#[test]
fn clicks_map_to_their_effects() {
    assert_eq!(click_effect(&hit(HitAction::SwitchTab)), ClickEffect::SwitchTab { position: 3 });
    assert_eq!(click_effect(&hit(HitAction::TogglePin)), ClickEffect::TogglePin { tab_id: 42 });
    assert_eq!(click_effect(&hit(HitAction::ScrollRailUp)), ClickEffect::ScrollBy { delta: -1 });
    assert_eq!(click_effect(&hit(HitAction::ScrollRailDown)), ClickEffect::ScrollBy { delta: 1 });
    assert_eq!(click_effect(&hit(HitAction::ShowDetail)), ClickEffect::ShowDetail);
    assert_eq!(
        click_effect(&hit(HitAction::ToggleVariable(4))),
        ClickEffect::ToggleVariable { index: 4 }
    );
}

#[test]
fn wheel_lines_become_signed_deltas() {
    assert_eq!(wheel_delta(3, true), -3);
    assert_eq!(wheel_delta(3, false), 3);
    assert_eq!(wheel_delta(usize::MAX, false), isize::MAX);
    assert_eq!(wheel_delta(usize::MAX, true), -isize::MAX);
}

#[test]
fn size_targets_are_kept_when_newer_and_applied_once() {
    let mut sync: RailSizeSync<u32> = RailSizeSync::new();
    sync.handle_rail_size_target(SizeTarget { client_id: 8, version: 5, size: 30 }, Some(7));
    assert_eq!(sync.latest_target, None);
    sync.handle_rail_size_target(SizeTarget { client_id: 7, version: 3, size: 22 }, Some(7));
    sync.handle_rail_size_target(SizeTarget { client_id: 7, version: 2, size: 10 }, Some(7));
    assert_eq!(sync.latest_target.map(|target| target.size), Some(22));

    assert_eq!(sync.reconcile_rail_size_target(false, Some(7), Some(false)), None);
    assert_eq!(sync.applied_version, 0);
    assert_eq!(sync.reconcile_rail_size_target(true, Some(7), Some(false)), Some(22));
    assert_eq!(sync.applied_version, 3);
    assert_eq!(sync.reconcile_rail_size_target(true, Some(7), Some(false)), None);
    assert_eq!(sync.applied_version, 3);
}

#[test]
fn a_matching_size_marks_the_target_dealt_with() {
    let mut sync: RailSizeSync<u32> = RailSizeSync::new();
    sync.handle_rail_size_target(SizeTarget { client_id: 7, version: 4, size: 22 }, Some(7));
    assert_eq!(sync.reconcile_rail_size_target(true, Some(7), Some(true)), None);
    assert_eq!(sync.applied_version, 4);
}

#[test]
fn rail_reports_its_placement_boundary_and_size() {
    let mut recorder = andamento::stats::PluginStatsRecorder::default();
    recorder.increment("render");
    let snapshot = andamento::rail::rail_stats_snapshot(
        &recorder,
        9,
        andamento::model::RendererHello {
            plugin_id: 3,
            client_id: 4,
        },
        RailPlacement::Top,
        Some(("rail.size.fixed-cells", 12)),
    );
    assert_eq!(snapshot.collection_id, 9);
    assert_eq!(snapshot.plugin_kind, "rail");
    let names: Vec<(&str, u64)> = snapshot
        .counters
        .iter()
        .map(|(name, value)| (name.as_str(), *value))
        .collect();
    assert_eq!(
        names,
        vec![
            ("rail.boundary.down", 1),
            ("rail.placement.top", 1),
            ("rail.size.fixed-cells", 12),
            ("render", 1),
        ]
    );
}

#[test]
fn lib_rail_size_target_applies_only_for_new_different_same_client_target() {
    check_rail_size_target_applies_only_for_new_different_same_client_target();
}

#[test]
fn main_rail_size_target_applies_only_for_new_different_same_client_target() {
    check_rail_size_target_applies_only_for_new_different_same_client_target();
}

#[test]
fn lib_parses_rail_placement_from_plugin_configuration() {
    check_parses_rail_placement_from_plugin_configuration();
}

#[test]
fn main_parses_rail_placement_from_plugin_configuration() {
    check_parses_rail_placement_from_plugin_configuration();
}

#[test]
fn lib_rail_placement_maps_to_resized_boundary() {
    check_rail_placement_maps_to_resized_boundary();
}

#[test]
fn main_rail_placement_maps_to_resized_boundary() {
    check_rail_placement_maps_to_resized_boundary();
}

#[test]
fn lib_rail_placement_selects_the_observed_size_axis() {
    check_rail_placement_selects_the_observed_size_axis();
}

#[test]
fn main_rail_placement_selects_the_observed_size_axis() {
    check_rail_placement_selects_the_observed_size_axis();
}

#[test]
fn clicking_a_visible_tab_does_not_reset_the_shared_viewport() {
    let regions = vec![HitRegion {
        row_start: 0,
        row_end: 2,
        col_start: 0,
        col_end: 19,
        tab_id: 2,
        tab_position: 1,
        group_path: None,
        action: HitAction::SwitchTab,
    }];
    let hit = andamento::render::hit_at(&regions, 1, 4).expect("hit found");
    assert_eq!(click_effect(hit), ClickEffect::SwitchTab { position: 2 });
}

fn rendered_rail(content_height: usize, ensure_visible_offset: Option<isize>, ensure_active_resolved: bool) -> RenderedRail {
    RenderedRail {
        lines: Vec::new(),
        hit_regions: Vec::new(),
        visible_cards: Vec::new(),
        content_height,
        available_rows: 4,
        ensure_visible_offset,
        ensure_active_resolved,
    }
}

#[test]
fn reveal_request_only_made_from_the_active_tab() {
    assert!(should_ensure_active_visible(true, Some(1), Some(1)));
    assert!(!should_ensure_active_visible(true, Some(1), Some(2)));
    assert!(!should_ensure_active_visible(false, Some(1), Some(1)));
    assert!(should_ensure_active_visible(true, None, None));
    assert!(!should_ensure_active_visible(true, None, Some(1)));
}

#[test]
fn ensure_visible_latch_survives_until_a_render_resolves_it() {
    let unresolved = render_follow_up(true, true, false, &rendered_rail(2, None, false));
    assert!(unresolved.ensure_active_visible);
    assert_eq!(unresolved.rail_can_scroll, None);
    assert!(!unresolved.sync_graphics);

    let resolved = render_follow_up(true, true, true, &rendered_rail(9, Some(3), true));
    assert!(!resolved.ensure_active_visible);
    assert_eq!(resolved.scroll_offset_request, Some(3));
    assert_eq!(resolved.rail_can_scroll, Some(true));
    assert!(resolved.sync_graphics);

    let not_asked = render_follow_up(true, false, true, &rendered_rail(2, None, true));
    assert!(not_asked.ensure_active_visible);
    assert_eq!(not_asked.rail_can_scroll, Some(false));
}

#[test]
fn rail_state_revisions_are_totally_ordered() {
    let current = RailUiRevision { sequence: 4, writer_client_id: 1 };
    let winner = RailUiRevision { sequence: 4, writer_client_id: 2 };
    let stale = RailUiRevision { sequence: 4, writer_client_id: 0 };
    let newer = RailUiRevision { sequence: 5, writer_client_id: 0 };
    assert!(accepts_rail_ui_revision(current, winner));
    assert!(!accepts_rail_ui_revision(winner, stale));
    assert!(!accepts_rail_ui_revision(winner, winner));
    assert!(accepts_rail_ui_revision(winner, newer));
    assert!(!accepts_rail_ui_revision(newer, current));
}
