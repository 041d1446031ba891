use andamento::model::{
    ControllerViewModel, GroupPath, GroupSegment, MetadataPathValue, MetadataValue, Priority,
    RailConfig, RailGroupingMode, RailRow, RailSizingPreset, RailStructure, RailViewMode,
    RendererHello, ResolvedTemplateSlots, SortMode, TabCard, TemplateConfigDiagnostics,
};
use andamento::stats::PluginStatsRecorder;

#[test]
fn priority_orders_status_importance() {
    assert!(Priority::Error > Priority::Warning);
    assert!(Priority::Warning > Priority::Waiting);
    assert!(Priority::Waiting > Priority::Info);
    assert!(Priority::Info > Priority::Idle);
}

#[test]
fn rail_config_defaults_to_joined_active_large() {
    let config = RailConfig::default();

    assert_eq!(config.structure, RailStructure::JoinedCells);
    assert_eq!(config.sizing, RailSizingPreset::ActiveLarge);
}

#[test]
fn rail_config_defaults_to_directory_grouping_off() {
    let config = RailConfig::default();

    assert_eq!(config.grouping, RailGroupingMode::NoGrouping);
}

#[test]
fn rail_config_defaults_to_normal_view() {
    let config = RailConfig::default();

    assert_eq!(config.view, RailViewMode::Normal);
}

fn counter(snapshot: &andamento::stats::PluginStatsSnapshot, name: &str) -> u64 {
    snapshot
        .counters
        .iter()
        .find(|(key, _)| key == name)
        .map(|(_, value)| *value)
        .expect("counter present")
}

#[test]
fn stats_recorder_accumulates_counters_and_spans() {
    let mut recorder = PluginStatsRecorder::default();

    recorder.increment("pipe.view-model");
    recorder.increment("pipe.view-model");
    recorder.add("view-model.payload-bytes", 100);
    recorder.add("view-model.payload-bytes", 250);
    recorder.record_span_us("decode.view-model", 10);
    recorder.record_span_us("decode.view-model", 25);

    let snapshot = recorder.snapshot(
        1,
        RendererHello {
            plugin_id: 2,
            client_id: 3,
        },
        "rail",
    );

    assert_eq!(counter(&snapshot, "pipe.view-model"), 2);
    assert_eq!(counter(&snapshot, "view-model.payload-bytes"), 350);
    assert_eq!(snapshot.spans[0].name, "decode.view-model");
    assert_eq!(snapshot.spans[0].count, 2);
    assert_eq!(snapshot.spans[0].total_us, 35);
    assert_eq!(snapshot.spans[0].max_us, 25);
}

#[test]
fn group_path_identity_ignores_display_labels() {
    let identity = GroupPath(vec![GroupSegment {
        key: "git.repo".to_owned(),
        value: MetadataValue::Text("zellij-org/zellij".to_owned()),
        label: None,
    }]);
    let labelled = GroupPath(vec![GroupSegment {
        key: "git.repo".to_owned(),
        value: MetadataValue::Text("zellij-org/zellij".to_owned()),
        label: Some("zellij".to_owned()),
    }]);

    assert_eq!(identity, labelled);
}

#[test]
fn stats_snapshot_lists_counters_and_spans_in_name_order() {
    let mut recorder = PluginStatsRecorder::default();
    recorder.increment("zeta");
    recorder.add("alpha", 5);
    recorder.increment("mid");
    recorder.record_span_us("b-span", 7);
    recorder.record_span_us("a-span", 3);
    recorder.record_span_us("b-span", 2);

    let snapshot = recorder.snapshot(9, RendererHello { plugin_id: 4, client_id: 1 }, "rail");

    let names: Vec<&str> = snapshot.counters.iter().map(|(name, _)| name.as_str()).collect();
    assert_eq!(names, vec!["alpha", "mid", "zeta"]);
    assert_eq!(snapshot.spans.len(), 2);
    assert_eq!(snapshot.spans[0].name, "a-span");
    assert_eq!(snapshot.spans[1].name, "b-span");
    assert_eq!(snapshot.spans[1].count, 2);
    assert_eq!(snapshot.spans[1].total_us, 9);
    assert_eq!(snapshot.spans[1].max_us, 7);
    assert_eq!(snapshot.collection_id, 9);
    assert_eq!(snapshot.plugin_id, 4);
    assert_eq!(snapshot.client_id, 1);
    assert_eq!(snapshot.plugin_kind, "rail");
}

#[test]
fn stats_add_saturates_at_the_largest_counter() {
    let mut recorder = PluginStatsRecorder::default();
    recorder.add("bytes", u64::MAX - 1);
    recorder.add("bytes", 10);
    recorder.record_span_us("span", u64::MAX);
    recorder.record_span_us("span", 1);

    let snapshot = recorder.snapshot(0, RendererHello { plugin_id: 0, client_id: 0 }, "rail");

    assert_eq!(counter(&snapshot, "bytes"), u64::MAX);
    assert_eq!(snapshot.spans[0].total_us, u64::MAX);
    assert_eq!(snapshot.spans[0].max_us, u64::MAX);
}

fn tab(tab_id: u64, name: &str) -> TabCard {
    TabCard {
        tab_id,
        position: 0,
        name: name.to_owned(),
        active: false,
        pinned: false,
        status: None,
        grouping: None,
        templates: ResolvedTemplateSlots::default(),
    }
}

#[test]
fn tab_for_row_finds_the_rows_tab_and_none_for_group_headers() {
    let model = ControllerViewModel {
        sort_mode: SortMode::Position,
        config: RailConfig::default(),
        template_config: TemplateConfigDiagnostics::default(),
        tabs: vec![tab(1, "server"), tab(2, "tests"), tab(2, "duplicate")],
        rows: vec![],
        resolved_metadata: vec![],
        observed_identities: vec![],
    };

    let row = RailRow::Tab { tab_id: 2, indent: 2, parent_path: None };
    assert_eq!(model.tab_for_row(&row).map(|tab| tab.name.as_str()), Some("tests"));
    assert!(model.tab_by_id(9).is_none());
    let header = RailRow::GroupHeader {
        group_id: "g".to_owned(),
        path: GroupPath::default(),
        label: "g".to_owned(),
        full_label: "g".to_owned(),
        tab_count: 0,
        templates: ResolvedTemplateSlots::default(),
    };
    assert!(model.tab_for_row(&header).is_none());
}

#[test]
fn path_values_compare_by_content() {
    assert_eq!(
        MetadataPathValue::StringList(vec!["a".to_owned(), "b".to_owned()]),
        MetadataPathValue::StringList(vec!["a".to_owned(), "b".to_owned()])
    );
    assert_ne!(MetadataPathValue::Integer(1), MetadataPathValue::Bool(true));
}
