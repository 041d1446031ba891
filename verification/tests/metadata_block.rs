use andamento::metadata_block::{tab_metadata_block, RenderCard, RenderTab};
use andamento::model::{
    GroupPath, GroupSegment, MetadataEntry, MetadataSourceEntry, MetadataValue, PaneTarget, Priority,
    TabGroupingInfo, TabStatusSummary,
};

fn card() -> RenderCard {
    RenderCard {
        tab_id: 7,
        position: 1,
        name: "work".to_owned(),
        active: true,
        pinned: false,
        status: None,
        metadata: vec![
            ("git.branch".to_owned(), MetadataValue::Text("main".to_owned())),
            ("zellij.tab.name".to_owned(), MetadataValue::Text("renamed".to_owned())),
        ],
        metadata_sources: vec![],
        reachable_identities: vec![],
        template_dumps: vec![],
    }
}

#[test]
fn metadata_view_lists_identity_templates_and_status() {
    let mut card = card();
    card.template_dumps = vec![("tab_title".to_owned(), "tab {\r\n  title\n}\n".to_owned())];
    card.status = Some(TabStatusSummary {
        priority: Priority::Waiting,
        title: "input".to_owned(),
        detail: None,
        icon: None,
        source_pane: PaneTarget::Terminal(3),
    });
    let tab = RenderTab { card, indent: 0, grouping: None };
    assert_eq!(
        tab_metadata_block(&tab),
        vec![
            "tab: renamed",
            "  [metadata]",
            "    zellij.tab.id: 7",
            "    zellij.tab.position: 1",
            "    zellij.tab.active: true",
            "    rail.tab.pinned: false",
            "    git.branch: main",
            "  [resolved_template]",
            "    // slot: tab_title",
            "    tab {",
            "      title",
            "    }",
            "  [status]",
            "    status.priority: waiting",
            "    status.title: input",
            "    status.source_pane: terminal:3",
        ]
    );
}

#[test]
fn metadata_view_shows_grouping_and_sources() {
    let mut card = card();
    card.metadata_sources = vec![(
        "git.branch".to_owned(),
        vec![MetadataSourceEntry {
            source_id: "ci".to_owned(),
            entry: MetadataEntry {
                value: MetadataValue::Text("main".to_owned()),
                updated_at: 12,
                ttl_ms: None,
                precedence: -1,
                ordinal: 4,
            },
        }],
    )];
    let grouping = TabGroupingInfo {
        key: "zellij.pane.cwd".to_owned(),
        path: GroupPath(vec![GroupSegment {
            key: "zellij.pane.cwd".to_owned(),
            value: MetadataValue::Text("/repo".to_owned()),
            label: Some("repo".to_owned()),
        }]),
        label: "repo".to_owned(),
        full_label: "/repo".to_owned(),
    };
    let tab = RenderTab { card, indent: 2, grouping: Some(grouping) };
    let lines = tab_metadata_block(&tab);
    assert_eq!(lines[0], "  tab: renamed");
    assert_eq!(lines[6], "      git.branch: main");
    assert_eq!(lines[7], "    [sources]");
    assert!(lines[8].starts_with("      key         src"), "got {:?}", lines[8]);
    assert!(lines[9].starts_with("      git.branch  ci "), "got {:?}", lines[9]);
    assert!(lines[9].ends_with("-1    4"), "got {:?}", lines[9]);
    assert_eq!(
        lines[10..].to_vec(),
        vec![
            "    [grouping]",
            "      group.label: repo",
            "      group.full_label: /repo",
            "      zellij.pane.cwd: /repo",
        ]
    );
}
