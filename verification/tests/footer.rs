use andamento::footer::{
    render_control_template, render_footer, TemplateControlKind, TemplateControlSpec,
    TemplateVariable,
};
use andamento::render::HitAction;

#[test]
fn default_footer_places_config_left_and_scroll_and_inspector_right() {
    let mut lines = vec![String::new(); 3];
    let mut hits = vec![];
    render_footer(&mut lines, &mut hits, 2, 10, None, false, true);
    assert_eq!(lines[2], "⚙      ○▲▼");
    assert_eq!(lines[0], "");
    let actions: Vec<(usize, HitAction)> = hits.iter().map(|hit| (hit.col_start, hit.action)).collect();
    assert_eq!(
        actions,
        vec![
            (0, HitAction::OpenConfig),
            (9, HitAction::ScrollRailDown),
            (8, HitAction::ScrollRailUp),
            (7, HitAction::InspectNode),
        ]
    );
    assert!(hits.iter().all(|hit| hit.row_start == 2 && hit.row_end == 2));
}

#[test]
fn scroll_controls_are_absent_when_the_rail_fits() {
    let mut lines = vec![String::new()];
    let mut hits = vec![];
    render_footer(&mut lines, &mut hits, 0, 10, None, true, false);
    assert_eq!(lines[0], "⚙        ●");
    assert_eq!(hits.len(), 2);
}

#[test]
fn a_zero_width_footer_draws_nothing() {
    let mut lines = vec!["keep".to_owned()];
    let mut hits = vec![];
    render_footer(&mut lines, &mut hits, 0, 0, None, false, true);
    assert_eq!(lines, vec!["keep".to_owned()]);
    assert!(hits.is_empty());
}

#[test]
fn display_variables_toggle_and_show_when_switched_off() {
    let controls = vec![
        TemplateControlSpec {
            kind: TemplateControlKind::DisplayVariable,
            variable: Some("status".to_owned()),
            glyph: None,
        },
        TemplateControlSpec {
            kind: TemplateControlKind::DisplayVariable,
            variable: Some("branch".to_owned()),
            glyph: Some("β".to_owned()),
        },
        TemplateControlSpec {
            kind: TemplateControlKind::DisplayVariable,
            variable: Some("missing".to_owned()),
            glyph: None,
        },
    ];
    let variables = vec![
        TemplateVariable {
            name: "branch".to_owned(),
            icon: "b".to_owned(),
        },
        TemplateVariable {
            name: "status".to_owned(),
            icon: "s".to_owned(),
        },
    ];
    let mut lines = vec![String::new()];
    let mut hits = vec![];
    render_control_template(
        &mut lines,
        &mut hits,
        0,
        6,
        None,
        false,
        true,
        &controls,
        &variables,
        &["branch".to_owned()],
    );
    assert_eq!(lines[0], "s·    ");
    assert_eq!(hits[0].action, HitAction::ToggleVariable(1));
    assert_eq!(hits[1].action, HitAction::ToggleVariable(0));
    assert_eq!(hits.len(), 2);
}

#[test]
fn controls_that_do_not_fit_are_left_out() {
    let controls = vec![
        TemplateControlSpec {
            kind: TemplateControlKind::OpenConfig,
            variable: None,
            glyph: Some("C".to_owned()),
        },
        TemplateControlSpec {
            kind: TemplateControlKind::InspectRoot,
            variable: None,
            glyph: None,
        },
        TemplateControlSpec {
            kind: TemplateControlKind::OpenConfig,
            variable: None,
            glyph: None,
        },
    ];
    let mut lines = vec![String::new()];
    let mut hits = vec![];
    render_control_template(&mut lines, &mut hits, 0, 2, None, false, true, &controls, &[], &[]);
    assert_eq!(lines[0], "C○");
    assert_eq!(hits.len(), 2);
}

fn blank(n: usize) -> String {
    " ".repeat(n)
}

#[test]
fn footer_shows_unselected_root_inspect_glyph() {
    let mut lines = vec![blank(20); 1];
    let mut hits = vec![];
    render_footer(&mut lines, &mut hits, 0, 20, None, false, false);
    assert!(lines[0].starts_with("⚙"), "got {:?}", lines[0]);
    assert!(lines[0].ends_with("○"), "got {:?}", lines[0]);
    let inspect_hit = hits
        .iter()
        .find(|h| h.action == HitAction::InspectNode)
        .expect("inspect hit emitted");
    assert_eq!(inspect_hit.action, HitAction::InspectNode);
    assert_eq!(inspect_hit.col_start, 19);
}

#[test]
fn footer_projects_declared_variable_control_and_false_state() {
    let variables = vec![TemplateVariable {
        name: "show-issues".to_owned(),
        icon: "I".to_owned(),
    }];
    let mut lines = vec![blank(20)];
    let mut hits = vec![];
    let controls = [TemplateControlSpec {
        kind: TemplateControlKind::DisplayVariable,
        variable: Some("show-issues".to_owned()),
        glyph: None,
    }];
    render_control_template(
        &mut lines,
        &mut hits,
        0,
        20,
        None,
        false,
        false,
        &controls,
        &variables,
        &["show-issues".to_owned()],
    );

    assert_eq!(lines[0].chars().next(), Some('·'));
    assert!(hits
        .iter()
        .any(|hit| hit.action == HitAction::ToggleVariable(0)));
}

#[test]
fn control_footer_drops_controls_that_do_not_fit_narrow_widths() {
    let controls = [
        TemplateControlSpec {
            kind: TemplateControlKind::OpenConfig,
            variable: None,
            glyph: None,
        },
        TemplateControlSpec {
            kind: TemplateControlKind::ScrollDown,
            variable: None,
            glyph: None,
        },
        TemplateControlSpec {
            kind: TemplateControlKind::ScrollUp,
            variable: None,
            glyph: None,
        },
        TemplateControlSpec {
            kind: TemplateControlKind::InspectRoot,
            variable: None,
            glyph: None,
        },
    ];

    for width in 1..=3 {
        let mut lines = vec![blank(width)];
        let mut hits = vec![];
        render_control_template(&mut lines, &mut hits, 0, width, None, false, true, &controls, &[], &[]);

        assert_eq!(lines[0].chars().count(), width);
        assert!(hits.iter().all(|hit| hit.col_start < width));
        let mut columns: Vec<usize> = hits.iter().map(|hit| hit.col_start).collect();
        columns.sort();
        columns.dedup();
        assert_eq!(columns.len(), hits.len());
    }
}

#[test]
fn footer_shows_selected_root_inspect_glyph() {
    let mut lines = vec![blank(20); 1];
    let mut hits = vec![];
    render_footer(&mut lines, &mut hits, 0, 20, None, true, false);
    assert!(lines[0].starts_with("⚙"), "got {:?}", lines[0]);
    assert!(lines[0].ends_with("●"), "got {:?}", lines[0]);
}

#[test]
fn footer_places_root_inspect_next_to_scroll_arrows() {
    let mut lines = vec![blank(20); 1];
    let mut hits = vec![];
    render_footer(&mut lines, &mut hits, 0, 20, None, true, true);
    assert!(lines[0].ends_with("●▲▼"), "got {:?}", lines[0]);
    let cycle_hit = hits
        .iter()
        .find(|h| h.action == HitAction::InspectNode)
        .expect("root inspect hit emitted");
    assert_eq!(cycle_hit.action, HitAction::InspectNode);
    assert_eq!(cycle_hit.col_start, 17);
}

#[test]
fn footer_places_root_inspect_at_far_right_when_no_scroll_arrows() {
    let mut lines = vec![blank(20); 1];
    let mut hits = vec![];
    render_footer(&mut lines, &mut hits, 0, 20, None, true, false);
    assert!(lines[0].ends_with('●'), "got {:?}", lines[0]);
}

#[test]
fn footer_always_keeps_root_inspect_selector() {
    let mut lines = vec![blank(20); 1];
    let mut hits = vec![];
    render_footer(&mut lines, &mut hits, 0, 20, None, false, false);
    assert!(
        hits.iter().any(|h| h.action == HitAction::InspectNode),
        "root inspect hit should still be emitted"
    );
    assert!(lines[0].starts_with("⚙"), "got {:?}", lines[0]);
    assert!(lines[0].ends_with('○'), "got {:?}", lines[0]);
}
