use andamento::group_header::{
    append_group_header, group_header_geometry, group_header_has_revealable_body, group_header_line, header_niche_room,
    HeaderNiche, HeaderNicheConsumption, HeaderNicheHit,
};
use andamento::model::{GroupPath, GroupSegment, MetadataValue};
use andamento::render::{ChildLayoutMode, HitAction, HitRegion};
use andamento::template_fields::TemplateField;

fn fields() -> Vec<TemplateField> {
    vec![TemplateField::Required("zellij".to_owned()), TemplateField::Optional("(2)".to_owned())]
}

fn glyphs() -> Option<(String, String)> {
    Some(("▶".to_owned(), "▼".to_owned()))
}

fn empty_niche() -> HeaderNiche {
    HeaderNiche { text: String::new(), visible_width: 0, hits: vec![], consumption: HeaderNicheConsumption::default() }
}

#[test]
fn group_header_fills_the_row_after_its_fields() {
    let line = group_header_line(fields(), glyphs(), false, true, false, false, Some('─'), empty_niche(), 20, None, &[]);
    assert_eq!(line.text, "▼ zellij (2) ───────");
    assert!(line.niche_hits.is_empty());
}

#[test]
fn group_header_shows_the_collapsed_glyph_or_a_space() {
    let collapsed = group_header_line(fields(), glyphs(), true, true, false, false, None, empty_niche(), 20, None, &[]);
    assert_eq!(collapsed.text, "▶ zellij (2)");
    let fixed = group_header_line(fields(), glyphs(), true, false, false, false, None, empty_niche(), 20, None, &[]);
    assert_eq!(fixed.text, "  zellij (2)");
}

#[test]
fn group_header_places_its_niche_after_a_separator() {
    let niche = HeaderNiche {
        text: "a b".to_owned(),
        visible_width: 3,
        hits: vec![HeaderNicheHit { col_start: 0, col_end: 0, tab_id: 4, tab_position: 1, group_path: None, action: HitAction::SwitchTab }],
        consumption: HeaderNicheConsumption { direct_tabs: 2, child_group: None },
    };
    let line = group_header_line(fields(), glyphs(), false, true, false, false, Some('─'), niche, 24, None, &[]);
    assert_eq!(line.text, "▼ zellij (2) ─ a b ─────");
    assert_eq!(line.niche_hits.len(), 1);
    assert_eq!(line.niche_hits[0].col_start, 15);
    assert_eq!(line.niche_hits[0].tab_id, 4);
    assert_eq!(line.niche_consumption.direct_tabs, 2);
    assert_eq!(header_niche_room(fields(), glyphs(), false, true, 24, &[]), 9);
}

#[test]
fn group_header_geometry_reserves_the_glyph_columns() {
    assert_eq!(group_header_geometry(Some(2), 4, 30), (4, 26, 24));
    assert_eq!(group_header_geometry(None, 4, 30), (0, 30, 28));
    assert_eq!(group_header_geometry(Some(2), 4, 6), (4, 2, 2));
    assert_eq!(group_header_geometry(Some(50), 4, 6), (6, 0, 0));
}

#[test]
fn only_a_body_left_to_reveal_can_be_toggled() {
    assert!(!group_header_has_revealable_body(false, ChildLayoutMode::Cards, 3));
    assert!(group_header_has_revealable_body(true, ChildLayoutMode::Cards, 0));
    assert!(!group_header_has_revealable_body(true, ChildLayoutMode::Strip, 0));
    assert!(group_header_has_revealable_body(true, ChildLayoutMode::Strip, 1));
}

#[test]
fn appended_group_header_registers_niche_inspect_and_toggle_hits() {
    let path = GroupPath(vec![GroupSegment {
        key: "zellij.pane.cwd".to_owned(),
        value: MetadataValue::Text("/repo".to_owned()),
        label: Some("repo".to_owned()),
    }]);
    let niche = HeaderNiche {
        text: "a".to_owned(),
        visible_width: 1,
        hits: vec![HeaderNicheHit { col_start: 0, col_end: 0, tab_id: 4, tab_position: 1, group_path: None, action: HitAction::SwitchTab }],
        consumption: HeaderNicheConsumption { direct_tabs: 1, child_group: None },
    };
    let header = group_header_line(fields(), glyphs(), false, true, false, false, None, niche, 18, None, &[]);
    let mut lines = vec!["top".to_owned()];
    let mut hits: Vec<HitRegion> = Vec::new();
    let (sources, rows, consumption) =
        append_group_header(&mut lines, &mut hits, header, &path, 2, 20, false, true, true, None);
    assert_eq!(lines[1], "  ▼ zellij (2) ─ a●─");
    assert_eq!(rows, 1..2);
    assert!(sources.is_empty());
    assert_eq!(consumption.direct_tabs, 1);
    assert_eq!(hits.len(), 3);
    assert_eq!((hits[0].row_start, hits[0].col_start, hits[0].action), (1, 17, HitAction::SwitchTab));
    assert_eq!((hits[1].col_start, hits[1].action), (20, HitAction::InspectNode));
    assert_eq!(hits[1].group_path, Some(path.clone()));
    assert_eq!((hits[2].col_start, hits[2].action), (2, HitAction::ToggleGroup));
}
