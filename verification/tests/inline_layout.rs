use andamento::inline_layout::{InlineHit, InlineItem, InlineRun};
use andamento::text::visible_width_without_ansi;

#[test]
fn inline_run_keeps_full_text_when_it_fits() {
    let run = InlineRun::new(vec![
        InlineItem::text("toggle", "▼").required(),
        InlineItem::text("label", "project-a").required(),
        InlineItem::text("count", "(2)").optional(),
    ]);

    let placed = run.layout(20);

    assert_eq!(placed.text, "▼ project-a (2)");
    assert_eq!(placed.visible_width, 15);
    assert_eq!(placed.items.len(), 3);
    assert_eq!(placed.items[0].id, "toggle");
    assert_eq!(placed.items[0].cols, 0..1);
}

#[test]
fn inline_run_drops_optional_items_before_priority_items() {
    let run = InlineRun::new(vec![
        InlineItem::text("toggle", "▼").required(),
        InlineItem::text("label", "project-a").required(),
        InlineItem::text("count", "(2)").optional(),
        InlineItem::text("active", ": agent-1").priority(80),
    ]);

    let placed = run.layout(20);

    assert_eq!(placed.text, "▼ project-a: agent-1");
    assert!(!placed.items.iter().any(|item| item.id == "count"));
    assert!(placed.items.iter().any(|item| item.id == "active"));
}

#[test]
fn inline_run_truncates_lowest_priority_item_before_dropping_it() {
    let run = InlineRun::new(vec![
        InlineItem::text("toggle", "▼").required(),
        InlineItem::text("repo", "flotilla-org/flotilla").priority(100),
        InlineItem::text("branch", "feat/very-long-branch-name").priority(60),
    ]);

    let placed = run.layout(28);

    assert!(placed.text.starts_with("▼ flotilla-org/flotilla "));
    assert!(placed.text.ends_with("…"));
    assert!(placed.items.iter().any(|item| item.id == "branch"));
    assert!(placed.visible_width <= 28);
}

#[test]
fn inline_run_keeps_hit_payloads_for_visible_items() {
    let run = InlineRun::new(vec![
        InlineItem::text("toggle", "▼")
            .required()
            .hit(InlineHit::GroupToggle),
        InlineItem::text("inspect", "◐")
            .required()
            .hit(InlineHit::InspectNode),
    ]);

    let placed = run.layout(8);

    assert_eq!(placed.items[0].hit, Some(InlineHit::GroupToggle));
    assert_eq!(placed.items[0].cols, 0..1);
    assert_eq!(placed.items[1].hit, Some(InlineHit::InspectNode));
}

#[test]
fn inline_run_counts_visible_width_without_ansi() {
    let styled = "\u{1b}[1;38;5;2mproject\u{1b}[0m";
    let run = InlineRun::new(vec![
        InlineItem::styled_text("label", styled, "project").required()
    ]);

    let placed = run.layout(7);

    assert_eq!(placed.visible_width, 7);
    assert_eq!(visible_width_without_ansi(&placed.text), 7);
}
