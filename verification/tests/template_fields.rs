use andamento::model::{MetadataValue, ResolvedTemplateFieldSource};
use andamento::inline_layout::InlineClass;
use andamento::template_fields::{
    inline_item_from_template_field, render_template_fields_inline_with_suppression,
    droppable_template_field_priorities, fit_template_fields_for_width, join_template_fields,
    render_template_fields, render_template_fields_with_suppression, select_template_fields_for_width,
    template_field_priority, template_field_source, template_field_value, truncate_template_field,
    TemplateField,
};

fn prioritized(value: &str, priority: i64) -> TemplateField {
    TemplateField::Prioritized { value: value.to_owned(), priority, source: None }
}

fn sourced(value: &str, priority: i64, key: &str) -> TemplateField {
    TemplateField::Prioritized {
        value: value.to_owned(),
        priority,
        source: Some(ResolvedTemplateFieldSource {
            key: key.to_owned(),
            value: MetadataValue::Text(value.to_owned()),
        }),
    }
}

fn values(fields: &[TemplateField]) -> Vec<String> {
    fields.iter().map(|field| template_field_value(field).to_owned()).collect()
}

#[test]
fn render_template_fields_drops_low_numeric_priorities_first() {
    let fields = vec![prioritized("repo", 100), prioritized("main", 10), prioritized(": tests", 80)];

    assert_eq!(render_template_fields(&fields, 12), "repo: tests");
}

#[test]
fn render_template_fields_truncates_low_priority_fields_before_dropping_them() {
    let fields = vec![prioritized("zellij-org/zellij", 100), prioritized("feat/kitty-image-plumbing", 60)];

    assert_eq!(render_template_fields(&fields, 30), "zellij-org/zellij feat/kitt...");
}

#[test]
fn template_fields_drop_optional_before_priority_when_narrow() {
    let fields = vec![
        TemplateField::Required("▶".to_owned()),
        TemplateField::Required("zellij".to_owned()),
        TemplateField::Optional("(2)".to_owned()),
        TemplateField::Priority(": tests".to_owned()),
    ];

    assert_eq!(render_template_fields(&fields, 17), "▶ zellij: tests");
}

#[test]
fn field_ranks_follow_their_kind() {
    assert_eq!(template_field_priority(&TemplateField::Optional("a".to_owned())), 0);
    assert_eq!(template_field_priority(&TemplateField::Required("a".to_owned())), 100);
    assert_eq!(template_field_priority(&TemplateField::Priority("a".to_owned())), 100);
    assert_eq!(template_field_priority(&prioritized("a", 42)), 42);
    assert!(template_field_source(&prioritized("a", 42)).is_none());
    assert_eq!(template_field_source(&sourced("a", 42, "git.branch")).map(|s| s.key.clone()), Some("git.branch".to_owned()));
}

#[test]
fn joining_puts_spaces_except_before_colons() {
    let fields = vec![
        TemplateField::Required("zellij".to_owned()),
        TemplateField::Optional("(2)".to_owned()),
        TemplateField::Priority(": tests".to_owned()),
    ];
    assert_eq!(join_template_fields(&fields, true), "zellij (2): tests");
    assert_eq!(join_template_fields(&fields, false), "zellij: tests");
    assert_eq!(join_template_fields(&[], true), "");
}

#[test]
fn truncating_a_field_keeps_its_kind() {
    let mut field = prioritized("feat/kitty-image-plumbing", 60);
    truncate_template_field(&mut field, 12);
    assert_eq!(template_field_value(&field), "feat/kitt...");
    assert_eq!(template_field_priority(&field), 60);
}

#[test]
fn droppable_priorities_are_the_distinct_ranks_below_the_top() {
    let fields = vec![
        prioritized("a", 80),
        TemplateField::Optional("b".to_owned()),
        prioritized("c", 10),
        prioritized("d", 80),
        TemplateField::Required("e".to_owned()),
    ];
    assert_eq!(droppable_template_field_priorities(&fields), vec![0, 10, 80]);
    assert_eq!(droppable_template_field_priorities(&[]), Vec::<i64>::new());
}

#[test]
fn fitting_fails_when_short_fields_cannot_shrink() {
    let fields = vec![prioritized("repo", 100), prioritized("main", 10), prioritized(": tests", 80)];
    assert!(fit_template_fields_for_width(&fields, 12).is_none());
    let fitted = fit_template_fields_for_width(&fields, 16).expect("fits as it is");
    assert_eq!(values(&fitted), vec!["repo", "main", ": tests"]);
}

#[test]
fn selection_falls_back_to_the_highest_ranked_fields() {
    let fields = vec![prioritized("alpha", 50), prioritized("be", 90), prioritized("cd", 90)];
    let selected = select_template_fields_for_width(&fields, 4);
    assert_eq!(values(&selected), vec!["be", "cd"]);
}

#[test]
fn suppressed_sources_are_left_out_and_shown_sources_reported() {
    let fields = vec![
        sourced("repo", 100, "git.repo"),
        sourced("main", 50, "git.branch"),
        TemplateField::Required("x".to_owned()),
    ];
    let suppressed = vec![ResolvedTemplateFieldSource {
        key: "git.branch".to_owned(),
        value: MetadataValue::Text("main".to_owned()),
    }];
    let rendered = render_template_fields_with_suppression(&fields, 40, &suppressed);
    assert_eq!(rendered.text, "repo x");
    assert_eq!(rendered.visible_sources.len(), 1);
    assert_eq!(rendered.visible_sources[0].key, "git.repo");

    let all = render_template_fields_with_suppression(&fields, 40, &[]);
    assert_eq!(all.text, "repo main x");
    assert_eq!(all.visible_sources.len(), 2);
}

#[test]
fn inline_items_carry_the_field_index_and_rank() {
    let item = inline_item_from_template_field(3, &prioritized("main", 40));
    assert_eq!(item.id, "field:3");
    assert_eq!(item.text, "main");
    assert_eq!(item.class, InlineClass::Priority);
    assert_eq!(item.priority, 40);
    let optional = inline_item_from_template_field(12, &TemplateField::Optional("(2)".to_owned()));
    assert_eq!(optional.id, "field:12");
    assert_eq!(optional.class, InlineClass::Optional);
    let plain = inline_item_from_template_field(0, &TemplateField::Priority(": tests".to_owned()));
    assert_eq!(plain.class, InlineClass::Priority);
    assert_eq!(plain.priority, 100);
}

#[test]
fn inline_rendering_drops_optional_fields_first_and_reports_sources() {
    let fields = vec![
        TemplateField::Required("▶".to_owned()),
        sourced("zellij", 100, "group.label"),
        TemplateField::Optional("(2)".to_owned()),
        TemplateField::Priority(": tests".to_owned()),
    ];
    let rendered = render_template_fields_inline_with_suppression(&fields, 17, &[]);
    assert_eq!(rendered.text, "▶ zellij: tests");
    assert_eq!(rendered.visible_sources.len(), 1);
    assert_eq!(rendered.visible_sources[0].key, "group.label");

    let suppressed = vec![ResolvedTemplateFieldSource {
        key: "group.label".to_owned(),
        value: MetadataValue::Text("zellij".to_owned()),
    }];
    let without = render_template_fields_inline_with_suppression(&fields, 40, &suppressed);
    assert_eq!(without.text, "▶ (2): tests");
    assert!(without.visible_sources.is_empty());
}
