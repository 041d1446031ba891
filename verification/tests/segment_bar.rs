use andamento::segment_bar::{render, render_wrapped, SegmentHit, SegmentHitBox, SegmentItem, ZellijRibbonStyle};

#[test]
fn render_returns_hits_from_rendered_segments() {
    let items = vec![
        SegmentItem {
            label: "settings".to_owned(),
            active: false,
        },
        SegmentItem {
            label: "inspect".to_owned(),
            active: true,
        },
    ];

    let (line, hits) = render(&items, &ZellijRibbonStyle, 32);

    assert_eq!(line.trim_end(), "\u{e0b0} settings \u{e0b0}\u{e0b0} inspect \u{e0b0}");
    assert_eq!(
        hits,
        vec![
            SegmentHit {
                index: 0,
                col_start: 0,
                col_end: 11
            },
            SegmentHit {
                index: 1,
                col_start: 12,
                col_end: 22
            }
        ]
    );
}

#[test]
fn render_truncates_last_segment_and_keeps_hit_to_visible_columns() {
    let items = vec![SegmentItem {
        label: "templates".to_owned(),
        active: true,
    }];

    let (line, hits) = render(&items, &ZellijRibbonStyle, 6);

    assert_eq!(line, "\u{e0b0} temp");
    assert_eq!(
        hits,
        vec![SegmentHit {
            index: 0,
            col_start: 0,
            col_end: 5
        }]
    );
}

#[test]
fn render_wrapped_keeps_segments_inside_bounded_width() {
    let items = vec![
        SegmentItem {
            label: "main".to_owned(),
            active: false,
        },
        SegmentItem {
            label: "feat/rail".to_owned(),
            active: true,
        },
        SegmentItem {
            label: "docs".to_owned(),
            active: false,
        },
    ];

    let rendered = render_wrapped(&items, &ZellijRibbonStyle, 20);

    assert_eq!(rendered.lines[0].trim_end(), "\u{e0b0} main \u{e0b0}");
    assert_eq!(rendered.lines[1].trim_end(), "\u{e0b0} feat/rail \u{e0b0}");
    assert_eq!(rendered.lines[2].trim_end(), "\u{e0b0} docs \u{e0b0}");
    assert_eq!(
        rendered.hits,
        vec![
            SegmentHitBox {
                index: 0,
                row: 0,
                col_start: 0,
                col_end: 7
            },
            SegmentHitBox {
                index: 1,
                row: 1,
                col_start: 0,
                col_end: 12
            },
            SegmentHitBox {
                index: 2,
                row: 2,
                col_start: 0,
                col_end: 7
            }
        ]
    );
    assert_eq!(rendered.final_line_remaining_width, 12);
}
