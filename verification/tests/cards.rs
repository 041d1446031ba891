use andamento::cards::{
    cell_height, generous_card_run_height, visible_boxes, visible_cells, CardLayout,
};

fn card(active: bool, compact: bool) -> CardLayout {
    CardLayout {
        active,
        compact,
        meta_panel_rows: 0,
    }
}

#[test]
fn cell_height_grows_when_card_has_meta_panel() {
    let mut card = CardLayout {
        active: false,
        compact: false,
        meta_panel_rows: 0,
    };
    let base = cell_height(&card, false);
    card.meta_panel_rows = 3;
    let grown = cell_height(&card, false);
    assert_eq!(grown, base + 3);
}

#[test]
fn compact_cards_take_fewer_rows() {
    assert_eq!(cell_height(&card(false, true), true), 2);
    assert_eq!(cell_height(&card(false, true), false), 3);
    assert_eq!(cell_height(&card(false, false), true), 5);
    assert_eq!(generous_card_run_height(&vec![card(false, true), card(true, false)]), 13);
}

#[test]
fn all_cells_are_shown_when_they_fit() {
    let cards = vec![card(false, true), card(true, false), card(false, true)];
    assert_eq!(visible_cells(&cards, 10), vec![(0, 2), (1, 5), (2, 2)]);
    assert!(visible_cells(&cards, 2).is_empty());
    assert!(visible_cells(&Vec::new(), 20).is_empty());
}

#[test]
fn the_window_grows_around_the_active_card_before_it_first() {
    let cards = vec![
        card(false, true),
        card(false, true),
        card(true, false),
        card(false, true),
    ];
    // The active card and its closing row take six rows; two more fit.
    assert_eq!(visible_cells(&cards, 8), vec![(1, 2), (2, 5)]);
    assert_eq!(visible_cells(&cards, 10), vec![(0, 2), (1, 2), (2, 5)]);
    assert_eq!(visible_boxes(&cards, 8), vec![(1, 3), (2, 5)]);
}

#[test]
fn without_an_active_card_the_window_starts_at_the_first() {
    let cards = vec![card(false, false), card(false, false)];
    assert_eq!(visible_boxes(&cards, 5), vec![(0, 5)]);
}
