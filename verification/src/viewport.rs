//! The window of a rendered rail that the pane shows: which rows are
//! copied out, and how the hits and cards of those rows move with them.

use vstd::prelude::*;
use crate::render::{
    absolute_viewport_start, ensure_visible_spec, ensure_visible_start, HitRegion, VisibleCard,
    VisibleIconRect,
};

verus! {

/// Where the shown window starts, and what keeping the active card in view did.
#[derive(Debug, Clone, Copy, Default, PartialEq, Eq, Structural)]
pub struct Viewport {
    pub visible_start: usize,
    pub ensure_visible_offset: Option<isize>,
    pub ensure_active_resolved: bool,
}

/// The first row shown: the user's scroll position, moved just far enough
/// to show the active card's rows when it must be kept in view.
pub open spec fn window_start(
    rows: int,
    available_rows: int,
    user_scroll_offset: int,
    ensure_active_visible: bool,
    active_hit_rows: Option<(usize, usize)>,
) -> int {
    let max_start = if rows > available_rows { rows - available_rows } else { 0 };
    let base = if user_scroll_offset < 0 { 0 } else if user_scroll_offset > max_start { max_start } else { user_scroll_offset };
    match active_hit_rows {
        Some((start, end)) => if ensure_active_visible {
            ensure_visible_spec(base, start as int, end as int, available_rows, max_start)
        } else {
            base
        },
        None => base,
    }
}

/// The shown part of a hit, its rows counted from the window's start; none
/// when it lies outside the window `[start, end)`.
pub open spec fn clipped_hit(hit: HitRegion, start: int, end: int) -> Option<HitRegion> {
    if hit.row_end < start || hit.row_start >= end {
        None
    } else {
        Some(
            HitRegion {
                row_start: (if hit.row_start >= start { hit.row_start - start } else { 0 }) as usize,
                row_end: ((if hit.row_end < end - 1 { hit.row_end as int } else { end - 1 }) - start) as usize,
                ..hit
            },
        )
    }
}

pub open spec fn clipped_hits(hits: Seq<HitRegion>, start: int, end: int) -> Seq<HitRegion>
    decreases hits.len(),
{
    if hits.len() == 0 {
        Seq::empty()
    } else {
        let before = clipped_hits(hits.drop_last(), start, end);
        match clipped_hit(hits.last(), start, end) {
            Some(hit) => before.push(hit),
            None => before,
        }
    }
}

/// A card whose first row is shown, its rows counted from the window's
/// start; its status row and icon only while they are shown too.
pub open spec fn clipped_card(card: VisibleCard, start: int, end: int) -> Option<VisibleCard> {
    if card.row_start < start || card.row_start >= end {
        None
    } else {
        Some(
            VisibleCard {
                row_start: (card.row_start - start) as usize,
                status_row: match card.status_row {
                    Some(row) => if start <= row < end { Some((row - start) as usize) } else { None },
                    None => None,
                },
                status_icon_rect: match card.status_icon_rect {
                    Some(rect) => if rect.y < start || rect.y >= end {
                        None
                    } else {
                        Some(VisibleIconRect { y: (rect.y - start) as usize, ..rect })
                    },
                    None => None,
                },
                ..card
            },
        )
    }
}

pub open spec fn clipped_cards(cards: Seq<VisibleCard>, start: int, end: int) -> Seq<VisibleCard>
    decreases cards.len(),
{
    if cards.len() == 0 {
        Seq::empty()
    } else {
        let before = clipped_cards(cards.drop_last(), start, end);
        match clipped_card(cards.last(), start, end) {
            Some(card) => before.push(card),
            None => before,
        }
    }
}

fn clip_hit(hit: HitRegion, start: usize, end: usize) -> (r: Option<HitRegion>)
    requires
        start < end,
    ensures
        r == clipped_hit(hit, start as int, end as int),
{
    if hit.row_end < start || hit.row_start >= end {
        return None;
    }
    let mut hit = hit;
    hit.row_start = hit.row_start.saturating_sub(start);
    hit.row_end = (if hit.row_end < end - 1 { hit.row_end } else { end - 1 }) - start;
    Some(hit)
}

fn clip_card(card: VisibleCard, start: usize, end: usize) -> (r: Option<VisibleCard>)
    ensures
        r == clipped_card(card, start as int, end as int),
{
    if card.row_start < start || card.row_start >= end {
        return None;
    }
    let mut card = card;
    card.row_start = card.row_start - start;
    card.status_row = match card.status_row {
        Some(row) => if row >= start && row < end { Some(row - start) } else { None },
        None => None,
    };
    card.status_icon_rect = match card.status_icon_rect {
        Some(rect) => if rect.y < start || rect.y >= end {
            None
        } else {
            Some(VisibleIconRect { y: rect.y - start, ..rect })
        },
        None => None,
    };
    Some(card)
}

/// Copies the shown window of a rendered buffer into `lines`, and the hits
/// and cards of the shown rows, renumbered, into `hit_regions` and
/// `visible_cards`. `active_hit_rows` holds the rows of the active card's
/// hit when it must be kept in view and the buffer has one.
pub fn copy_visible_buffer(
    lines: &mut Vec<String>,
    hit_regions: &mut Vec<HitRegion>,
    visible_cards: &mut Vec<VisibleCard>,
    buffered_lines: Vec<String>,
    buffered_hits: Vec<HitRegion>,
    buffered_cards: Vec<VisibleCard>,
    active_hit_rows: Option<(usize, usize)>,
    available_rows: usize,
    user_scroll_offset: isize,
    ensure_active_visible: bool,
) -> (viewport: Viewport)
    requires
        buffered_lines@.len() <= isize::MAX,
        old(lines)@.len() >= available_rows || old(lines)@.len() >= buffered_lines@.len(),
    ensures
        buffered_lines@.len() == 0 || available_rows == 0 ==> {
            &&& viewport == Viewport { visible_start: 0, ensure_visible_offset: None, ensure_active_resolved: false }
            &&& final(lines)@ == old(lines)@
            &&& final(hit_regions)@ == old(hit_regions)@
            &&& final(visible_cards)@ == old(visible_cards)@
        },
        buffered_lines@.len() > 0 && available_rows > 0 ==> {
            let rows = buffered_lines@.len() as int;
            let start = window_start(rows, available_rows as int, user_scroll_offset as int, ensure_active_visible, active_hit_rows);
            let max_start = if rows > available_rows { rows - available_rows } else { 0 };
            let base = if user_scroll_offset < 0 { 0 } else if user_scroll_offset > max_start { max_start } else { user_scroll_offset as int };
            let end = if rows < start + available_rows { rows } else { start + available_rows };
            &&& viewport.visible_start == start
            &&& viewport.ensure_visible_offset == if start != base { Some(start as isize) } else { None::<isize> }
            &&& viewport.ensure_active_resolved == (ensure_active_visible && active_hit_rows is Some)
            &&& 0 <= start < end <= rows
            &&& final(lines)@.len() == old(lines)@.len()
            &&& forall|k: int| 0 <= k < end - start ==> (#[trigger] final(lines)@[k])@ == buffered_lines@[start + k]@
            &&& forall|k: int| end - start <= k < old(lines)@.len() ==> #[trigger] final(lines)@[k] == old(lines)@[k]
            &&& final(hit_regions)@ == old(hit_regions)@ + clipped_hits(buffered_hits@, start, end)
            &&& final(visible_cards)@ == old(visible_cards)@ + clipped_cards(buffered_cards@, start, end)
        },
{
    if buffered_lines.len() == 0 || available_rows == 0 {
        return Viewport { visible_start: 0, ensure_visible_offset: None, ensure_active_resolved: false };
    }
    let max_start = buffered_lines.len().saturating_sub(available_rows);
    let base_start = absolute_viewport_start(user_scroll_offset, max_start);
    let ensure_active_resolved = ensure_active_visible && active_hit_rows.is_some();
    let visible_start = match active_hit_rows {
        Some((target_start, target_end)) => if ensure_active_visible {
            ensure_visible_start(base_start, target_start, target_end, available_rows, max_start)
        } else {
            base_start
        },
        None => base_start,
    };
    let ensure_visible_offset = if visible_start != base_start { Some(visible_start as isize) } else { None };
    let visible_end = if buffered_lines.len() < visible_start + available_rows {
        buffered_lines.len()
    } else {
        visible_start + available_rows
    };
    let ghost old_lines = lines@;
    let mut row: usize = 0;
    while row < visible_end - visible_start
        invariant
            visible_start < visible_end <= buffered_lines@.len(),
            visible_end - visible_start <= lines@.len(),
            row <= visible_end - visible_start,
            lines@.len() == old_lines.len(),
            forall|k: int| 0 <= k < row ==> (#[trigger] lines@[k])@ == buffered_lines@[visible_start + k]@,
            forall|k: int| row <= k < old_lines.len() ==> #[trigger] lines@[k] == old_lines[k],
        decreases visible_end - visible_start - row,
    {
        let line = buffered_lines[visible_start + row].clone();
        lines.set(row, line);
        row = row + 1;
    }
    proof {
        assert(old_lines == old(lines)@);
        assert(row == visible_end - visible_start);
    }
    let ghost old_hits = hit_regions@;
    let ghost all_hits = buffered_hits@;
    let _hit_count = buffered_hits.len();
    let mut pending_hits = buffered_hits;
    let mut taken: usize = 0;
    while pending_hits.len() > 0
        invariant
            visible_start < visible_end,
            taken + pending_hits@.len() == all_hits.len(),
            all_hits.len() <= usize::MAX,
            pending_hits@ == all_hits.skip(taken as int),
            hit_regions@ == old_hits + clipped_hits(all_hits.take(taken as int), visible_start as int, visible_end as int),
        decreases pending_hits.len(),
    {
        let hit = pending_hits.remove(0);
        proof {
            assert(all_hits.take(taken + 1).drop_last() =~= all_hits.take(taken as int));
            assert(all_hits.take(taken + 1).last() == hit);
            assert(pending_hits@ =~= all_hits.skip(taken + 1));
        }
        match clip_hit(hit, visible_start, visible_end) {
            Some(clipped) => hit_regions.push(clipped),
            None => {},
        }
        taken = taken + 1;
    }
    proof {
        assert(all_hits.take(taken as int) =~= all_hits);
    }
    let ghost old_cards = visible_cards@;
    let ghost all_cards = buffered_cards@;
    let _card_count = buffered_cards.len();
    let mut pending_cards = buffered_cards;
    let mut taken: usize = 0;
    while pending_cards.len() > 0
        invariant
            taken + pending_cards@.len() == all_cards.len(),
            all_cards.len() <= usize::MAX,
            pending_cards@ == all_cards.skip(taken as int),
            visible_cards@ == old_cards + clipped_cards(all_cards.take(taken as int), visible_start as int, visible_end as int),
        decreases pending_cards.len(),
    {
        let card = pending_cards.remove(0);
        proof {
            assert(all_cards.take(taken + 1).drop_last() =~= all_cards.take(taken as int));
            assert(all_cards.take(taken + 1).last() == card);
            assert(pending_cards@ =~= all_cards.skip(taken + 1));
        }
        match clip_card(card, visible_start, visible_end) {
            Some(clipped) => visible_cards.push(clipped),
            None => {},
        }
        taken = taken + 1;
    }
    proof {
        assert(all_cards.take(taken as int) =~= all_cards);
    }
    Viewport { visible_start, ensure_visible_offset, ensure_active_resolved }
}

/// The rows `[start, end)` of a window and a hit overlap.
pub open spec fn overlaps_window(hit: HitRegion, start: int, end: int) -> bool {
    hit.row_end >= start && hit.row_start < end
}

/// `shown` is `hit` as the window `[start, end)` shows it: the same hit,
/// its first and last rows cut to the window and counted from its start.
pub open spec fn shown_as(shown: HitRegion, hit: HitRegion, start: int, end: int) -> bool {
    &&& shown.row_start as int == (if hit.row_start > start { hit.row_start as int } else { start }) - start
    &&& shown.row_end as int == (if hit.row_end < end - 1 { hit.row_end as int } else { end - 1 }) - start
    &&& shown.col_start == hit.col_start && shown.col_end == hit.col_end
    &&& shown.tab_id == hit.tab_id && shown.tab_position == hit.tab_position
    &&& shown.group_path == hit.group_path && shown.action == hit.action
}

/// `shown` is one of `hits` that overlaps the window, as the window shows it.
pub open spec fn shows_a_hit_of(shown: HitRegion, hits: Seq<HitRegion>, start: int, end: int) -> bool {
    exists|k: int| 0 <= k < hits.len() && overlaps_window(hits[k], start, end) && shown_as(shown, #[trigger] hits[k], start, end)
}

/// The number of hits that overlap the window.
pub open spec fn overlapping_count(hits: Seq<HitRegion>, start: int, end: int) -> nat
    decreases hits.len(),
{
    if hits.len() == 0 {
        0
    } else {
        overlapping_count(hits.drop_last(), start, end) + if overlaps_window(hits.last(), start, end) { 1nat } else { 0nat }
    }
}

/// The window keeps every hit it overlaps, and only those: the hits it
/// shows are, in order, the hits that overlap it, each cut to its rows.
/// So a card partly scrolled out of view still answers clicks on the rows
/// that remain.
pub proof fn lemma_window_keeps_overlapping_hits(hits: Seq<HitRegion>, start: int, end: int)
    requires
        0 <= start < end,
    ensures
        clipped_hits(hits, start, end).len() == overlapping_count(hits, start, end),
        forall|k: int| 0 <= k < hits.len() && overlaps_window(hits[k], start, end) ==> exists|j: int|
            0 <= j < clipped_hits(hits, start, end).len() && shown_as(#[trigger] clipped_hits(hits, start, end)[j], hits[k], start, end),
        forall|j: int| 0 <= j < clipped_hits(hits, start, end).len() ==> shows_a_hit_of(#[trigger] clipped_hits(hits, start, end)[j], hits, start, end),
    decreases hits.len(),
{
    if hits.len() > 0 {
        let rest = hits.drop_last();
        lemma_window_keeps_overlapping_hits(rest, start, end);
        let before = clipped_hits(rest, start, end);
        let after = clipped_hits(hits, start, end);
        let h = hits.last();
        assert forall|k: int| 0 <= k < hits.len() && overlaps_window(hits[k], start, end) implies exists|j: int|
            0 <= j < after.len() && shown_as(#[trigger] after[j], hits[k], start, end) by {
            if k < hits.len() - 1 {
                assert(hits[k] == rest[k]);
                let j = choose|j: int| 0 <= j < before.len() && shown_as(#[trigger] before[j], rest[k], start, end);
                assert(after[j] == before[j]);
            } else {
                assert(after[after.len() - 1] == clipped_hit(h, start, end)->0);
                assert(shown_as(after[after.len() - 1], hits[k], start, end));
            }
        }
        assert forall|j: int| 0 <= j < after.len() implies shows_a_hit_of(#[trigger] after[j], hits, start, end) by {
            if j < before.len() {
                assert(after[j] == before[j]);
                assert(shows_a_hit_of(before[j], rest, start, end));
                let k = choose|k: int| 0 <= k < rest.len() && overlaps_window(rest[k], start, end) && shown_as(before[j], #[trigger] rest[k], start, end);
                assert(hits[k] == rest[k]);
            } else {
                assert(clipped_hit(h, start, end) is Some);
                assert(after[j] == clipped_hit(h, start, end)->0);
                assert(hits[hits.len() - 1] == h);
                assert(overlaps_window(hits[hits.len() - 1], start, end));
                assert(shown_as(after[j], hits[hits.len() - 1], start, end));
            }
        }
    }
}

} // verus!
