//! Which tab cards fit in the rail: the heights of cards and the window of
//! cards kept around the active one when not all of them fit.

use vstd::prelude::*;

verus! {

/// Rows of a full card.
pub const ACTIVE_CELL_HEIGHT: usize = 5;

/// Rows of a compact card drawn as a joined cell.
pub const COMPACT_CELL_HEIGHT: usize = 2;

/// What the layout reads of a card: whether it is the active tab, whether
/// it is drawn in its compact form, and how many metadata panel rows it holds.
#[derive(Debug, Clone, Copy, PartialEq, Eq, Structural)]
pub struct CardLayout {
    pub active: bool,
    pub compact: bool,
    pub meta_panel_rows: usize,
}

/// The rows a card takes: a compact card two rows as a joined cell and
/// three as a box, a full card five, plus its metadata panel rows.
pub open spec fn card_rows(card: CardLayout, joined_cell: bool) -> int {
    let base = if card.compact {
        if joined_cell { COMPACT_CELL_HEIGHT as int } else { COMPACT_CELL_HEIGHT + 1 }
    } else {
        ACTIVE_CELL_HEIGHT as int
    };
    base + card.meta_panel_rows
}

pub fn cell_height(card: &CardLayout, joined_cell: bool) -> (h: usize)
    requires
        card.meta_panel_rows + ACTIVE_CELL_HEIGHT <= usize::MAX,
    ensures
        h == card_rows(*card, joined_cell),
{
    let compact = if joined_cell { COMPACT_CELL_HEIGHT } else { COMPACT_CELL_HEIGHT + 1 };
    let base = if card.compact { compact } else { ACTIVE_CELL_HEIGHT };
    base + card.meta_panel_rows
}

/// Whether every card's panel rows leave room for its height in a `usize`.
pub open spec fn panels_fit(cards: Seq<CardLayout>) -> bool {
    forall|i: int| 0 <= i < cards.len() ==> #[trigger] cards[i].meta_panel_rows + ACTIVE_CELL_HEIGHT <= usize::MAX
}

/// The sum of `rows` over the first `n` cards.
pub open spec fn rows_sum(heights: Seq<int>, n: int) -> int
    decreases n,
{
    if n <= 0 || n > heights.len() {
        0
    } else {
        rows_sum(heights, n - 1) + heights[n - 1]
    }
}

/// The rows of each card drawn as a joined cell.
pub open spec fn joined_heights(cards: Seq<CardLayout>) -> Seq<int> {
    cards.map_values(|card: CardLayout| card_rows(card, true))
}

/// The rows of each card drawn as a box: at least two.
pub open spec fn box_heights(cards: Seq<CardLayout>) -> Seq<int> {
    cards.map_values(|card: CardLayout| if card_rows(card, false) > 2 { card_rows(card, false) } else { 2 })
}

/// The rows of each card given room to breathe: at least a full card, and
/// a separating row.
pub open spec fn generous_heights(cards: Seq<CardLayout>) -> Seq<int> {
    cards.map_values(
        |card: CardLayout| (if card_rows(card, false) > ACTIVE_CELL_HEIGHT { card_rows(card, false) } else { ACTIVE_CELL_HEIGHT as int }) + 1,
    )
}

/// The rows a run of cards takes when each gets a full card's room.
pub fn generous_card_run_height(cards: &Vec<CardLayout>) -> (h: usize)
    requires
        panels_fit(cards@),
        rows_sum(generous_heights(cards@), cards@.len() as int) + 1 <= usize::MAX,
    ensures
        h == rows_sum(generous_heights(cards@), cards@.len() as int) + 1,
{
    let ghost heights = generous_heights(cards@);
    let mut total: usize = 0;
    let mut i: usize = 0;
    while i < cards.len()
        invariant
            heights == generous_heights(cards@),
            i <= cards@.len(),
            panels_fit(cards@),
            rows_sum(heights, cards@.len() as int) + 1 <= usize::MAX,
            total == rows_sum(heights, i as int),
        decreases cards.len() - i,
    {
        proof {
            assert forall|k: int| 0 <= k < heights.len() implies heights[k] >= 0 by {
                assert(heights[k] == (if card_rows(cards@[k], false) > ACTIVE_CELL_HEIGHT { card_rows(cards@[k], false) } else { ACTIVE_CELL_HEIGHT as int }) + 1);
            }
            lemma_rows_sum_monotone(heights, i + 1, cards@.len() as int);
        }
        let h = cell_height(&cards[i], false);
        let room = if h > ACTIVE_CELL_HEIGHT { h } else { ACTIVE_CELL_HEIGHT };
        total = total + room + 1;
        i = i + 1;
    }
    total + 1
}

pub proof fn lemma_rows_sum_monotone(heights: Seq<int>, m: int, n: int)
    requires
        0 <= m <= n <= heights.len(),
        forall|i: int| 0 <= i < heights.len() ==> heights[i] >= 0,
    ensures
        rows_sum(heights, m) <= rows_sum(heights, n),
    decreases n - m,
{
    if m < n {
        lemma_rows_sum_monotone(heights, m, n - 1);
    }
}

/// The window `[lo, hi)` of cards grown from `[lo, hi)` holding `used`
/// rows: a card before the window is added while it fits in `available`
/// rows, else one after it, until neither fits.
pub open spec fn grown_window(heights: Seq<int>, lo: int, hi: int, used: int, available: int) -> (int, int)
    decreases lo + heights.len() - hi,
{
    if 0 < lo && hi <= heights.len() && used + heights[lo - 1] <= available {
        grown_window(heights, lo - 1, hi, used + heights[lo - 1], available)
    } else if 0 <= lo && hi < heights.len() && used + heights[hi] <= available {
        grown_window(heights, lo, hi + 1, used + heights[hi], available)
    } else {
        (lo, hi)
    }
}

/// The rows that the window grown from `[lo, hi)` holds in the end.
pub open spec fn grown_rows(heights: Seq<int>, lo: int, hi: int, used: int, available: int) -> int
    decreases lo + heights.len() - hi,
{
    if 0 < lo && hi <= heights.len() && used + heights[lo - 1] <= available {
        grown_rows(heights, lo - 1, hi, used + heights[lo - 1], available)
    } else if 0 <= lo && hi < heights.len() && used + heights[hi] <= available {
        grown_rows(heights, lo, hi + 1, used + heights[hi], available)
    } else {
        used
    }
}

/// The index of the first active card; the first card when none is.
pub open spec fn active_index(cards: Seq<CardLayout>, from: int) -> int
    decreases cards.len() - from,
{
    if from < 0 || from >= cards.len() {
        0
    } else if cards[from].active {
        from
    } else {
        active_index(cards, from + 1)
    }
}

proof fn lemma_active_index_bounds(cards: Seq<CardLayout>, from: int)
    requires
        cards.len() > 0,
    ensures
        0 <= active_index(cards, from) < cards.len(),
    decreases cards.len() - from,
{
    if 0 <= from < cards.len() && !cards[from].active {
        lemma_active_index_bounds(cards, from + 1);
    }
}

/// The cards of `[lo, hi)`, each with its height.
pub open spec fn window_cells(heights: Seq<int>, lo: int, hi: int) -> Seq<(usize, usize)> {
    Seq::new((hi - lo) as nat, |k: int| ((lo + k) as usize, heights[lo + k] as usize))
}

/// The cards shown as joined cells in `available` rows: all of them when
/// they fit with the closing row, else the window grown around the active
/// card; none when not even a compact card fits.
pub open spec fn visible_cells_spec(cards: Seq<CardLayout>, available: int) -> Seq<(usize, usize)> {
    let heights = joined_heights(cards);
    if cards.len() == 0 || available < COMPACT_CELL_HEIGHT + 1 {
        Seq::empty()
    } else if rows_sum(heights, cards.len() as int) + 1 <= available {
        window_cells(heights, 0, cards.len() as int)
    } else {
        let a = active_index(cards, 0);
        let (lo, hi) = grown_window(heights, a, a + 1, heights[a] + 1, available);
        window_cells(heights, lo, hi)
    }
}

/// The cards shown as separate boxes in `available` rows: the window grown
/// around the active card; none when not even a compact card fits.
pub open spec fn visible_boxes_spec(cards: Seq<CardLayout>, available: int) -> Seq<(usize, usize)> {
    let heights = box_heights(cards);
    if cards.len() == 0 || available < COMPACT_CELL_HEIGHT + 1 {
        Seq::empty()
    } else {
        let a = active_index(cards, 0);
        let (lo, hi) = grown_window(heights, a, a + 1, heights[a], available);
        window_cells(heights, lo, hi)
    }
}

/// Grows the window `[lo, hi)` holding `used` rows as `grown_window` does.
fn grow_window(heights: &Vec<usize>, lo: usize, hi: usize, used: usize, available: usize) -> (r: (usize, usize))
    requires
        lo < hi <= heights@.len(),
    ensures
        r.0 as int == grown_window(heights@.map_values(|h: usize| h as int), lo as int, hi as int, used as int, available as int).0,
        r.1 as int == grown_window(heights@.map_values(|h: usize| h as int), lo as int, hi as int, used as int, available as int).1,
        r.0 <= lo < hi <= r.1 <= heights@.len(),
{
    let ghost hs = heights@.map_values(|h: usize| h as int);
    let ghost start = grown_window(hs, lo as int, hi as int, used as int, available as int);
    let mut low = lo;
    let mut high = hi;
    let mut rows = used;
    loop
        invariant
            hs == heights@.map_values(|h: usize| h as int),
            low <= lo < hi <= high <= heights@.len(),
            start == grown_window(hs, lo as int, hi as int, used as int, available as int),
            grown_window(hs, low as int, high as int, rows as int, available as int) == start,
        decreases low + heights@.len() - high,
    {
        if low > 0 && rows <= available && heights[low - 1] <= available - rows {
            rows = rows + heights[low - 1];
            low = low - 1;
        } else if high < heights.len() && rows <= available && heights[high] <= available - rows {
            rows = rows + heights[high];
            high = high + 1;
        } else {
            proof {
                if low > 0 {
                    assert(hs[low - 1] == heights@[low - 1] as int);
                }
                if high < heights@.len() {
                    assert(hs[high as int] == heights@[high as int] as int);
                }
            }
            return (low, high);
        }
    }
}

proof fn lemma_rows_sum_covers(heights: Seq<int>, i: int, n: int)
    requires
        0 <= i < n <= heights.len(),
        forall|k: int| 0 <= k < heights.len() ==> heights[k] >= 0,
    ensures
        heights[i] <= rows_sum(heights, n),
    decreases n,
{
    if i < n - 1 {
        lemma_rows_sum_covers(heights, i, n - 1);
    } else {
        lemma_rows_sum_monotone(heights, 0, n - 1);
    }
}

fn first_active_index(cards: &Vec<CardLayout>) -> (i: usize)
    requires
        cards@.len() > 0,
    ensures
        i == active_index(cards@, 0),
        i < cards@.len(),
{
    proof {
        lemma_active_index_bounds(cards@, 0);
    }
    let mut i: usize = 0;
    while i < cards.len()
        invariant
            i <= cards@.len(),
            active_index(cards@, 0) == active_index(cards@, i as int),
        decreases cards.len() - i,
    {
        if cards[i].active {
            return i;
        }
        i = i + 1;
    }
    0
}

fn window_vec(heights: &Vec<usize>, lo: usize, hi: usize) -> (r: Vec<(usize, usize)>)
    requires
        lo <= hi <= heights@.len(),
    ensures
        r@ == window_cells(heights@.map_values(|h: usize| h as int), lo as int, hi as int),
{
    let ghost hs = heights@.map_values(|h: usize| h as int);
    let mut out: Vec<(usize, usize)> = Vec::new();
    let mut k: usize = lo;
    while k < hi
        invariant
            hs == heights@.map_values(|h: usize| h as int),
            lo <= k <= hi <= heights@.len(),
            out@ == window_cells(hs, lo as int, hi as int).take(k - lo),
        decreases hi - k,
    {
        proof {
            assert(window_cells(hs, lo as int, hi as int).take(k + 1 - lo) =~= window_cells(hs, lo as int, hi as int).take(k - lo).push(
                (k, heights@[k as int]),
            ));
        }
        out.push((k, heights[k]));
        k = k + 1;
    }
    proof {
        assert(window_cells(hs, lo as int, hi as int).take(hi - lo) =~= window_cells(hs, lo as int, hi as int));
    }
    out
}

/// The cards that fit in `available_rows` rows drawn as joined cells, each
/// with its height.
pub fn visible_cells(cards: &Vec<CardLayout>, available_rows: usize) -> (r: Vec<(usize, usize)>)
    requires
        panels_fit(cards@),
        rows_sum(joined_heights(cards@), cards@.len() as int) + 1 <= usize::MAX,
    ensures
        r@ == visible_cells_spec(cards@, available_rows as int),
{
    if cards.len() == 0 || available_rows < COMPACT_CELL_HEIGHT + 1 {
        return Vec::new();
    }
    let ghost hs = joined_heights(cards@);
    let mut heights: Vec<usize> = Vec::new();
    let mut total: usize = 0;
    let mut i: usize = 0;
    while i < cards.len()
        invariant
            hs == joined_heights(cards@),
            i <= cards@.len(),
            panels_fit(cards@),
            rows_sum(hs, cards@.len() as int) + 1 <= usize::MAX,
            heights@.map_values(|h: usize| h as int) == hs.take(i as int),
            total == rows_sum(hs, i as int),
        decreases cards.len() - i,
    {
        proof {
            assert forall|k: int| 0 <= k < hs.len() implies hs[k] >= 0 by {
                assert(hs[k] == card_rows(cards@[k], true));
            }
            lemma_rows_sum_monotone(hs, i + 1, cards@.len() as int);
        }
        let h = cell_height(&cards[i], true);
        proof {
            assert(hs[i as int] == card_rows(cards@[i as int], true));
            assert(heights@.push(h).map_values(|h: usize| h as int) =~= heights@.map_values(|h: usize| h as int).push(h as int));
            assert(hs.take(i + 1) =~= hs.take(i as int).push(hs[i as int]));
        }
        heights.push(h);
        total = total + h;
        i = i + 1;
    }
    proof {
        assert(hs.take(cards@.len() as int) =~= hs);
    }
    if total + 1 <= available_rows {
        return window_vec(&heights, 0, cards.len());
    }
    let active = first_active_index(cards);
    proof {
        assert forall|k: int| 0 <= k < hs.len() implies hs[k] >= 0 by {
            assert(hs[k] == card_rows(cards@[k], true));
        }
        lemma_rows_sum_covers(hs, active as int, cards@.len() as int);
        assert(heights@[active as int] as int == hs[active as int]);
    }
    let (lo, hi) = grow_window(&heights, active, active + 1, heights[active] + 1, available_rows);
    window_vec(&heights, lo, hi)
}

/// The cards that fit in `available_rows` rows drawn as separate boxes,
/// each with its height.
pub fn visible_boxes(cards: &Vec<CardLayout>, available_rows: usize) -> (r: Vec<(usize, usize)>)
    requires
        panels_fit(cards@),
    ensures
        r@ == visible_boxes_spec(cards@, available_rows as int),
{
    if cards.len() == 0 || available_rows < COMPACT_CELL_HEIGHT + 1 {
        return Vec::new();
    }
    let ghost hs = box_heights(cards@);
    let mut heights: Vec<usize> = Vec::new();
    let mut i: usize = 0;
    while i < cards.len()
        invariant
            hs == box_heights(cards@),
            i <= cards@.len(),
            panels_fit(cards@),
            heights@.map_values(|h: usize| h as int) == hs.take(i as int),
        decreases cards.len() - i,
    {
        let h = cell_height(&cards[i], false);
        let h = if h > 2 { h } else { 2 };
        proof {
            assert(hs[i as int] == (if card_rows(cards@[i as int], false) > 2 { card_rows(cards@[i as int], false) } else { 2 }));
            assert(heights@.push(h).map_values(|h: usize| h as int) =~= heights@.map_values(|h: usize| h as int).push(h as int));
            assert(hs.take(i + 1) =~= hs.take(i as int).push(hs[i as int]));
        }
        heights.push(h);
        i = i + 1;
    }
    proof {
        assert(hs.take(cards@.len() as int) =~= hs);
    }
    let active = first_active_index(cards);
    let (lo, hi) = grow_window(&heights, active, active + 1, heights[active], available_rows);
    window_vec(&heights, lo, hi)
}

/// The window around the active card: it keeps the cards it started
/// with, holds exactly the rows of its cards, stays within the available
/// rows when its start did, and stops only when neither the card before it
/// nor the card after it fits.
pub proof fn lemma_grown_window(heights: Seq<int>, lo: int, hi: int, used: int, available: int)
    requires
        0 <= lo <= hi <= heights.len(),
        forall|k: int| 0 <= k < heights.len() ==> heights[k] >= 0,
    ensures
        ({
            let (l, r) = grown_window(heights, lo, hi, used, available);
            let rows = grown_rows(heights, lo, hi, used, available);
            &&& 0 <= l <= lo
            &&& hi <= r <= heights.len()
            &&& rows == used + (rows_sum(heights, lo) - rows_sum(heights, l)) + (rows_sum(heights, r) - rows_sum(heights, hi))
            &&& used <= available ==> rows <= available
            &&& l == 0 || rows + heights[l - 1] > available
            &&& r == heights.len() || rows + heights[r] > available
        }),
    decreases lo + heights.len() - hi,
{
    if 0 < lo && hi <= heights.len() && used + heights[lo - 1] <= available {
        lemma_grown_window(heights, lo - 1, hi, used + heights[lo - 1], available);
    } else if 0 <= lo && hi < heights.len() && used + heights[hi] <= available {
        lemma_grown_window(heights, lo, hi + 1, used + heights[hi], available);
    }
}

} // verus!
