//! A one-line (or wrapped) bar of labelled segments with click targets.

use vstd::prelude::*;
use crate::width::{str_width, text_width};
use crate::text::{chars_of, string_from_chars, push_text, push_char, padded, pad_to_width, string_views};

verus! {

#[derive(Debug, Clone, PartialEq, Eq)]
pub struct SegmentItem {
    pub label: String,
    pub active: bool,
}

#[derive(Debug, Clone, PartialEq, Eq)]
pub struct RenderedSegment {
    parts: Vec<String>,
    width: usize,
}

#[derive(Debug, Clone, Copy, PartialEq, Eq)]
pub struct SegmentHit {
    pub index: usize,
    pub col_start: usize,
    pub col_end: usize,
}

#[derive(Debug, Clone, Copy, PartialEq, Eq)]
pub struct SegmentHitBox {
    pub index: usize,
    pub row: usize,
    pub col_start: usize,
    pub col_end: usize,
}

#[derive(Debug, Clone, PartialEq, Eq)]
pub struct RenderedSegmentRun {
    pub lines: Vec<String>,
    pub hits: Vec<SegmentHitBox>,
    pub overflowed: bool,
    pub final_line_remaining_width: usize,
}

pub struct SegmentItemView {
    pub label: Seq<char>,
    pub active: bool,
}

impl View for SegmentItem {
    type V = SegmentItemView;

    open spec fn view(&self) -> SegmentItemView {
        SegmentItemView { label: self.label@, active: self.active }
    }
}

pub open spec fn item_views(items: Seq<SegmentItem>) -> Seq<SegmentItemView> {
    items.map_values(|item: SegmentItem| item@)
}

/// The parts of a segment, joined.
pub open spec fn joined(parts: Seq<Seq<char>>) -> Seq<char>
    decreases parts.len(),
{
    if parts.len() == 0 {
        Seq::empty()
    } else {
        joined(parts.drop_last()) + parts.last()
    }
}

/// The sum of the display widths of the parts.
pub open spec fn parts_width(parts: Seq<Seq<char>>) -> int
    decreases parts.len(),
{
    if parts.len() == 0 {
        0
    } else {
        parts_width(parts.drop_last()) + str_width(parts.last())
    }
}

/// The characters of the parts; three columns each at most.
pub open spec fn parts_len(parts: Seq<Seq<char>>) -> int
    decreases parts.len(),
{
    if parts.len() == 0 {
        0
    } else {
        parts_len(parts.drop_last()) + parts.last().len()
    }
}

pub open spec fn part_views(parts: Seq<String>) -> Seq<Seq<char>> {
    parts.map_values(|p: String| p@)
}

impl RenderedSegment {
    /// The text of the segment.
    pub closed spec fn text_spec(&self) -> Seq<char> {
        joined(part_views(self.parts@))
    }

    /// The width of the segment.
    pub closed spec fn width_spec(&self) -> usize {
        self.width
    }

    /// A segment made of `parts`, as wide as their widths together.
    pub fn from_parts(parts: Vec<String>) -> (r: Self)
        requires
            3 * parts_len(part_views(parts@)) <= usize::MAX,
        ensures
            r.text_spec() == joined(part_views(parts@)),
            r.width_spec() == parts_width(part_views(parts@)),
            r.width_spec() <= 3 * parts_len(part_views(parts@)),
    {
        let ghost ps = part_views(parts@);
        let mut width: usize = 0;
        let mut i: usize = 0;
        while i < parts.len()
            invariant
                ps == part_views(parts@),
                i <= parts.len(),
                3 * parts_len(ps) <= usize::MAX,
                width == parts_width(ps.take(i as int)),
                width <= 3 * parts_len(ps.take(i as int)),
            decreases parts.len() - i,
        {
            let w = text_width(parts[i].as_str());
            proof {
                assert(ps.take(i + 1).drop_last() =~= ps.take(i as int));
                assert(ps[i as int] == parts@[i as int]@);
                lemma_parts_len_prefix(ps, i + 1);
            }
            width = width + w;
            i = i + 1;
        }
        proof {
            assert(ps.take(parts.len() as int) =~= ps);
        }
        Self { parts, width }
    }

    fn text(&self) -> (t: String)
        ensures
            t@ == self.text_spec(),
    {
        let ghost ps = part_views(self.parts@);
        let mut t = String::new();
        let mut i: usize = 0;
        while i < self.parts.len()
            invariant
                ps == part_views(self.parts@),
                i <= self.parts.len(),
                t@ == joined(ps.take(i as int)),
            decreases self.parts.len() - i,
        {
            proof {
                assert(ps.take(i + 1).drop_last() =~= ps.take(i as int));
                assert(ps[i as int] == self.parts@[i as int]@);
            }
            push_text(&mut t, self.parts[i].as_str());
            i = i + 1;
        }
        proof {
            assert(ps.take(self.parts.len() as int) =~= ps);
        }
        t
    }

    fn width(&self) -> (w: usize)
        ensures
            w == self.width_spec(),
    {
        self.width
    }
}

proof fn lemma_parts_len_prefix(ps: Seq<Seq<char>>, i: int)
    requires
        0 <= i <= ps.len(),
    ensures
        0 <= parts_len(ps.take(i)) <= parts_len(ps),
    decreases ps.len() - i,
{
    if i < ps.len() {
        lemma_parts_len_prefix(ps, i + 1);
        assert(ps.take(i + 1).drop_last() =~= ps.take(i));
        lemma_parts_len_nonneg(ps.take(i));
    } else {
        assert(ps.take(i) =~= ps);
        lemma_parts_len_nonneg(ps);
    }
}

proof fn lemma_parts_len_nonneg(ps: Seq<Seq<char>>)
    ensures
        parts_len(ps) >= 0,
    decreases ps.len(),
{
    if ps.len() > 0 {
        lemma_parts_len_nonneg(ps.drop_last());
    }
}

/// How a bar draws its items and the separator between them.
pub trait SegmentBarStyle {
    /// Whether the style can draw `item` within machine limits.
    spec fn accepts(&self, item: SegmentItemView) -> bool;

    /// The text and width of the segment drawn for `item`.
    spec fn item_text(&self, item: SegmentItemView) -> Seq<char>;

    spec fn item_width(&self, item: SegmentItemView) -> usize;

    /// The text and width of the separator segment.
    spec fn separator_text(&self) -> Seq<char>;

    spec fn separator_width(&self) -> usize;

    fn render_item(&self, item: &SegmentItem) -> (r: RenderedSegment)
        requires
            self.accepts(item@),
        ensures
            r.text_spec() == self.item_text(item@),
            r.width_spec() == self.item_width(item@),
            r.width_spec() <= usize::MAX / 2,
    ;

    fn separator(&self) -> (r: RenderedSegment)
        ensures
            r.text_spec() == self.separator_text(),
            r.width_spec() == self.separator_width(),
            r.width_spec() <= usize::MAX / 2,
    ;
}

/// The text shown of a segment with `max` columns left: all of it when it
/// fits, else its first `max` characters.
pub open spec fn clipped(text: Seq<char>, max: int) -> Seq<char> {
    if str_width(text) <= max {
        text
    } else if max <= text.len() {
        text.take(max)
    } else {
        text
    }
}

pub open spec fn sat_add(a: int, b: int) -> int {
    if a + b > usize::MAX { usize::MAX as int } else { a + b }
}

pub open spec fn sat_sub(a: int, b: int) -> int {
    if a >= b { a - b } else { 0 }
}

/// Appending a segment of text `text` and width `seg_width` at column `col`:
/// the new line, the new column, and whether anything was drawn.
pub open spec fn appended(line: Seq<char>, col: int, text: Seq<char>, seg_width: int, width: int) -> (Seq<char>, int, bool) {
    if col >= width || seg_width == 0 {
        (line, col, false)
    } else {
        let visible = clipped(text, width - col);
        if str_width(visible) == 0 {
            (line, col, false)
        } else {
            (line + visible, sat_add(col, str_width(visible) as int), true)
        }
    }
}

fn truncate_to_width(text: &str, max_width: usize) -> (out: String)
    ensures
        out@ == clipped(text@, max_width as int),
{
    if text_width(text) <= max_width {
        return text.to_owned();
    }
    let chars = chars_of(text);
    let n = if max_width <= chars.len() { max_width } else { chars.len() };
    let out = string_from_chars(&chars, 0, n);
    proof {
        assert(chars@.subrange(0, n as int) =~= chars@.take(n as int));
        if n == chars.len() {
            assert(chars@.take(n as int) =~= chars@);
        }
    }
    out
}

/// Draws as much of `segment` as fits between `*col` and `width`, moving
/// `*col` past it; returns whether anything was drawn, and the new column.
fn append_segment(line: &mut String, col: &mut usize, segment: &RenderedSegment, width: usize) -> (r: (bool, usize))
    ensures
        (final(line)@, *final(col) as int, r.0) == appended(old(line)@, *old(col) as int, segment.text_spec(), segment.width_spec() as int, width as int),
        r.1 == *final(col),
{
    if *col >= width || segment.width() == 0 {
        return (false, *col);
    }
    let text = segment.text();
    let visible = truncate_to_width(text.as_str(), width - *col);
    let visible_width = text_width(visible.as_str());
    if visible_width == 0 {
        return (false, *col);
    }
    push_text(line, visible.as_str());
    *col = col.saturating_add(visible_width);
    (true, *col)
}


/// Where a one-line bar stands after some of its items: the line drawn so
/// far, the next column, the hits, and whether the line is full.
pub struct BarState {
    pub line: Seq<char>,
    pub col: int,
    pub hits: Seq<SegmentHit>,
    pub stopped: bool,
}

/// Draws item `index` (after a separator unless it is the first), and
/// records its hit when any column of it was drawn.
pub open spec fn bar_step<S: SegmentBarStyle>(style: &S, st: BarState, index: int, item: SegmentItemView, width: int) -> BarState {
    let sep = appended(st.line, st.col, style.separator_text(), style.separator_width() as int, width);
    let line1 = if index > 0 { sep.0 } else { st.line };
    let col1 = if index > 0 { sep.1 } else { st.col };
    if index > 0 && col1 >= width {
        BarState { line: line1, col: col1, hits: st.hits, stopped: true }
    } else {
        let a = appended(line1, col1, style.item_text(item), style.item_width(item) as int, width);
        let hits = if a.2 && a.1 > col1 {
            st.hits.push(SegmentHit { index: index as usize, col_start: col1 as usize, col_end: sat_sub(a.1, 1) as usize })
        } else {
            st.hits
        };
        BarState { line: a.0, col: a.1, hits: hits, stopped: a.1 >= width }
    }
}

/// The bar after drawing `items` left to right, stopping once it is full.
pub open spec fn bar_run<S: SegmentBarStyle>(style: &S, items: Seq<SegmentItemView>, width: int) -> BarState
    decreases items.len(),
{
    if items.len() == 0 {
        BarState { line: Seq::empty(), col: 0, hits: Seq::empty(), stopped: false }
    } else {
        let st = bar_run(style, items.drop_last(), width);
        if st.stopped {
            st
        } else {
            bar_step(style, st, items.len() - 1, items.last(), width)
        }
    }
}

proof fn lemma_bar_run_stays_stopped<S: SegmentBarStyle>(style: &S, items: Seq<SegmentItemView>, width: int, k: int, j: int)
    requires
        0 <= k <= j <= items.len(),
        bar_run(style, items.take(k), width).stopped,
    ensures
        bar_run(style, items.take(j), width) == bar_run(style, items.take(k), width),
    decreases j - k,
{
    if j > k {
        lemma_bar_run_stays_stopped(style, items, width, k, j - 1);
        assert(items.take(j).drop_last() =~= items.take(j - 1));
    }
}

proof fn lemma_bar_col_bounded<S: SegmentBarStyle>(style: &S, items: Seq<SegmentItemView>, width: int)
    ensures
        0 <= bar_run(style, items, width).col <= usize::MAX,
    decreases items.len(),
{
    if items.len() > 0 {
        lemma_bar_col_bounded(style, items.drop_last(), width);
    }
}

/// Every hit of a one-line bar starts on the line and ends no earlier than
/// it starts, and the hits follow the items in order, one per item at most.
pub proof fn lemma_bar_hits_follow_items<S: SegmentBarStyle>(style: &S, items: Seq<SegmentItemView>, width: int)
    requires
        items.len() <= usize::MAX,
    ensures
        forall|k: int| 0 <= k < bar_run(style, items, width).hits.len() ==> {
            let h = #[trigger] bar_run(style, items, width).hits[k];
            &&& h.col_start <= h.col_end
            &&& h.col_start < width
            &&& h.index < items.len()
        },
        forall|k: int, l: int| 0 <= k < l < bar_run(style, items, width).hits.len() ==> #[trigger] bar_run(style, items, width).hits[k].index
            < #[trigger] bar_run(style, items, width).hits[l].index,
    decreases items.len(),
{
    if items.len() > 0 {
        let rest = items.drop_last();
        lemma_bar_hits_follow_items(style, rest, width);
        lemma_bar_col_bounded(style, rest, width);
        lemma_bar_col_bounded(style, items, width);
        let before = bar_run(style, rest, width).hits;
        let after = bar_run(style, items, width).hits;
        assert(after.len() == before.len() || after.len() == before.len() + 1);
        assert forall|k: int| 0 <= k < before.len() implies after[k] == before[k] by {}
        if after.len() == before.len() + 1 {
            assert(after.last().index == items.len() - 1);
        }
        assert forall|k: int, l: int| 0 <= k < l < after.len() implies #[trigger] after[k].index < #[trigger] after[l].index by {
            if l < before.len() {
                assert(before[k].index < before[l].index);
            } else {
                assert(before[k].index < rest.len());
            }
        }
    }
}

/// Draws the items on one line of `width` columns, a separator between two
/// items, cutting the segment that reaches the edge; returns the line padded
/// to `width` and a hit for each item with a visible column.
pub fn render<S: SegmentBarStyle>(items: &[SegmentItem], style: &S, width: usize) -> (r: (String, Vec<SegmentHit>))
    requires
        forall|i: int| 0 <= i < items@.len() ==> style.accepts(#[trigger] items@[i]@),
    ensures
        r.0@ == padded(bar_run(style, item_views(items@), width as int).line, width as int),
        r.1@ == bar_run(style, item_views(items@), width as int).hits,
{
    let ghost s = item_views(items@);
    let mut line = String::new();
    let mut hits: Vec<SegmentHit> = Vec::new();
    let mut col: usize = 0;
    let mut index: usize = 0;
    proof {
        assert(s.take(s.len() as int) =~= s);
    }
    while index < items.len()
        invariant_except_break
            !bar_run(style, s.take(index as int), width as int).stopped,
            line@ == bar_run(style, s.take(index as int), width as int).line,
            col as int == bar_run(style, s.take(index as int), width as int).col,
            hits@ == bar_run(style, s.take(index as int), width as int).hits,
        invariant
            s == item_views(items@),
            s.take(s.len() as int) == s,
            index <= items.len(),
            forall|i: int| 0 <= i < items@.len() ==> style.accepts(#[trigger] items@[i]@),
        ensures
            line@ == bar_run(style, s, width as int).line,
            hits@ == bar_run(style, s, width as int).hits,
        decreases items.len() - index,
    {
        let ghost before = bar_run(style, s.take(index as int), width as int);
        proof {
            assert(s.take(index + 1).drop_last() =~= s.take(index as int));
            assert(s.take(index + 1).last() == items@[index as int]@);
        }
        if index > 0 {
            let separator = style.separator();
            append_segment(&mut line, &mut col, &separator, width);
            if col >= width {
                proof {
                    lemma_bar_run_stays_stopped(style, s, width as int, index + 1, s.len() as int);
                    assert(s.take(s.len() as int) =~= s);
                }
                break;
            }
        }
        let rendered = style.render_item(&items[index]);
        let item_start = col;
        let (rendered_any, item_end) = append_segment(&mut line, &mut col, &rendered, width);
        if rendered_any && item_end > item_start {
            hits.push(SegmentHit { index, col_start: item_start, col_end: item_end.saturating_sub(1) });
        }
        if col >= width {
            proof {
                lemma_bar_run_stays_stopped(style, s, width as int, index + 1, s.len() as int);
                assert(s.take(s.len() as int) =~= s);
            }
            break;
        }
        index = index + 1;
        proof {
            if index == items.len() {
                assert(s.take(index as int) =~= s);
            }
        }
    }
    proof {
        if items.len() == 0 {
            assert(s.take(0) =~= s);
        }
    }
    (pad_to_width(line.as_str(), width), hits)
}


/// Where a wrapped bar stands after some of its items: the finished lines,
/// the hits, the line being drawn, its next column, its row, and whether an
/// item was cut.
pub struct WrapState {
    pub lines: Seq<Seq<char>>,
    pub hits: Seq<SegmentHitBox>,
    pub line: Seq<char>,
    pub col: int,
    pub row: int,
    pub overflowed: bool,
}

/// Draws item `index`: a new line is started when the separator and the item
/// do not fit in what is left of a non-empty line; the separator is drawn
/// only between two items of one line.
pub open spec fn wrap_step<S: SegmentBarStyle>(style: &S, st: WrapState, index: int, item: SegmentItemView, width: int) -> WrapState {
    let item_width = style.item_width(item) as int;
    let has_separator = st.line.len() != 0;
    let needed = (if has_separator { style.separator_width() as int } else { 0 }) + item_width;
    let broke = has_separator && needed > sat_sub(width, st.col);
    let lines1 = if broke { st.lines.push(padded(st.line, width)) } else { st.lines };
    let line1 = if broke { Seq::empty() } else { st.line };
    let col1 = if broke { 0 } else { st.col };
    let row1 = if broke { sat_add(st.row, 1) } else { st.row };
    let sep = appended(line1, col1, style.separator_text(), style.separator_width() as int, width);
    let line2 = if has_separator && !broke { sep.0 } else { line1 };
    let col2 = if has_separator && !broke { sep.1 } else { col1 };
    let a = appended(line2, col2, style.item_text(item), item_width, width);
    let hits = if a.2 && a.1 > col2 {
        st.hits.push(SegmentHitBox { index: index as usize, row: row1 as usize, col_start: col2 as usize, col_end: sat_sub(a.1, 1) as usize })
    } else {
        st.hits
    };
    WrapState {
        lines: lines1,
        hits: hits,
        line: a.0,
        col: a.1,
        row: row1,
        overflowed: st.overflowed || item_width > sat_sub(a.1, col2),
    }
}

pub open spec fn wrap_run<S: SegmentBarStyle>(style: &S, items: Seq<SegmentItemView>, width: int) -> WrapState
    decreases items.len(),
{
    if items.len() == 0 {
        WrapState { lines: Seq::empty(), hits: Seq::empty(), line: Seq::empty(), col: 0, row: 0, overflowed: false }
    } else {
        wrap_step(style, wrap_run(style, items.drop_last(), width), items.len() - 1, items.last(), width)
    }
}

proof fn lemma_wrap_bounded<S: SegmentBarStyle>(style: &S, items: Seq<SegmentItemView>, width: int)
    ensures
        0 <= wrap_run(style, items, width).col <= usize::MAX,
        0 <= wrap_run(style, items, width).row <= usize::MAX,
    decreases items.len(),
{
    if items.len() > 0 {
        lemma_wrap_bounded(style, items.drop_last(), width);
    }
}

/// Every hit of a wrapped bar starts on its line and ends no earlier than
/// it starts; the hits follow the items in order, on rows that never go back.
pub proof fn lemma_wrapped_hits_follow_items<S: SegmentBarStyle>(style: &S, items: Seq<SegmentItemView>, width: int)
    requires
        items.len() <= usize::MAX,
    ensures
        forall|k: int| 0 <= k < wrap_run(style, items, width).hits.len() ==> {
            let h = #[trigger] wrap_run(style, items, width).hits[k];
            &&& h.col_start <= h.col_end
            &&& h.col_start < width
            &&& h.index < items.len()
            &&& h.row <= wrap_run(style, items, width).row
        },
        forall|k: int, l: int| 0 <= k < l < wrap_run(style, items, width).hits.len() ==> {
            &&& #[trigger] wrap_run(style, items, width).hits[k].index < #[trigger] wrap_run(style, items, width).hits[l].index
            &&& wrap_run(style, items, width).hits[k].row <= wrap_run(style, items, width).hits[l].row
        },
    decreases items.len(),
{
    if items.len() > 0 {
        let rest = items.drop_last();
        lemma_wrapped_hits_follow_items(style, rest, width);
        lemma_wrap_bounded(style, rest, width);
        lemma_wrap_bounded(style, items, width);
        let before = wrap_run(style, rest, width).hits;
        let after = wrap_run(style, items, width).hits;
        assert(after.len() == before.len() || after.len() == before.len() + 1);
        assert forall|k: int| 0 <= k < before.len() implies after[k] == before[k] by {}
        if after.len() == before.len() + 1 {
            assert(after.last().index == items.len() - 1);
        }
        assert forall|k: int, l: int| 0 <= k < l < after.len() implies {
            &&& #[trigger] after[k].index < #[trigger] after[l].index
            &&& after[k].row <= after[l].row
        } by {
            if l < before.len() {
                assert(before[k].index < before[l].index);
            } else {
                assert(before[k].index < rest.len());
                assert(before[k].row <= wrap_run(style, rest, width).row);
            }
        }
    }
}


/// Draws the items over as many lines of `width` columns as they need,
/// moving to a new line before an item that does not fit on the current
/// one; each line is padded to `width`.
pub fn render_wrapped<S: SegmentBarStyle>(items: &[SegmentItem], style: &S, width: usize) -> (r: RenderedSegmentRun)
    requires
        forall|i: int| 0 <= i < items@.len() ==> style.accepts(#[trigger] items@[i]@),
    ensures
        width == 0 || items@.len() == 0 ==> r == (RenderedSegmentRun {
            lines: r.lines,
            hits: r.hits,
            overflowed: false,
            final_line_remaining_width: width,
        }) && r.lines@.len() == 0 && r.hits@.len() == 0,
        width != 0 && items@.len() != 0 ==> {
            let st = wrap_run(style, item_views(items@), width as int);
            &&& r.hits@ == st.hits
            &&& r.overflowed == st.overflowed
            &&& st.line.len() != 0 ==> string_views(r.lines@) == st.lines.push(padded(st.line, width as int))
                && r.final_line_remaining_width == sat_sub(width as int, str_width(st.line) as int)
            &&& st.line.len() == 0 ==> string_views(r.lines@) == st.lines && r.final_line_remaining_width == width
        },
{
    if width == 0 || items.len() == 0 {
        return RenderedSegmentRun { lines: Vec::new(), hits: Vec::new(), overflowed: false, final_line_remaining_width: width };
    }
    let ghost s = item_views(items@);
    let mut lines: Vec<String> = Vec::new();
    let mut hits: Vec<SegmentHitBox> = Vec::new();
    let mut line = String::new();
    let mut col: usize = 0;
    let mut row: usize = 0;
    let mut overflowed = false;
    let mut index: usize = 0;
    while index < items.len()
        invariant
            s == item_views(items@),
            index <= items.len(),
            forall|i: int| 0 <= i < items@.len() ==> style.accepts(#[trigger] items@[i]@),
            string_views(lines@) == wrap_run(style, s.take(index as int), width as int).lines,
            hits@ == wrap_run(style, s.take(index as int), width as int).hits,
            line@ == wrap_run(style, s.take(index as int), width as int).line,
            col as int == wrap_run(style, s.take(index as int), width as int).col,
            row as int == wrap_run(style, s.take(index as int), width as int).row,
            overflowed == wrap_run(style, s.take(index as int), width as int).overflowed,
        decreases items.len() - index,
    {
        proof {
            assert(s.take(index + 1).drop_last() =~= s.take(index as int));
            assert(s.take(index + 1).last() == items@[index as int]@);
        }
        let rendered = style.render_item(&items[index]);
        let has_separator = !line.as_str().is_empty();
        let separator = style.separator();
        let needed = if has_separator { separator.width() } else { 0 } + rendered.width();
        if has_separator && needed > width.saturating_sub(col) {
            let finished = pad_to_width(line.as_str(), width);
            proof {
                assert(string_views(lines@.push(finished)) =~= string_views(lines@).push(finished@));
            }
            lines.push(finished);
            line = String::new();
            col = 0;
            row = row.saturating_add(1);
        }
        if has_separator && !line.as_str().is_empty() {
            let _ = append_segment(&mut line, &mut col, &separator, width);
        }
        let item_start = col;
        let (rendered_any, item_end) = append_segment(&mut line, &mut col, &rendered, width);
        if rendered_any && item_end > item_start {
            hits.push(SegmentHitBox { index, row, col_start: item_start, col_end: item_end.saturating_sub(1) });
        }
        overflowed = overflowed || rendered.width() > item_end.saturating_sub(item_start);
        index = index + 1;
    }
    proof {
        assert(s.take(items.len() as int) =~= s);
    }
    if !line.as_str().is_empty() {
        let line_width = text_width(line.as_str());
        let finished = pad_to_width(line.as_str(), width);
        proof {
            assert(string_views(lines@.push(finished)) =~= string_views(lines@).push(finished@));
        }
        lines.push(finished);
        RenderedSegmentRun { lines, hits, overflowed, final_line_remaining_width: width.saturating_sub(line_width) }
    } else {
        RenderedSegmentRun { lines, hits, overflowed, final_line_remaining_width: width }
    }
}

/// The Zellij ribbon look: each label between powerline arrows, and no
/// separator of its own.
#[derive(Debug, Clone, Copy, Default)]
pub struct ZellijRibbonStyle;

pub open spec fn ribbon_parts(label: Seq<char>) -> Seq<Seq<char>> {
    seq![seq!['\u{e0b0}'], seq![' '] + label + seq![' '], seq!['\u{e0b0}']]
}

impl SegmentBarStyle for ZellijRibbonStyle {
    open spec fn accepts(&self, item: SegmentItemView) -> bool {
        3 * (item.label.len() + 4) <= usize::MAX / 2
    }

    open spec fn item_text(&self, item: SegmentItemView) -> Seq<char> {
        joined(ribbon_parts(item.label))
    }

    open spec fn item_width(&self, item: SegmentItemView) -> usize {
        parts_width(ribbon_parts(item.label)) as usize
    }

    open spec fn separator_text(&self) -> Seq<char> {
        Seq::empty()
    }

    open spec fn separator_width(&self) -> usize {
        0
    }

    fn render_item(&self, item: &SegmentItem) -> (r: RenderedSegment) {
        proof {
            reveal_strlit("\u{e0b0}");
        }
        let _active = item.active;
        let mut middle = String::new();
        push_char(&mut middle, ' ');
        push_text(&mut middle, item.label.as_str());
        push_char(&mut middle, ' ');
        assert(middle@ =~= seq![' '] + item.label@ + seq![' ']);
        let arrow = "\u{e0b0}".to_owned();
        let mut parts: Vec<String> = Vec::new();
        parts.push(arrow.clone());
        parts.push(middle);
        parts.push(arrow);
        proof {
            assert(arrow@ == seq!['\u{e0b0}']);
            assert(part_views(parts@) =~= ribbon_parts(item.label@));
            reveal_with_fuel(parts_len, 4);
            let ps = ribbon_parts(item.label@);
            assert(ps.drop_last().drop_last().drop_last() =~= Seq::<Seq<char>>::empty());
            assert(parts_len(ps) == item.label@.len() + 4);
        }
        RenderedSegment::from_parts(parts)
    }

    fn separator(&self) -> (r: RenderedSegment) {
        let parts: Vec<String> = Vec::new();
        proof {
            assert(part_views(parts@) =~= Seq::<Seq<char>>::empty());
        }
        RenderedSegment::from_parts(parts)
    }
}

} // verus!
