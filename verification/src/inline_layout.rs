//! Width-bounded layout of one line of inline items (toggle glyphs, labels,
//! counts, badges): optional items go first, then low-priority items are
//! truncated and dropped until the line fits.

use vstd::prelude::*;
use crate::width::{str_width, char_cols, char_width, text_width, char_display_width};
use crate::text::{chars_of, string_from_chars, push_text};

verus! {

#[derive(Debug, Clone, PartialEq, Eq)]
pub struct InlineRun {
    items: Vec<InlineItem>,
}

#[derive(Debug, Clone, PartialEq, Eq)]
pub struct InlineItem {
    pub id: String,
    pub text: String,
    pub measure_text: String,
    pub class: InlineClass,
    pub priority: i64,
    pub min_width: usize,
    pub compact_text: Option<String>,
    pub hit: Option<InlineHit>,
}

#[derive(Debug, Clone, Copy, PartialEq, Eq, Structural)]
pub enum InlineClass {
    Required,
    Optional,
    Priority,
}

#[derive(Debug, Clone, Copy, PartialEq, Eq, Structural)]
pub enum InlineHit {
    GroupToggle,
    InspectNode,
    SwitchTab { index: usize },
}

#[derive(Debug, Clone, PartialEq, Eq)]
pub struct PlacedInlineRun {
    pub text: String,
    pub visible_width: usize,
    pub items: Vec<PlacedInlineItem>,
}

#[derive(Debug, PartialEq, Eq)]
pub struct PlacedInlineItem {
    pub id: String,
    pub cols: std::ops::Range<usize>,
    pub hit: Option<InlineHit>,
}

impl Clone for PlacedInlineItem {
    fn clone(&self) -> (r: Self)
        ensures
            r == *self,
    {
        PlacedInlineItem { id: self.id.clone(), cols: self.cols.start..self.cols.end, hit: self.hit }
    }
}

/// The mathematical content of an [`InlineItem`].
pub struct InlineItemView {
    pub id: Seq<char>,
    pub text: Seq<char>,
    pub measure_text: Seq<char>,
    pub class: InlineClass,
    pub priority: i64,
    pub min_width: usize,
    pub compact_text: Option<Seq<char>>,
    pub hit: Option<InlineHit>,
}

impl View for InlineItem {
    type V = InlineItemView;

    open spec fn view(&self) -> InlineItemView {
        InlineItemView {
            id: self.id@,
            text: self.text@,
            measure_text: self.measure_text@,
            class: self.class,
            priority: self.priority,
            min_width: self.min_width,
            compact_text: match self.compact_text {
                Some(t) => Some(t@),
                None => None,
            },
            hit: self.hit,
        }
    }
}

pub open spec fn views(items: Seq<InlineItem>) -> Seq<InlineItemView> {
    items.map_values(|item: InlineItem| item@)
}

impl View for InlineRun {
    type V = Seq<InlineItemView>;

    closed spec fn view(&self) -> Seq<InlineItemView> {
        views(self.items@)
    }
}

// ---------------------------------------------------------------------------
// Measuring

/// The separator put between the text laid out so far and the next item:
/// nothing at the start of the line or before an item that starts with `:`,
/// one space otherwise.
pub open spec fn separator(current: Seq<char>, next: Seq<char>) -> Seq<char> {
    if current.len() == 0 || (next.len() > 0 && next[0] == ':') {
        Seq::empty()
    } else {
        seq![' ']
    }
}

/// The visible text of a run of items: measured texts joined by separators.
pub open spec fn measured_text(s: Seq<InlineItemView>) -> Seq<char>
    decreases s.len(),
{
    if s.len() == 0 {
        Seq::empty()
    } else {
        let prev = measured_text(s.drop_last());
        prev + separator(prev, s.last().measure_text) + s.last().measure_text
    }
}

/// The width of a run of items: the widths of separators and measured texts.
pub open spec fn measured_width(s: Seq<InlineItemView>) -> int
    decreases s.len(),
{
    if s.len() == 0 {
        0
    } else {
        let prev = measured_text(s.drop_last());
        measured_width(s.drop_last()) + str_width(separator(prev, s.last().measure_text))
            + str_width(s.last().measure_text)
    }
}

/// Columns that the measuring of a run may need at most: three for a
/// separator and three per character.
pub open spec fn width_budget(s: Seq<InlineItemView>) -> int
    decreases s.len(),
{
    if s.len() == 0 {
        0
    } else {
        width_budget(s.drop_last()) + 3 + 3 * s.last().measure_text.len()
    }
}

/// What a line of these items may need in machine arithmetic while it is laid out.
pub open spec fn layout_budget(s: Seq<InlineItemView>) -> int {
    width_budget(s) + 3 * s.len() + 6
}

/// The rendered text of a run of items: item texts joined by separators.
pub open spec fn placed_text(s: Seq<InlineItemView>) -> Seq<char>
    decreases s.len(),
{
    if s.len() == 0 {
        Seq::empty()
    } else {
        let prev = placed_text(s.drop_last());
        prev + separator(prev, s.last().measure_text) + s.last().text
    }
}

/// The visible width of the rendered text of a run of items.
pub open spec fn placed_width(s: Seq<InlineItemView>) -> int
    decreases s.len(),
{
    if s.len() == 0 {
        0
    } else {
        let prev = placed_text(s.drop_last());
        placed_width(s.drop_last()) + str_width(separator(prev, s.last().measure_text))
            + str_width(s.last().measure_text)
    }
}

/// Every item's rendered text is empty exactly when its measured text is.
pub open spec fn texts_agree(s: Seq<InlineItemView>) -> bool {
    forall|i: int| 0 <= i < s.len() ==> (#[trigger] s[i].text.len() == 0 <==> s[i].measure_text.len() == 0)
}

proof fn lemma_prefix_step<T>(s: Seq<T>, i: int)
    requires
        0 <= i < s.len(),
    ensures
        s.take(i + 1).drop_last() == s.take(i),
        s.take(i + 1).last() == s[i],
{
    assert(s.take(i + 1).drop_last() =~= s.take(i));
}

proof fn lemma_budget_nonneg(s: Seq<InlineItemView>)
    ensures
        width_budget(s) >= 0,
        width_budget(s) >= 3 * s.len(),
    decreases s.len(),
{
    if s.len() > 0 {
        lemma_budget_nonneg(s.drop_last());
    }
}

proof fn lemma_budget_prefix(s: Seq<InlineItemView>, i: int)
    requires
        0 <= i <= s.len(),
    ensures
        width_budget(s.take(i)) <= width_budget(s),
    decreases s.len() - i,
{
    if i < s.len() {
        lemma_budget_prefix(s, i + 1);
        lemma_prefix_step(s, i);
    } else {
        assert(s.take(i) =~= s);
    }
}

proof fn lemma_budget_item(s: Seq<InlineItemView>, i: int)
    requires
        0 <= i < s.len(),
    ensures
        width_budget(s) >= 3 + 3 * s[i].measure_text.len(),
{
    lemma_budget_prefix(s, i + 1);
    lemma_prefix_step(s, i);
    lemma_budget_nonneg(s.take(i));
}

/// `""` at the start of a line or before a `:` item, `" "` otherwise.
fn inline_separator(current_text: &str, next_text: &str) -> (sep: &'static str)
    ensures
        sep@ == separator(current_text@, next_text@),
{
    proof {
        reveal_strlit("");
        reveal_strlit(" ");
    }
    if current_text.is_empty() {
        return "";
    }
    let next = chars_of(next_text);
    if next.len() > 0 && next[0] == ':' {
        ""
    } else {
        " "
    }
}

/// The width of the items laid out in a line, with separators.
fn inline_items_width(items: &Vec<InlineItem>) -> (w: usize)
    requires
        width_budget(views(items@)) <= usize::MAX,
    ensures
        w == measured_width(views(items@)),
        w <= width_budget(views(items@)),
{
    let ghost s = views(items@);
    let mut text = String::new();
    let mut width: usize = 0;
    let mut i: usize = 0;
    while i < items.len()
        invariant
            s == views(items@),
            i <= items.len(),
            width_budget(s) <= usize::MAX,
            text@ == measured_text(s.take(i as int)),
            width == measured_width(s.take(i as int)),
            width <= width_budget(s.take(i as int)),
        decreases items.len() - i,
    {
        let item = &items[i];
        let separator = inline_separator(text.as_str(), item.measure_text.as_str());
        let sep_width = text_width(separator);
        let item_width = text_width(item.measure_text.as_str());
        proof {
            lemma_prefix_step(s, i as int);
            lemma_budget_prefix(s, i + 1);
            assert(s[i as int] == item@);
            assert(separator@.len() <= 1);
        }
        width = width + sep_width + item_width;
        push_text(&mut text, separator);
        push_text(&mut text, item.measure_text.as_str());
        i = i + 1;
    }
    proof {
        assert(s.take(items.len() as int) =~= s);
    }
    width
}

// ---------------------------------------------------------------------------
// Truncation

/// How many leading characters fit before the ellipsis: characters are kept
/// while the columns used so far plus the next character stay below `w`.
pub open spec fn keep_count(chars: Seq<char>, used: int, w: int) -> nat
    decreases chars.len(),
{
    if chars.len() == 0 {
        0
    } else if used + char_cols(chars[0]) >= w {
        0
    } else {
        1 + keep_count(chars.drop_first(), used + char_cols(chars[0]), w)
    }
}

/// `text` cut to `w` columns with a trailing `…`; unchanged when it fits.
pub open spec fn ellipsized(text: Seq<char>, w: int) -> Seq<char> {
    if str_width(text) <= w {
        text
    } else if w == 0 {
        Seq::empty()
    } else if w == 1 {
        seq!['…']
    } else {
        text.take(keep_count(text, 0, w) as int).push('…')
    }
}

proof fn lemma_keep_count_le(chars: Seq<char>, used: int, w: int)
    ensures
        keep_count(chars, used, w) <= chars.len(),
    decreases chars.len(),
{
    if chars.len() > 0 && used + char_cols(chars[0]) < w {
        lemma_keep_count_le(chars.drop_first(), used + char_cols(chars[0]), w);
    }
}

proof fn lemma_keep_count_step(chars: Seq<char>, i: int, used: int, w: int)
    requires
        0 <= i < chars.len(),
        used + char_cols(chars[i]) < w,
    ensures
        keep_count(chars.skip(i), used, w) == 1 + keep_count(chars.skip(i + 1), used + char_cols(chars[i]), w),
{
    assert(chars.skip(i).drop_first() =~= chars.skip(i + 1));
}

proof fn lemma_ellipsized_len(text: Seq<char>, w: int)
    requires
        w >= 0,
    ensures
        ellipsized(text, w).len() <= text.len() + 1,
{
    lemma_keep_count_le(text, 0, w);
}

/// Cuts `text` to `width` columns, ending in `…` when anything was cut.
fn truncate_to_width(text: &str, width: usize) -> (out: String)
    requires
        width + 3 <= usize::MAX,
    ensures
        out@ == ellipsized(text@, width as int),
{
    proof {
        reveal_strlit("…");
    }
    if text_width(text) <= width {
        return text.to_owned();
    }
    if width == 0 {
        return String::new();
    }
    if width == 1 {
        return "…".to_owned();
    }
    let chars = chars_of(text);
    let ghost all = chars@;
    let mut used: usize = 0;
    let mut i: usize = 0;
    proof {
        assert(all.skip(0) =~= all);
    }
    while i < chars.len()
        invariant
            all == chars@,
            all == text@,
            i <= chars.len(),
            used < width,
            width + 3 <= usize::MAX,
            keep_count(all, 0, width as int) == i + keep_count(all.skip(i as int), used as int, width as int),
        ensures
            i <= chars.len(),
            keep_count(all, 0, width as int) == i,
        decreases chars.len() - i,
    {
        let c = chars[i];
        let char_width = match char_display_width(c) {
            Some(w) => w,
            None => 0,
        };
        if used + char_width >= width {
            proof {
                assert(all.skip(i as int)[0] == c);
                assert(keep_count(all.skip(i as int), used as int, width as int) == 0);
            }
            break;
        }
        proof {
            lemma_keep_count_step(all, i as int, used as int, width as int);
        }
        used = used + char_width;
        i = i + 1;
        proof {
            if i == chars.len() {
                assert(all.skip(i as int).len() == 0);
            }
        }
    }
    let mut output = string_from_chars(&chars, 0, i);
    proof {
        assert(chars@.subrange(0, i as int) =~= all.take(i as int));
    }
    crate::text::push_char(&mut output, '…');
    proof {
        assert(keep_count(all, 0, width as int) == i);
        assert(output@ == all.take(i as int).push('…'));
    }
    output
}


// ---------------------------------------------------------------------------
// Selection

/// The items that are not optional, in order.
pub open spec fn drop_optional(s: Seq<InlineItemView>) -> Seq<InlineItemView>
    decreases s.len(),
{
    if s.len() == 0 {
        s
    } else if s.last().class == InlineClass::Optional {
        drop_optional(s.drop_last())
    } else {
        drop_optional(s.drop_last()).push(s.last())
    }
}

/// The items left after dropping priority items ranked at or below `p`.
pub open spec fn drop_priorities_through(s: Seq<InlineItemView>, p: i64) -> Seq<InlineItemView>
    decreases s.len(),
{
    if s.len() == 0 {
        s
    } else if s.last().class == InlineClass::Priority && s.last().priority <= p {
        drop_priorities_through(s.drop_last(), p)
    } else {
        drop_priorities_through(s.drop_last(), p).push(s.last())
    }
}

/// An item whose measured text is wider than its minimum width.
pub open spec fn truncatable(item: InlineItemView) -> bool {
    str_width(item.measure_text) > item.min_width
}

/// The first truncatable item of lowest priority, if any.
pub open spec fn lowest_truncatable(s: Seq<InlineItemView>) -> Option<int>
    decreases s.len(),
{
    if s.len() == 0 {
        None
    } else {
        let rest = lowest_truncatable(s.drop_last());
        if truncatable(s.last()) {
            match rest {
                Some(j) => if s.last().priority < s[j].priority {
                    Some(s.len() - 1)
                } else {
                    Some(j)
                },
                None => Some(s.len() - 1),
            }
        } else {
            rest
        }
    }
}

/// `item` showing (and measured by) `t`.
pub open spec fn with_text(item: InlineItemView, t: Seq<char>) -> InlineItemView {
    InlineItemView { text: t, measure_text: t, ..item }
}

/// When the run is too wide, the lowest-priority truncatable item is cut by
/// the overflow, but not below its minimum width.
pub open spec fn truncate_lowest(s: Seq<InlineItemView>, width: int) -> Seq<InlineItemView> {
    match lowest_truncatable(s) {
        None => s,
        Some(i) => if measured_width(s) <= width {
            s
        } else {
            let item_width = str_width(s[i].measure_text) as int;
            let overflow = measured_width(s) - width;
            let max_reduction = item_width - s[i].min_width;
            let reduction = if overflow < max_reduction { overflow } else { max_reduction };
            s.update(i, with_text(s[i], ellipsized(s[i].measure_text, item_width - reduction)))
        },
    }
}

/// `p` put into the ascending sequence `ps` unless it is there already.
pub open spec fn insert_sorted(ps: Seq<i64>, p: i64) -> Seq<i64>
    decreases ps.len(),
{
    if ps.len() == 0 {
        seq![p]
    } else if p < ps[0] {
        seq![p] + ps
    } else if p == ps[0] {
        ps
    } else {
        seq![ps[0]] + insert_sorted(ps.drop_first(), p)
    }
}

/// The distinct priorities of the priority items, in ascending order.
pub open spec fn priority_levels(s: Seq<InlineItemView>) -> Seq<i64>
    decreases s.len(),
{
    if s.len() == 0 {
        Seq::empty()
    } else if s.last().class == InlineClass::Priority {
        insert_sorted(priority_levels(s.drop_last()), s.last().priority)
    } else {
        priority_levels(s.drop_last())
    }
}

pub open spec fn strictly_ascending(ps: Seq<i64>) -> bool {
    forall|i: int, j: int| 0 <= i < j < ps.len() ==> ps[i] < ps[j]
}

/// Priority levels are dropped lowest first; after each drop the lowest
/// truncatable item is cut, until the run fits or no level is left.
pub open spec fn drop_levels(s: Seq<InlineItemView>, ps: Seq<i64>, width: int) -> Seq<InlineItemView>
    decreases ps.len(),
{
    if ps.len() == 0 {
        truncate_lowest(s, width)
    } else {
        let s1 = drop_priorities_through(s, ps[0]);
        if measured_width(s1) <= width {
            s1
        } else {
            let s2 = truncate_lowest(s1, width);
            if measured_width(s2) <= width {
                s2
            } else {
                drop_levels(s2, ps.drop_first(), width)
            }
        }
    }
}

/// The items chosen for a line of `width` columns.
pub open spec fn selected_items(s: Seq<InlineItemView>, width: int) -> Seq<InlineItemView> {
    if measured_width(s) <= width {
        s
    } else {
        let s1 = drop_optional(s);
        if measured_width(s1) <= width {
            s1
        } else {
            let s2 = truncate_lowest(s1, width);
            if measured_width(s2) <= width {
                s2
            } else {
                drop_levels(s2, priority_levels(s2), width)
            }
        }
    }
}

proof fn lemma_views_push(v: Seq<InlineItem>, x: InlineItem)
    ensures
        views(v.push(x)) == views(v).push(x@),
{
    assert(views(v.push(x)) =~= views(v).push(x@));
}

proof fn lemma_drop_optional_budget(s: Seq<InlineItemView>)
    ensures
        width_budget(drop_optional(s)) <= width_budget(s),
        drop_optional(s).len() <= s.len(),
    decreases s.len(),
{
    if s.len() > 0 {
        lemma_drop_optional_budget(s.drop_last());
        let r = drop_optional(s.drop_last());
        if s.last().class != InlineClass::Optional {
            assert(r.push(s.last()).drop_last() =~= r);
        }
    }
}

proof fn lemma_drop_through_budget(s: Seq<InlineItemView>, p: i64)
    ensures
        width_budget(drop_priorities_through(s, p)) <= width_budget(s),
        drop_priorities_through(s, p).len() <= s.len(),
    decreases s.len(),
{
    if s.len() > 0 {
        lemma_drop_through_budget(s.drop_last(), p);
        let r = drop_priorities_through(s.drop_last(), p);
        if !(s.last().class == InlineClass::Priority && s.last().priority <= p) {
            assert(r.push(s.last()).drop_last() =~= r);
        }
    }
}

proof fn lemma_lowest_in_range(s: Seq<InlineItemView>)
    ensures
        lowest_truncatable(s) matches Some(j) ==> 0 <= j < s.len() && truncatable(s[j]),
    decreases s.len(),
{
    if s.len() > 0 {
        lemma_lowest_in_range(s.drop_last());
    }
}

proof fn lemma_budget_update(s: Seq<InlineItemView>, i: int, x: InlineItemView)
    requires
        0 <= i < s.len(),
    ensures
        width_budget(s.update(i, x)) == width_budget(s) - 3 * s[i].measure_text.len() + 3 * x.measure_text.len(),
    decreases s.len(),
{
    if i == s.len() - 1 {
        assert(s.update(i, x).drop_last() =~= s.drop_last());
    } else {
        lemma_budget_update(s.drop_last(), i, x);
        assert(s.update(i, x).drop_last() =~= s.drop_last().update(i, x));
    }
}

proof fn lemma_truncate_budget(s: Seq<InlineItemView>, width: int)
    requires
        width >= 0,
    ensures
        width_budget(truncate_lowest(s, width)) <= width_budget(s) + 3,
        truncate_lowest(s, width).len() == s.len(),
{
    lemma_lowest_in_range(s);
    if let Some(i) = lowest_truncatable(s) {
        if measured_width(s) > width {
            let item_width = str_width(s[i].measure_text) as int;
            let overflow = measured_width(s) - width;
            let max_reduction = item_width - s[i].min_width;
            let reduction = if overflow < max_reduction { overflow } else { max_reduction };
            lemma_ellipsized_len(s[i].measure_text, item_width - reduction);
            lemma_budget_update(s, i, with_text(s[i], ellipsized(s[i].measure_text, item_width - reduction)));
        }
    }
}

proof fn lemma_insert_sorted_len(ps: Seq<i64>, p: i64)
    ensures
        insert_sorted(ps, p).len() <= ps.len() + 1,
    decreases ps.len(),
{
    if ps.len() > 0 && p > ps[0] {
        lemma_insert_sorted_len(ps.drop_first(), p);
    }
}

proof fn lemma_priority_levels_len(s: Seq<InlineItemView>)
    ensures
        priority_levels(s).len() <= s.len(),
    decreases s.len(),
{
    if s.len() > 0 {
        lemma_priority_levels_len(s.drop_last());
        if s.last().class == InlineClass::Priority {
            lemma_insert_sorted_len(priority_levels(s.drop_last()), s.last().priority);
        }
    }
}

/// With `j` the first position of a strictly ascending `ps` not below `p`,
/// inserting `p` keeps `ps` when `p` is there and puts it at `j` otherwise.
pub(crate) proof fn lemma_insert_sorted_at(ps: Seq<i64>, p: i64, j: int)
    requires
        strictly_ascending(ps),
        0 <= j <= ps.len(),
        forall|k: int| 0 <= k < j ==> ps[k] < p,
        j < ps.len() ==> ps[j] >= p,
    ensures
        insert_sorted(ps, p) == (if j < ps.len() && ps[j] == p { ps } else { ps.insert(j, p) }),
        strictly_ascending(insert_sorted(ps, p)),
    decreases ps.len(),
{
    if ps.len() == 0 {
        assert(ps.insert(j, p) =~= seq![p]);
    } else if j == 0 {
        if p < ps[0] {
            assert(ps.insert(0, p) =~= seq![p] + ps);
        }
    } else {
        let rest = ps.drop_first();
        assert forall|a: int, b: int| 0 <= a < b < rest.len() implies rest[a] < rest[b] by {
            assert(rest[a] == ps[a + 1] && rest[b] == ps[b + 1]);
        }
        assert forall|k: int| 0 <= k < j - 1 implies rest[k] < p by {
            assert(rest[k] == ps[k + 1]);
        }
        lemma_insert_sorted_at(rest, p, j - 1);
        if j < ps.len() && ps[j] == p {
            assert(seq![ps[0]] + rest =~= ps);
        } else {
            assert(seq![ps[0]] + rest.insert(j - 1, p) =~= ps.insert(j, p));
        }
        let r = insert_sorted(ps, p);
        let ri = insert_sorted(rest, p);
        assert(r == seq![ps[0]] + ri);
        assert forall|a: int, b: int| 0 <= a < b < r.len() implies r[a] < r[b] by {
            if a > 0 {
                assert(r[a] == ri[a - 1] && r[b] == ri[b - 1]);
            } else {
                assert(r[b] == ri[b - 1]);
                if j < ps.len() && ps[j] == p {
                    assert(ri == rest);
                    assert(ri[b - 1] == ps[b]);
                } else {
                    assert(ri == rest.insert(j - 1, p));
                    if b - 1 < j - 1 {
                        assert(ri[b - 1] == ps[b]);
                    } else if b - 1 == j - 1 {
                        assert(ri[b - 1] == p);
                    } else {
                        assert(ri[b - 1] == ps[b - 1]);
                    }
                }
            }
        }
    }
}

/// A copy of an item, field by field.
fn copy_item(item: &InlineItem) -> (r: InlineItem)
    ensures
        r@ == item@,
{
    InlineItem {
        id: item.id.clone(),
        text: item.text.clone(),
        measure_text: item.measure_text.clone(),
        class: item.class,
        priority: item.priority,
        min_width: item.min_width,
        compact_text: match &item.compact_text {
            Some(t) => Some(t.clone()),
            None => None,
        },
        hit: item.hit,
    }
}

fn copy_items(items: &Vec<InlineItem>) -> (r: Vec<InlineItem>)
    ensures
        views(r@) == views(items@),
{
    let mut r: Vec<InlineItem> = Vec::new();
    let mut i: usize = 0;
    while i < items.len()
        invariant
            i <= items.len(),
            views(r@) == views(items@).take(i as int),
        decreases items.len() - i,
    {
        let item = copy_item(&items[i]);
        proof {
            lemma_views_push(r@, item);
            assert(views(items@).take(i + 1) =~= views(items@).take(i as int).push(items@[i as int]@));
        }
        r.push(item);
        i = i + 1;
    }
    proof {
        assert(views(items@).take(items.len() as int) =~= views(items@));
    }
    r
}

fn without_optional(items: &Vec<InlineItem>) -> (r: Vec<InlineItem>)
    ensures
        views(r@) == drop_optional(views(items@)),
{
    let ghost s = views(items@);
    let mut r: Vec<InlineItem> = Vec::new();
    let mut i: usize = 0;
    while i < items.len()
        invariant
            s == views(items@),
            i <= items.len(),
            views(r@) == drop_optional(s.take(i as int)),
        decreases items.len() - i,
    {
        proof {
            lemma_prefix_step(s, i as int);
        }
        if items[i].class != InlineClass::Optional {
            let item = copy_item(&items[i]);
            proof {
                lemma_views_push(r@, item);
            }
            r.push(item);
        }
        i = i + 1;
    }
    proof {
        assert(s.take(items.len() as int) =~= s);
    }
    r
}

fn without_priorities_through(items: &Vec<InlineItem>, p: i64) -> (r: Vec<InlineItem>)
    ensures
        views(r@) == drop_priorities_through(views(items@), p),
{
    let ghost s = views(items@);
    let mut r: Vec<InlineItem> = Vec::new();
    let mut i: usize = 0;
    while i < items.len()
        invariant
            s == views(items@),
            i <= items.len(),
            views(r@) == drop_priorities_through(s.take(i as int), p),
        decreases items.len() - i,
    {
        proof {
            lemma_prefix_step(s, i as int);
        }
        if items[i].class != InlineClass::Priority || items[i].priority > p {
            let item = copy_item(&items[i]);
            proof {
                lemma_views_push(r@, item);
            }
            r.push(item);
        }
        i = i + 1;
    }
    proof {
        assert(s.take(items.len() as int) =~= s);
    }
    r
}

/// Cuts the first lowest-priority item that is wider than its minimum width
/// by as much as the run overflows `width`, but not below that minimum.
fn truncate_lowest_priority_item_to_fit(items: &mut Vec<InlineItem>, width: usize)
    requires
        width_budget(views(old(items)@)) + 3 <= usize::MAX,
    ensures
        views(final(items)@) == truncate_lowest(views(old(items)@), width as int),
{
    let ghost s = views(items@);
    let mut best: Option<usize> = None;
    let mut i: usize = 0;
    while i < items.len()
        invariant
            s == views(items@),
            i <= items.len(),
            match best {
                Some(b) => b < i && lowest_truncatable(s.take(i as int)) == Some(b as int),
                None => lowest_truncatable(s.take(i as int)) == None::<int>,
            },
        decreases items.len() - i,
    {
        proof {
            lemma_prefix_step(s, i as int);
            assert(s[i as int] == items@[i as int]@);
        }
        let item_width = text_width(items[i].measure_text.as_str());
        if item_width > items[i].min_width {
            match best {
                Some(b) => {
                    proof {
                        assert(s.take(i + 1)[b as int] == s[b as int]);
                        assert(s[b as int] == items@[b as int]@);
                    }
                    if items[i].priority < items[b].priority {
                        best = Some(i);
                    }
                },
                None => {
                    best = Some(i);
                },
            }
        }
        i = i + 1;
    }
    proof {
        assert(s.take(items.len() as int) =~= s);
    }
    let index = match best {
        Some(b) => b,
        None => {
            return;
        },
    };
    let current_width = inline_items_width(items);
    if current_width <= width {
        return;
    }
    proof {
        assert(s[index as int] == items@[index as int]@);
        lemma_budget_item(s, index as int);
    }
    let item_width = text_width(items[index].measure_text.as_str());
    let overflow = current_width - width;
    let max_reduction = item_width.saturating_sub(items[index].min_width);
    let reduction = if overflow < max_reduction { overflow } else { max_reduction };
    let new_width = item_width.saturating_sub(reduction);
    let truncated = truncate_to_width(items[index].measure_text.as_str(), new_width);
    let old_item = &items[index];
    let new_item = InlineItem {
        id: old_item.id.clone(),
        text: truncated.clone(),
        measure_text: truncated,
        class: old_item.class,
        priority: old_item.priority,
        min_width: old_item.min_width,
        compact_text: match &old_item.compact_text {
            Some(t) => Some(t.clone()),
            None => None,
        },
        hit: old_item.hit,
    };
    proof {
        assert(new_item@ == with_text(s[index as int], ellipsized(s[index as int].measure_text, new_width as int)));
    }
    items.set(index, new_item);
    proof {
        assert(views(items@) =~= s.update(index as int, new_item@));
    }
}

/// The distinct priorities of the priority items, lowest first.
fn droppable_priorities(items: &Vec<InlineItem>) -> (ps: Vec<i64>)
    ensures
        ps@ == priority_levels(views(items@)),
        strictly_ascending(ps@),
{
    let ghost s = views(items@);
    let mut ps: Vec<i64> = Vec::new();
    let mut i: usize = 0;
    while i < items.len()
        invariant
            s == views(items@),
            i <= items.len(),
            ps@ == priority_levels(s.take(i as int)),
            strictly_ascending(ps@),
        decreases items.len() - i,
    {
        proof {
            lemma_prefix_step(s, i as int);
            assert(s[i as int] == items@[i as int]@);
        }
        if items[i].class == InlineClass::Priority {
            let p = items[i].priority;
            let mut j: usize = 0;
            while j < ps.len() && ps[j] < p
                invariant
                    j <= ps.len(),
                    forall|k: int| 0 <= k < j ==> ps@[k] < p,
                decreases ps.len() - j,
            {
                j = j + 1;
            }
            proof {
                lemma_insert_sorted_at(ps@, p, j as int);
            }
            if !(j < ps.len() && ps[j] == p) {
                ps.insert(j, p);
            }
        }
        i = i + 1;
    }
    proof {
        assert(s.take(items.len() as int) =~= s);
    }
    ps
}


proof fn lemma_drop_levels_budget(s: Seq<InlineItemView>, ps: Seq<i64>, width: int)
    requires
        width >= 0,
    ensures
        width_budget(drop_levels(s, ps, width)) <= width_budget(s) + 3 * (ps.len() + 1),
    decreases ps.len(),
{
    lemma_truncate_budget(s, width);
    if ps.len() > 0 {
        let s1 = drop_priorities_through(s, ps[0]);
        lemma_drop_through_budget(s, ps[0]);
        lemma_truncate_budget(s1, width);
        let s2 = truncate_lowest(s1, width);
        lemma_drop_levels_budget(s2, ps.drop_first(), width);
    }
}

/// The items chosen to lay out in `width` columns: all of them when they
/// fit; else optional items are dropped; then the lowest-priority
/// truncatable item is cut, and priority levels are dropped from the lowest
/// up, cutting again after each drop, until the run fits.
fn select_items_for_width(items: &Vec<InlineItem>, width: usize) -> (r: Vec<InlineItem>)
    requires
        layout_budget(views(items@)) <= usize::MAX,
    ensures
        views(r@) == selected_items(views(items@), width as int),
{
    let ghost s = views(items@);
    proof {
        lemma_budget_nonneg(s);
    }
    if inline_items_width(items) <= width {
        return copy_items(items);
    }
    let mut selected = without_optional(items);
    proof {
        lemma_drop_optional_budget(s);
    }
    if inline_items_width(&selected) <= width {
        return selected;
    }
    let ghost s1 = views(selected@);
    truncate_lowest_priority_item_to_fit(&mut selected, width);
    proof {
        lemma_truncate_budget(s1, width as int);
    }
    if inline_items_width(&selected) <= width {
        return selected;
    }
    let ghost s2 = views(selected@);
    let priorities = droppable_priorities(&selected);
    proof {
        lemma_priority_levels_len(s2);
    }
    let ghost target = drop_levels(s2, priorities@, width as int);
    let mut idx: usize = 0;
    proof {
        assert(priorities@.skip(0) =~= priorities@);
    }
    while idx < priorities.len()
        invariant
            s == views(items@),
            idx <= priorities.len(),
            priorities@.len() <= s.len(),
            layout_budget(s) <= usize::MAX,
            target == selected_items(s, width as int),
            drop_levels(views(selected@), priorities@.skip(idx as int), width as int) == target,
            width_budget(views(selected@)) <= width_budget(s) + 3 + 3 * idx,
        decreases priorities.len() - idx,
    {
        let p = priorities[idx];
        let ghost cur = views(selected@);
        proof {
            assert(priorities@.skip(idx as int)[0] == p);
            assert(priorities@.skip(idx as int).drop_first() =~= priorities@.skip(idx + 1));
            lemma_drop_through_budget(cur, p);
        }
        selected = without_priorities_through(&selected, p);
        if inline_items_width(&selected) <= width {
            return selected;
        }
        let ghost dropped = views(selected@);
        truncate_lowest_priority_item_to_fit(&mut selected, width);
        proof {
            lemma_truncate_budget(dropped, width as int);
        }
        if inline_items_width(&selected) <= width {
            return selected;
        }
        idx = idx + 1;
    }
    proof {
        assert(priorities@.skip(idx as int).len() == 0);
    }
    truncate_lowest_priority_item_to_fit(&mut selected, width);
    selected
}

// ---------------------------------------------------------------------------
// Placement

proof fn lemma_placed_monotone(s: Seq<InlineItemView>, i: int, j: int)
    requires
        0 <= i <= j <= s.len(),
    ensures
        placed_width(s.take(i)) <= placed_width(s.take(j)),
    decreases j - i,
{
    if i < j {
        lemma_placed_monotone(s, i, j - 1);
        lemma_prefix_step(s, j - 1);
    }
}

/// Lays items out left to right, separated as `inline_separator` says,
/// stopping at the first item that would not fit in `width` columns.
fn place_items(items: &Vec<InlineItem>, width: usize) -> (r: PlacedInlineRun)
    requires
        width_budget(views(items@)) <= usize::MAX,
    ensures
        r.items.len() <= items.len(),
        placed_width(views(items@).take(r.items.len() as int)) <= width,
        r.items.len() < items.len() ==> placed_width(views(items@).take(r.items.len() + 1)) > width,
        r.text@ == placed_text(views(items@).take(r.items.len() as int)),
        r.visible_width == placed_width(views(items@).take(r.items.len() as int)),
        forall|i: int| 0 <= i < r.items.len() ==> {
            &&& (#[trigger] r.items[i]).id@ == items[i].id@
            &&& r.items[i].hit == items[i].hit
            &&& r.items[i].cols.end == placed_width(views(items@).take(i + 1))
            &&& r.items[i].cols.start == placed_width(views(items@).take(i + 1)) - str_width(items[i].measure_text@)
        },
        r.items.len() > 0 ==> str_width(Seq::<char>::empty()) == 0,
{
    let ghost s = views(items@);
    let mut text = String::new();
    let mut visible_width: usize = 0;
    let mut placed: Vec<PlacedInlineItem> = Vec::new();
    let mut i: usize = 0;
    while i < items.len()
        invariant
            s == views(items@),
            i <= items.len(),
            placed.len() == i,
            width_budget(s) <= usize::MAX,
            text@ == placed_text(s.take(i as int)),
            visible_width == placed_width(s.take(i as int)),
            visible_width <= width,
            visible_width <= width_budget(s.take(i as int)),
            i > 0 ==> str_width(Seq::<char>::empty()) == 0,
            forall|k: int| 0 <= k < i ==> {
                &&& (#[trigger] placed[k]).id@ == items[k].id@
                &&& placed[k].hit == items[k].hit
                &&& placed[k].cols.end == placed_width(s.take(k + 1))
                &&& placed[k].cols.start == placed_width(s.take(k + 1)) - str_width(items[k].measure_text@)
            },
        ensures
            i <= items.len(),
            placed.len() == i,
            text@ == placed_text(s.take(i as int)),
            visible_width == placed_width(s.take(i as int)),
            visible_width <= width,
            i < items.len() ==> placed_width(s.take(i + 1)) > width,
            i > 0 ==> str_width(Seq::<char>::empty()) == 0,
            forall|k: int| 0 <= k < i ==> {
                &&& (#[trigger] placed[k]).id@ == items[k].id@
                &&& placed[k].hit == items[k].hit
                &&& placed[k].cols.end == placed_width(s.take(k + 1))
                &&& placed[k].cols.start == placed_width(s.take(k + 1)) - str_width(items[k].measure_text@)
            },
        decreases items.len() - i,
    {
        let item = &items[i];
        proof {
            lemma_prefix_step(s, i as int);
            lemma_budget_prefix(s, i + 1);
            assert(s[i as int] == item@);
        }
        let separator = inline_separator(text.as_str(), item.measure_text.as_str());
        let separator_width = text_width(separator);
        let item_width = text_width(item.measure_text.as_str());
        if visible_width + separator_width + item_width > width {
            break;
        }
        push_text(&mut text, separator);
        visible_width = visible_width + separator_width;
        let start = visible_width;
        push_text(&mut text, item.text.as_str());
        visible_width = visible_width + item_width;
        placed.push(PlacedInlineItem { id: item.id.clone(), cols: start..visible_width, hit: item.hit });
        i = i + 1;
    }
    PlacedInlineRun { text, visible_width: if visible_width < width { visible_width } else { width }, items: placed }
}


/// `r` is the placement of the run `s` in `width` columns: the longest
/// prefix of `s` that fits, with each item's columns.
pub open spec fn is_placement(r: PlacedInlineRun, s: Seq<InlineItemView>, width: int) -> bool {
    let n = r.items@.len() as int;
    &&& n <= s.len()
    &&& placed_width(s.take(n)) <= width
    &&& n < s.len() ==> placed_width(s.take(n + 1)) > width
    &&& r.text@ == placed_text(s.take(n))
    &&& r.visible_width == placed_width(s.take(n))
    &&& forall|i: int| 0 <= i < n ==> {
        &&& (#[trigger] r.items@[i]).id@ == s[i].id
        &&& r.items@[i].hit == s[i].hit
        &&& r.items@[i].cols.end == placed_width(s.take(i + 1))
        &&& r.items@[i].cols.start == placed_width(s.take(i + 1)) - str_width(s[i].measure_text)
    }
}

pub open spec fn count_class(s: Seq<InlineItemView>, class: InlineClass) -> nat
    decreases s.len(),
{
    if s.len() == 0 {
        0
    } else {
        count_class(s.drop_last(), class) + if s.last().class == class { 1nat } else { 0nat }
    }
}

proof fn lemma_agree(s: Seq<InlineItemView>)
    requires
        texts_agree(s),
    ensures
        placed_width(s) == measured_width(s),
        placed_text(s).len() == 0 <==> measured_text(s).len() == 0,
    decreases s.len(),
{
    if s.len() > 0 {
        let t = s.drop_last();
        assert forall|i: int| 0 <= i < t.len() implies (#[trigger] t[i].text.len() == 0 <==> t[i].measure_text.len() == 0) by {
            assert(t[i] == s[i]);
        }
        lemma_agree(t);
        assert(s.last() == s[s.len() - 1]);
    }
}

proof fn lemma_fits_places_all(s: Seq<InlineItemView>, width: int, r: PlacedInlineRun)
    requires
        texts_agree(s),
        measured_width(s) <= width,
        is_placement(r, s, width),
    ensures
        r.items@.len() == s.len(),
        r.text@ == placed_text(s),
        r.visible_width == measured_width(s),
{
    lemma_agree(s);
    let n = r.items@.len() as int;
    if n < s.len() {
        lemma_placed_monotone(s, n + 1, s.len() as int);
        assert(s.take(s.len() as int) =~= s);
    }
    assert(s.take(s.len() as int) =~= s);
}

proof fn lemma_count_update(s: Seq<InlineItemView>, i: int, x: InlineItemView, class: InlineClass)
    requires
        0 <= i < s.len(),
        x.class == s[i].class,
    ensures
        count_class(s.update(i, x), class) == count_class(s, class),
    decreases s.len(),
{
    if i == s.len() - 1 {
        assert(s.update(i, x).drop_last() =~= s.drop_last());
    } else {
        lemma_count_update(s.drop_last(), i, x, class);
        assert(s.update(i, x).drop_last() =~= s.drop_last().update(i, x));
    }
}

proof fn lemma_truncate_counts(s: Seq<InlineItemView>, width: int, class: InlineClass)
    ensures
        count_class(truncate_lowest(s, width), class) == count_class(s, class),
{
    lemma_lowest_in_range(s);
    if let Some(i) = lowest_truncatable(s) {
        if measured_width(s) > width {
            let item_width = str_width(s[i].measure_text) as int;
            let overflow = measured_width(s) - width;
            let max_reduction = item_width - s[i].min_width;
            let reduction = if overflow < max_reduction { overflow } else { max_reduction };
            lemma_count_update(s, i, with_text(s[i], ellipsized(s[i].measure_text, item_width - reduction)), class);
        }
    }
}

proof fn lemma_drop_optional_counts(s: Seq<InlineItemView>)
    ensures
        count_class(drop_optional(s), InlineClass::Optional) == 0,
        count_class(drop_optional(s), InlineClass::Required) == count_class(s, InlineClass::Required),
        count_class(drop_optional(s), InlineClass::Priority) == count_class(s, InlineClass::Priority),
    decreases s.len(),
{
    if s.len() > 0 {
        lemma_drop_optional_counts(s.drop_last());
        let r = drop_optional(s.drop_last());
        if s.last().class != InlineClass::Optional {
            assert(r.push(s.last()).drop_last() =~= r);
        }
    }
}

proof fn lemma_drop_through_counts(s: Seq<InlineItemView>, p: i64)
    ensures
        count_class(drop_priorities_through(s, p), InlineClass::Optional) == count_class(s, InlineClass::Optional),
        count_class(drop_priorities_through(s, p), InlineClass::Required) == count_class(s, InlineClass::Required),
    decreases s.len(),
{
    if s.len() > 0 {
        lemma_drop_through_counts(s.drop_last(), p);
        let r = drop_priorities_through(s.drop_last(), p);
        if !(s.last().class == InlineClass::Priority && s.last().priority <= p) {
            assert(r.push(s.last()).drop_last() =~= r);
        }
    }
}

proof fn lemma_drop_levels_counts(s: Seq<InlineItemView>, ps: Seq<i64>, width: int)
    ensures
        count_class(drop_levels(s, ps, width), InlineClass::Required) == count_class(s, InlineClass::Required),
        count_class(drop_levels(s, ps, width), InlineClass::Optional) == count_class(s, InlineClass::Optional),
    decreases ps.len(),
{
    lemma_truncate_counts(s, width, InlineClass::Required);
    lemma_truncate_counts(s, width, InlineClass::Optional);
    if ps.len() > 0 {
        let s1 = drop_priorities_through(s, ps[0]);
        lemma_drop_through_counts(s, ps[0]);
        lemma_truncate_counts(s1, width, InlineClass::Required);
        lemma_truncate_counts(s1, width, InlineClass::Optional);
        lemma_drop_levels_counts(truncate_lowest(s1, width), ps.drop_first(), width);
    }
}

/// Required items are never dropped: the selection for any width holds as
/// many required items as the run.
pub proof fn lemma_selection_keeps_required(s: Seq<InlineItemView>, width: int)
    ensures
        count_class(selected_items(s, width), InlineClass::Required) == count_class(s, InlineClass::Required),
{
    lemma_drop_optional_counts(s);
    let s1 = drop_optional(s);
    lemma_truncate_counts(s1, width, InlineClass::Required);
    let s2 = truncate_lowest(s1, width);
    lemma_drop_levels_counts(s2, priority_levels(s2), width);
}

/// Optional items are dropped before priority items: when the selection has
/// lost a priority item, it holds no optional item.
pub proof fn lemma_optional_dropped_before_priority(s: Seq<InlineItemView>, width: int)
    ensures
        count_class(selected_items(s, width), InlineClass::Priority) < count_class(s, InlineClass::Priority)
            ==> count_class(selected_items(s, width), InlineClass::Optional) == 0,
{
    lemma_drop_optional_counts(s);
    let s1 = drop_optional(s);
    lemma_truncate_counts(s1, width, InlineClass::Optional);
    let s2 = truncate_lowest(s1, width);
    lemma_drop_levels_counts(s2, priority_levels(s2), width);
}

// ---------------------------------------------------------------------------
// Levels are dropped lowest first

/// How many priority items of priority `p` the run holds.
pub open spec fn count_level(s: Seq<InlineItemView>, p: i64) -> nat
    decreases s.len(),
{
    if s.len() == 0 {
        0
    } else {
        count_level(s.drop_last(), p) + if s.last().class == InlineClass::Priority && s.last().priority == p { 1nat } else { 0nat }
    }
}

/// `b` holds the priority items of `a` ranked above `t`, every one of
/// them, and none ranked at or below `t`.
pub open spec fn levels_kept_above(a: Seq<InlineItemView>, b: Seq<InlineItemView>, t: int) -> bool {
    forall|p: i64| #[trigger] count_level(b, p) == if p <= t { 0 } else { count_level(a, p) }
}

proof fn lemma_count_level_update(s: Seq<InlineItemView>, i: int, x: InlineItemView, p: i64)
    requires
        0 <= i < s.len(),
        x.class == s[i].class,
        x.priority == s[i].priority,
    ensures
        count_level(s.update(i, x), p) == count_level(s, p),
    decreases s.len(),
{
    if i == s.len() - 1 {
        assert(s.update(i, x).drop_last() =~= s.drop_last());
    } else {
        lemma_count_level_update(s.drop_last(), i, x, p);
        assert(s.update(i, x).drop_last() =~= s.drop_last().update(i, x));
    }
}

proof fn lemma_truncate_keeps_levels(s: Seq<InlineItemView>, width: int)
    ensures
        levels_kept_above(s, truncate_lowest(s, width), i64::MIN as int - 1),
{
    lemma_lowest_in_range(s);
    assert forall|p: i64| #[trigger] count_level(truncate_lowest(s, width), p) == count_level(s, p) by {
        if let Some(i) = lowest_truncatable(s) {
            if measured_width(s) > width {
                let item_width = str_width(s[i].measure_text) as int;
                let overflow = measured_width(s) - width;
                let max_reduction = item_width - s[i].min_width;
                let reduction = if overflow < max_reduction { overflow } else { max_reduction };
                lemma_count_level_update(s, i, with_text(s[i], ellipsized(s[i].measure_text, item_width - reduction)), p);
            }
        }
    }
}

proof fn lemma_drop_optional_keeps_levels(s: Seq<InlineItemView>, p: i64)
    ensures
        count_level(drop_optional(s), p) == count_level(s, p),
    decreases s.len(),
{
    if s.len() > 0 {
        lemma_drop_optional_keeps_levels(s.drop_last(), p);
        let r = drop_optional(s.drop_last());
        if s.last().class != InlineClass::Optional {
            assert(r.push(s.last()).drop_last() =~= r);
        }
    }
}

proof fn lemma_drop_through_levels(s: Seq<InlineItemView>, t: i64, p: i64)
    ensures
        count_level(drop_priorities_through(s, t), p) == if p <= t { 0 } else { count_level(s, p) },
    decreases s.len(),
{
    if s.len() > 0 {
        lemma_drop_through_levels(s.drop_last(), t, p);
        let r = drop_priorities_through(s.drop_last(), t);
        if !(s.last().class == InlineClass::Priority && s.last().priority <= t) {
            assert(r.push(s.last()).drop_last() =~= r);
        }
    }
}

proof fn lemma_drop_levels_threshold(s: Seq<InlineItemView>, ps: Seq<i64>, width: int) -> (t: int)
    ensures
        levels_kept_above(s, drop_levels(s, ps, width), t),
    decreases ps.len(),
{
    lemma_truncate_keeps_levels(s, width);
    if ps.len() == 0 {
        i64::MIN as int - 1
    } else {
        let s1 = drop_priorities_through(s, ps[0]);
        assert forall|p: i64| #[trigger] count_level(s1, p) == if p <= ps[0] { 0 } else { count_level(s, p) } by {
            lemma_drop_through_levels(s, ps[0], p);
        }
        let s2 = truncate_lowest(s1, width);
        lemma_truncate_keeps_levels(s1, width);
        if measured_width(s1) <= width {
            ps[0] as int
        } else if measured_width(s2) <= width {
            ps[0] as int
        } else {
            let t2 = lemma_drop_levels_threshold(s2, ps.drop_first(), width);
            let r = drop_levels(s2, ps.drop_first(), width);
            let t = if t2 > ps[0] { t2 } else { ps[0] as int };
            assert forall|p: i64| #[trigger] count_level(r, p) == if p <= t { 0 } else { count_level(s, p) } by {
                assert(count_level(r, p) == if p <= t2 { 0 } else { count_level(s2, p) });
                assert(count_level(s2, p) == count_level(s1, p));
            }
            t
        }
    }
}

proof fn lemma_selection_threshold(s: Seq<InlineItemView>, width: int) -> (t: int)
    ensures
        levels_kept_above(s, selected_items(s, width), t),
{
    let s1 = drop_optional(s);
    let s2 = truncate_lowest(s1, width);
    lemma_truncate_keeps_levels(s1, width);
    assert forall|p: i64| #[trigger] count_level(s2, p) == count_level(s, p) by {
        lemma_drop_optional_keeps_levels(s, p);
    }
    if measured_width(s) <= width {
        i64::MIN as int - 1
    } else if measured_width(s1) <= width {
        assert forall|p: i64| #[trigger] count_level(s1, p) == count_level(s, p) by {
            lemma_drop_optional_keeps_levels(s, p);
        }
        i64::MIN as int - 1
    } else if measured_width(s2) <= width {
        i64::MIN as int - 1
    } else {
        let t = lemma_drop_levels_threshold(s2, priority_levels(s2), width);
        t
    }
}

/// Priority levels are dropped lowest first: once the selection has lost a
/// priority item of some priority, it holds no priority item of that
/// priority or any lower one.
pub proof fn lemma_priority_levels_dropped_lowest_first(s: Seq<InlineItemView>, width: int)
    ensures
        forall|p: i64, q: i64|
            q <= p && #[trigger] count_level(selected_items(s, width), p) < count_level(s, p) ==> #[trigger] count_level(
                selected_items(s, width),
                q,
            ) == 0,
{
    let t = lemma_selection_threshold(s, width);
    let sel = selected_items(s, width);
    assert forall|p: i64, q: i64|
        q <= p && #[trigger] count_level(sel, p) < count_level(s, p) implies #[trigger] count_level(sel, q) == 0 by {
        assert(count_level(sel, p) == if p <= t { 0 } else { count_level(s, p) });
        assert(count_level(sel, q) == if q <= t { 0 } else { count_level(s, q) });
    }
}

proof fn lemma_insert_sorted_facts(ps: Seq<i64>, p: i64)
    requires
        strictly_ascending(ps),
    ensures
        strictly_ascending(insert_sorted(ps, p)),
        forall|x: i64| #[trigger] insert_sorted(ps, p).contains(x) <==> (ps.contains(x) || x == p),
    decreases ps.len(),
{
    let r = insert_sorted(ps, p);
    if ps.len() == 0 {
        assert forall|x: i64| #[trigger] r.contains(x) <==> (ps.contains(x) || x == p) by {
            if r.contains(x) {
                let k = choose|k: int| 0 <= k < r.len() && r[k] == x;
                assert(k == 0);
            }
            if x == p {
                assert(r[0] == p);
            }
        }
    } else if p < ps[0] {
        assert(r == seq![p] + ps);
        assert forall|a: int, b: int| 0 <= a < b < r.len() implies r[a] < r[b] by {
            if a > 0 {
                assert(r[a] == ps[a - 1] && r[b] == ps[b - 1]);
            } else {
                assert(r[b] == ps[b - 1]);
                assert(ps[0] <= ps[b - 1]) by {
                    if b - 1 > 0 {
                        assert(ps[0] < ps[b - 1]);
                    }
                }
            }
        }
        assert forall|x: i64| #[trigger] r.contains(x) <==> (ps.contains(x) || x == p) by {
            if r.contains(x) {
                let k = choose|k: int| 0 <= k < r.len() && r[k] == x;
                if k > 0 {
                    assert(ps[k - 1] == x);
                }
            }
            if ps.contains(x) {
                let k = choose|k: int| 0 <= k < ps.len() && ps[k] == x;
                assert(r[k + 1] == x);
            }
            if x == p {
                assert(r[0] == p);
            }
        }
    } else if p == ps[0] {
        assert forall|x: i64| #[trigger] r.contains(x) <==> (ps.contains(x) || x == p) by {
            if x == p {
                assert(ps[0] == p);
            }
        }
    } else {
        let rest = ps.drop_first();
        assert forall|a: int, b: int| 0 <= a < b < rest.len() implies rest[a] < rest[b] by {
            assert(rest[a] == ps[a + 1] && rest[b] == ps[b + 1]);
        }
        lemma_insert_sorted_facts(rest, p);
        let ri = insert_sorted(rest, p);
        assert(r == seq![ps[0]] + ri);
        assert forall|x: i64| #[trigger] r.contains(x) <==> (ps.contains(x) || x == p) by {
            if r.contains(x) {
                let k = choose|k: int| 0 <= k < r.len() && r[k] == x;
                if k > 0 {
                    assert(ri[k - 1] == x);
                    assert(ri.contains(x));
                    if rest.contains(x) {
                        let m = choose|m: int| 0 <= m < rest.len() && rest[m] == x;
                        assert(ps[m + 1] == x);
                    }
                } else {
                    assert(ps[0] == x);
                }
            }
            if ps.contains(x) {
                let k = choose|k: int| 0 <= k < ps.len() && ps[k] == x;
                if k > 0 {
                    assert(rest[k - 1] == x);
                    assert(rest.contains(x));
                    assert(ri.contains(x));
                    let m = choose|m: int| 0 <= m < ri.len() && ri[m] == x;
                    assert(r[m + 1] == x);
                } else {
                    assert(r[0] == x);
                }
            }
            if x == p {
                assert(ri.contains(p));
                let m = choose|m: int| 0 <= m < ri.len() && ri[m] == p;
                assert(r[m + 1] == p);
            }
        }
        assert forall|a: int, b: int| 0 <= a < b < r.len() implies r[a] < r[b] by {
            if a > 0 {
                assert(r[a] == ri[a - 1] && r[b] == ri[b - 1]);
            } else {
                assert(r[b] == ri[b - 1]);
                assert(ri.contains(ri[b - 1]));
                let x = ri[b - 1];
                if rest.contains(x) {
                    let m = choose|m: int| 0 <= m < rest.len() && rest[m] == x;
                    assert(ps[m + 1] == x);
                }
            }
        }
    }
}

proof fn lemma_priority_levels_facts(s: Seq<InlineItemView>)
    ensures
        strictly_ascending(priority_levels(s)),
        forall|x: i64| #[trigger] priority_levels(s).contains(x) <==> count_level(s, x) > 0,
    decreases s.len(),
{
    if s.len() > 0 {
        lemma_priority_levels_facts(s.drop_last());
        if s.last().class == InlineClass::Priority {
            lemma_insert_sorted_facts(priority_levels(s.drop_last()), s.last().priority);
        }
    } else {
        assert forall|x: i64| #[trigger] priority_levels(s).contains(x) <==> count_level(s, x) > 0 by {}
    }
}

/// Levels are dropped only while the line does not fit: when cutting the
/// line without its optional items is not enough, but dropping the lowest
/// priority level then is, every priority item ranked above that level is
/// kept.
pub proof fn lemma_higher_levels_kept_when_lowest_suffices(s: Seq<InlineItemView>, width: int, low: i64)
    requires
        measured_width(s) > width,
        measured_width(drop_optional(s)) > width,
        measured_width(truncate_lowest(drop_optional(s), width)) > width,
        count_level(s, low) > 0,
        forall|p: i64| p < low ==> #[trigger] count_level(s, p) == 0,
        measured_width(drop_priorities_through(truncate_lowest(drop_optional(s), width), low)) <= width,
    ensures
        forall|q: i64| q > low ==> #[trigger] count_level(selected_items(s, width), q) == count_level(s, q),
{
    let s1 = drop_optional(s);
    let s2 = truncate_lowest(s1, width);
    lemma_truncate_keeps_levels(s1, width);
    assert forall|p: i64| #[trigger] count_level(s2, p) == count_level(s, p) by {
        lemma_drop_optional_keeps_levels(s, p);
    }
    let ps = priority_levels(s2);
    lemma_priority_levels_facts(s2);
    assert(ps.contains(low));
    let k = choose|k: int| 0 <= k < ps.len() && ps[k] == low;
    assert(ps.len() > 0);
    assert(ps.contains(ps[0]));
    assert(count_level(s2, ps[0]) > 0);
    if ps[0] < low {
        assert(count_level(s, ps[0]) == 0);
    }
    if k > 0 {
        assert(ps[0] < ps[k]);
    }
    assert(ps[0] == low);
    assert forall|q: i64| q > low implies #[trigger] count_level(selected_items(s, width), q) == count_level(s, q) by {
        lemma_drop_through_levels(s2, low, q);
    }
}

impl InlineRun {
    pub fn new(items: Vec<InlineItem>) -> (r: Self)
        ensures
            r@ == views(items@),
    {
        Self { items }
    }

    /// Lays the run out in `width` columns: the items chosen for the width,
    /// placed left to right. When every item fits (and each rendered text is
    /// empty exactly when its measured text is), every item is placed with
    /// its full text.
    pub fn layout(&self, width: usize) -> (r: PlacedInlineRun)
        requires
            layout_budget(self@) <= usize::MAX,
        ensures
            is_placement(r, selected_items(self@, width as int), width as int),
            placed_in_order(r),
            r.visible_width <= width,
            texts_agree(self@) && measured_width(self@) <= width ==> {
                &&& r.items@.len() == self@.len()
                &&& r.text@ == placed_text(self@)
                &&& r.visible_width == measured_width(self@)
            },
    {
        let selected = select_items_for_width(&self.items, width);
        proof {
            let sel = views(selected@);
            lemma_budget_nonneg(views(self.items@));
            if measured_width(views(self.items@)) > width {
                lemma_drop_optional_budget(views(self.items@));
                let s1 = drop_optional(views(self.items@));
                lemma_truncate_budget(s1, width as int);
                let s2 = truncate_lowest(s1, width as int);
                lemma_priority_levels_len(s2);
                lemma_drop_levels_budget(s2, priority_levels(s2), width as int);
            }
        }
        let r = place_items(&selected, width);
        proof {
            lemma_placement_in_order(r, selected_items(self@, width as int), width as int);
            if texts_agree(self@) && measured_width(self@) <= width {
                lemma_fits_places_all(self@, width as int, r);
            }
        }
        r
    }
}

/// The placed items sit left to right from column 0, each one no earlier
/// than the end of the one before, and the run is as wide as the place
/// where its last item ends.
pub open spec fn placed_in_order(r: PlacedInlineRun) -> bool {
    let n = r.items@.len() as int;
    &&& n > 0 ==> r.items@[0].cols.start == 0
    &&& forall|k: int| 0 <= k < n ==> (#[trigger] r.items@[k]).cols.start <= r.items@[k].cols.end
    &&& forall|k: int| 0 <= k < n - 1 ==> (#[trigger] r.items@[k]).cols.end <= r.items@[k + 1].cols.start
    &&& r.visible_width == (if n == 0 { 0 } else { r.items@[n - 1].cols.end as int })
}

proof fn lemma_placement_in_order(r: PlacedInlineRun, s: Seq<InlineItemView>, width: int)
    requires
        is_placement(r, s, width),
        r.items@.len() > 0 ==> str_width(Seq::<char>::empty()) == 0,
    ensures
        placed_in_order(r),
{
    let n = r.items@.len() as int;
    if n > 0 {
        lemma_prefix_step(s, 0);
        let t1 = s.take(1);
        assert(t1.drop_last() =~= Seq::<InlineItemView>::empty());
        assert(placed_width(t1.drop_last()) == 0);
        assert(placed_text(t1.drop_last()) == Seq::<char>::empty());
        assert(separator(Seq::<char>::empty(), t1.last().measure_text) == Seq::<char>::empty());
        assert(placed_width(t1) == str_width(t1.last().measure_text));
        assert(r.items@[0].cols.start == 0);
    }
    assert forall|k: int| 0 <= k < n - 1 implies (#[trigger] r.items@[k]).cols.end <= r.items@[k + 1].cols.start by {
        lemma_prefix_step(s, k + 1);
        let _ = r.items@[k + 1];
    }
    assert forall|k: int| 0 <= k < n implies (#[trigger] r.items@[k]).cols.start <= r.items@[k].cols.end by {}
    if n > 0 {
        assert(r.items@[0].cols.start == 0);
        assert(r.items@[n - 1].cols.end == placed_width(s.take(n)));
        assert(r.visible_width == r.items@[n - 1].cols.end as int);
    } else {
        assert(s.take(0) =~= Seq::<InlineItemView>::empty());
        assert(r.visible_width == 0);
    }
}

impl InlineItem {
    /// A required item showing `text`, measured by its own width.
    pub fn text(id: &str, text: &str) -> (r: Self)
        ensures
            r@ == (InlineItemView {
                id: id@,
                text: text@,
                measure_text: text@,
                class: InlineClass::Required,
                priority: 100,
                min_width: if str_width(text@) < 3 { str_width(text@) } else { 3 },
                compact_text: None,
                hit: None,
            }),
    {
        let width = text_width(text);
        let min_width = if width < 3 { width } else { 3 };
        Self {
            id: id.to_owned(),
            measure_text: text.to_owned(),
            text: text.to_owned(),
            class: InlineClass::Required,
            priority: 100,
            min_width,
            compact_text: None,
            hit: None,
        }
    }

    /// A required item showing styled `text` whose visible characters are `measure_text`.
    pub fn styled_text(id: &str, text: &str, measure_text: &str) -> (r: Self)
        ensures
            r@ == (InlineItemView {
                id: id@,
                text: text@,
                measure_text: measure_text@,
                class: InlineClass::Required,
                priority: 100,
                min_width: if str_width(measure_text@) < 3 { str_width(measure_text@) } else { 3 },
                compact_text: None,
                hit: None,
            }),
    {
        let width = text_width(measure_text);
        Self {
            id: id.to_owned(),
            text: text.to_owned(),
            min_width: if width < 3 { width } else { 3 },
            measure_text: measure_text.to_owned(),
            class: InlineClass::Required,
            priority: 100,
            compact_text: None,
            hit: None,
        }
    }

    pub fn required(self) -> (r: Self)
        ensures
            r@ == (InlineItemView { class: InlineClass::Required, priority: 100, ..self@ }),
    {
        let mut item = self;
        item.class = InlineClass::Required;
        item.priority = 100;
        item
    }

    pub fn optional(self) -> (r: Self)
        ensures
            r@ == (InlineItemView { class: InlineClass::Optional, priority: 0, ..self@ }),
    {
        let mut item = self;
        item.class = InlineClass::Optional;
        item.priority = 0;
        item
    }

    pub fn priority(self, priority: i64) -> (r: Self)
        ensures
            r@ == (InlineItemView { class: InlineClass::Priority, priority: priority, ..self@ }),
    {
        let mut item = self;
        item.class = InlineClass::Priority;
        item.priority = priority;
        item
    }

    pub fn hit(self, hit: InlineHit) -> (r: Self)
        ensures
            r@ == (InlineItemView { hit: Some(hit), ..self@ }),
    {
        let mut item = self;
        item.hit = Some(hit);
        item
    }
}

} // verus!
