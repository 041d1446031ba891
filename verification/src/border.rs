//! A single border row built cell by cell: every cell remembers which
//! widget claimed it, so two widgets never paint over each other.

use vstd::prelude::*;
use crate::width::{char_cols, char_display_width};
use crate::text::push_char;
use crate::model::GroupPath;
use crate::render::{
    BorderKind, CellStyle, HitAction, HitRegion, RenderTheme, TextStyle, ansi_painted, body_text_spec,
    corner_left, corner_right, dotted, latent_tab_style, left_corner, paint, plain_style, right_corner,
    span_text, style_body_text, style_span, truncate_to_width,
};

verus! {

/// One cell of a border row: its glyph, its style and the widget that
/// claimed it, if any.
#[derive(Debug, Clone, Copy)]
pub struct BorderCell {
    pub glyph: char,
    pub style: CellStyle,
    pub owner: Option<&'static str>,
}

/// What a click on a placed glyph refers to.
#[derive(Debug, Clone)]
pub struct BorderHitPayload {
    pub tab_id: u64,
    pub tab_position: usize,
    pub group_path: Option<GroupPath>,
}

impl BorderHitPayload {
    pub fn none() -> (p: Self)
        ensures
            p.tab_id == 0,
            p.tab_position == 0,
            p.group_path is None,
    {
        BorderHitPayload { tab_id: 0, tab_position: 0, group_path: None }
    }
}

/// A clickable glyph placed on the row, waiting for the row's index.
#[derive(Debug, Clone)]
pub struct BorderPendingHit {
    pub col_start: usize,
    pub col_end: usize,
    pub action: HitAction,
    pub payload: BorderHitPayload,
}

/// Single-row builder that tracks per-cell ownership.
pub struct BorderRow {
    cells: Vec<BorderCell>,
    width: usize,
    kind: BorderKind,
    hits: Vec<BorderPendingHit>,
}

/// The mathematical content of a [`BorderRow`].
pub struct BorderRowView {
    pub cells: Seq<BorderCell>,
    pub width: nat,
    pub kind: BorderKind,
    pub hits: Seq<BorderPendingHit>,
}

impl View for BorderRow {
    type V = BorderRowView;

    closed spec fn view(&self) -> BorderRowView {
        BorderRowView { cells: self.cells@, width: self.width as nat, kind: self.kind, hits: self.hits@ }
    }
}

/// The cell that fills a fresh row: a rule in the border's style, or a
/// blank body cell on a footer.
pub open spec fn fill_cell(kind: BorderKind) -> BorderCell {
    match kind {
        BorderKind::Top { active, .. } => BorderCell { glyph: '─', style: CellStyle::Border { active }, owner: None },
        BorderKind::Bottom { active } => BorderCell { glyph: '─', style: CellStyle::Border { active }, owner: None },
        BorderKind::Footer => BorderCell { glyph: ' ', style: CellStyle::Body, owner: None },
    }
}

/// A fresh row of `width` cells: the fill, with the left corner in the
/// first cell and, from two cells on, the right corner in the last.
pub open spec fn fresh_cells(width: nat, kind: BorderKind) -> Seq<BorderCell> {
    Seq::new(
        width,
        |i: int|
            if i == 0 && left_corner(kind) is Some {
                BorderCell { glyph: left_corner(kind).unwrap().0, style: left_corner(kind).unwrap().1, owner: Some("corner_left") }
            } else if i == width - 1 && width >= 2 && right_corner(kind) is Some {
                BorderCell { glyph: right_corner(kind).unwrap().0, style: right_corner(kind).unwrap().1, owner: Some("corner_right") }
            } else {
                fill_cell(kind)
            },
    )
}

/// Where the cells between the corners start: past the left corner of a
/// top or bottom border.
pub open spec fn inner_start(kind: BorderKind, width: nat) -> nat {
    let start: nat = if !(kind is Footer) && width >= 1 { 1 } else { 0 };
    let end = inner_end(kind, width);
    if start < end { start } else { end }
}

/// Where the cells between the corners end: before the right corner of a
/// top or bottom border.
pub open spec fn inner_end(kind: BorderKind, width: nat) -> nat {
    if !(kind is Footer) && width >= 2 { (width - 1) as nat } else { width }
}

/// The style of a glyph placed on the row: the border's, or body text on a footer.
pub open spec fn decoration_of(kind: BorderKind) -> CellStyle {
    match kind {
        BorderKind::Top { active, .. } => CellStyle::Border { active },
        BorderKind::Bottom { active } => CellStyle::Border { active },
        BorderKind::Footer => CellStyle::Body,
    }
}

/// The style of a title on the row.
pub open spec fn title_style_of(kind: BorderKind, dimmed: bool) -> CellStyle {
    match kind {
        BorderKind::Top { active, .. } => CellStyle::Title { active, dimmed },
        BorderKind::Bottom { active } => CellStyle::Title { active, dimmed },
        BorderKind::Footer => CellStyle::Body,
    }
}

/// The first cell from `i` on, before `end`, that no widget has claimed; `end` if none.
pub open spec fn first_free(cells: Seq<BorderCell>, i: int, end: int) -> int
    decreases end - i,
{
    if i >= end || cells[i].owner is None {
        i
    } else {
        first_free(cells, i + 1, end)
    }
}

/// The first cell from `i` on, before `end`, that a widget has claimed; `end` if none.
pub open spec fn first_claimed(cells: Seq<BorderCell>, i: int, end: int) -> int
    decreases end - i,
{
    if i >= end || cells[i].owner is Some {
        i
    } else {
        first_claimed(cells, i + 1, end)
    }
}

/// The columns a character takes in a title: at least one.
pub open spec fn title_advance(c: char) -> nat {
    if char_cols(c) > 1 { char_cols(c) } else { 1 }
}

/// A cell of a title showing `c`.
pub open spec fn title_cell(c: char, style: CellStyle) -> BorderCell {
    BorderCell { glyph: c, style, owner: Some("title") }
}

fn make_title_cell(c: char, style: CellStyle) -> (cell: BorderCell)
    ensures
        cell == title_cell(c, style),
{
    BorderCell { glyph: c, style, owner: Some("title") }
}

/// The cells once `label` is written from `col` on, each character
/// advancing by its width, as long as the column is before `end`.
pub open spec fn title_cells(cells: Seq<BorderCell>, label: Seq<char>, col: int, end: int, style: CellStyle) -> Seq<BorderCell>
    decreases label.len(),
{
    if label.len() == 0 || col >= end {
        cells
    } else {
        title_cells(
            cells.update(col, title_cell(label[0], style)),
            label.drop_first(),
            col + title_advance(label[0]),
            end,
            style,
        )
    }
}

/// The cells with a title written into the leftmost run of unclaimed
/// cells between the corners: ` title `, cut with dots to the run.
pub open spec fn titled_cells(cells: Seq<BorderCell>, kind: BorderKind, width: nat, title: Seq<char>, dimmed: bool) -> Seq<BorderCell> {
    let start = inner_start(kind, width) as int;
    let end = inner_end(kind, width) as int;
    let run_start = first_free(cells, start, end);
    let run_end = first_claimed(cells, run_start, end);
    if start >= end || run_end - run_start == 0 {
        cells
    } else {
        title_cells(
            cells,
            dotted(seq![' '] + title + seq![' '], run_end - run_start),
            run_start,
            run_end,
            title_style_of(kind, dimmed),
        )
    }
}

/// Where the run of cells that share the style of cell `i` ends, looking from `j`.
pub open spec fn style_run_end(cells: Seq<BorderCell>, i: int, j: int) -> int
    decreases cells.len() - j,
{
    if j >= cells.len() || cells[j].style != cells[i].style {
        j
    } else {
        style_run_end(cells, i, j + 1)
    }
}

pub proof fn lemma_style_run_end_bounds(cells: Seq<BorderCell>, i: int, j: int)
    requires
        j <= cells.len(),
    ensures
        j <= style_run_end(cells, i, j) <= cells.len(),
    decreases cells.len() - j,
{
    if j < cells.len() && cells[j].style == cells[i].style {
        lemma_style_run_end_bounds(cells, i, j + 1);
    }
}

/// The glyphs of `cells`.
pub open spec fn glyphs(cells: Seq<BorderCell>) -> Seq<char> {
    cells.map_values(|c: BorderCell| c.glyph)
}

/// The row's text from cell `i` on: each run of cells in one style drawn
/// as one span in that style.
pub open spec fn styled_from(cells: Seq<BorderCell>, i: int, theme: Option<RenderTheme>) -> Seq<char>
    decreases cells.len() - i,
{
    if i < 0 || i >= cells.len() {
        Seq::empty()
    } else {
        let j = style_run_end(cells, i, i + 1);
        proof {
            lemma_style_run_end_bounds(cells, i, i + 1);
        }
        span_text(glyphs(cells.subrange(i, j)), cells[i].style, theme) + styled_from(cells, j, theme)
    }
}

/// A placed glyph's hit once the row is drawn at `row`.
pub open spec fn finished_hit(hit: BorderPendingHit, row: nat) -> HitRegion {
    HitRegion {
        row_start: row as usize,
        row_end: row as usize,
        col_start: hit.col_start,
        col_end: hit.col_end,
        tab_id: hit.payload.tab_id,
        tab_position: hit.payload.tab_position,
        group_path: hit.payload.group_path,
        action: hit.action,
    }
}

proof fn lemma_first_free_bounds(cells: Seq<BorderCell>, i: int, end: int)
    requires
        i <= end,
    ensures
        i <= first_free(cells, i, end) <= end,
        forall|k: int| i <= k < first_free(cells, i, end) ==> cells[k].owner is Some,
    decreases end - i,
{
    if i < end && cells[i].owner is Some {
        lemma_first_free_bounds(cells, i + 1, end);
    }
}

proof fn lemma_first_claimed_bounds(cells: Seq<BorderCell>, i: int, end: int)
    requires
        i <= end,
    ensures
        i <= first_claimed(cells, i, end) <= end,
        forall|k: int| i <= k < first_claimed(cells, i, end) ==> cells[k].owner is None,
    decreases end - i,
{
    if i < end && cells[i].owner is None {
        lemma_first_claimed_bounds(cells, i + 1, end);
    }
}

/// Writing a title only touches cells in `[col, end)`, and keeps the length.
proof fn lemma_title_cells_frame(cells: Seq<BorderCell>, label: Seq<char>, col: int, end: int, style: CellStyle)
    requires
        0 <= col,
        end <= cells.len(),
    ensures
        title_cells(cells, label, col, end, style).len() == cells.len(),
        forall|k: int| 0 <= k < cells.len() && !(col <= k < end) ==> title_cells(cells, label, col, end, style)[k] == cells[k],
    decreases label.len(),
{
    if label.len() > 0 && col < end {
        let next = cells.update(col, title_cell(label[0], style));
        assert(next.len() == cells.len());
        lemma_title_cells_frame(next, label.drop_first(), col + title_advance(label[0]), end, style);
        let result = title_cells(cells, label, col, end, style);
        assert(result == title_cells(next, label.drop_first(), col + title_advance(label[0]), end, style));
        assert forall|k: int| 0 <= k < cells.len() && !(col <= k < end) implies result[k] == cells[k] by {
            assert(!(col + title_advance(label[0]) <= k < end));
            assert(next[k] == cells[k]);
        }
    }
}

/// A title never paints over a cell that a widget has claimed, and the row
/// keeps its width.
pub proof fn lemma_title_keeps_claimed_cells(cells: Seq<BorderCell>, kind: BorderKind, title: Seq<char>, dimmed: bool)
    ensures
        titled_cells(cells, kind, cells.len(), title, dimmed).len() == cells.len(),
        forall|k: int|
            0 <= k < cells.len() && (#[trigger] cells[k]).owner is Some ==> titled_cells(cells, kind, cells.len(), title, dimmed)[k]
                == cells[k],
{
    let width = cells.len();
    let start = inner_start(kind, width) as int;
    let end = inner_end(kind, width) as int;
    if start < end {
        lemma_first_free_bounds(cells, start, end);
        let run_start = first_free(cells, start, end);
        lemma_first_claimed_bounds(cells, run_start, end);
        let run_end = first_claimed(cells, run_start, end);
        if run_end - run_start != 0 {
            let label = dotted(seq![' '] + title + seq![' '], run_end - run_start);
            lemma_title_cells_frame(cells, label, run_start, run_end, title_style_of(kind, dimmed));
        }
    }
}

impl BorderRow {
    /// The row holds one cell per column.
    pub open spec fn wf(&self) -> bool {
        self@.cells.len() == self@.width
    }

    /// A fresh row of `width` cells of the given kind, with its corners.
    pub fn new(width: usize, kind: BorderKind) -> (row: Self)
        ensures
            row@.cells == fresh_cells(width as nat, kind),
            row@.width == width,
            row@.kind == kind,
            row@.hits.len() == 0,
            row.wf(),
    {
        let fill = match kind {
            BorderKind::Top { active, .. } => BorderCell { glyph: '─', style: CellStyle::Border { active }, owner: None },
            BorderKind::Bottom { active } => BorderCell { glyph: '─', style: CellStyle::Border { active }, owner: None },
            BorderKind::Footer => BorderCell { glyph: ' ', style: CellStyle::Body, owner: None },
        };
        let left = corner_left(kind);
        let right = corner_right(kind);
        let mut cells: Vec<BorderCell> = Vec::new();
        let mut i: usize = 0;
        while i < width
            invariant
                i <= width,
                fill == fill_cell(kind),
                left == left_corner(kind),
                right == right_corner(kind),
                cells@ == fresh_cells(width as nat, kind).take(i as int),
            decreases width - i,
        {
            let cell = if i == 0 && left.is_some() {
                let (glyph, style) = left.unwrap();
                BorderCell { glyph, style, owner: Some("corner_left") }
            } else if width >= 2 && i == width - 1 && right.is_some() {
                let (glyph, style) = right.unwrap();
                BorderCell { glyph, style, owner: Some("corner_right") }
            } else {
                fill
            };
            proof {
                assert(fresh_cells(width as nat, kind).take(i + 1) =~= fresh_cells(width as nat, kind).take(i as int).push(cell));
            }
            cells.push(cell);
            i = i + 1;
        }
        proof {
            assert(fresh_cells(width as nat, kind).take(width as int) =~= fresh_cells(width as nat, kind));
        }
        BorderRow { cells, width, kind, hits: Vec::new() }
    }

    /// The cells between the corners, as a start and an end column.
    pub fn inner_range(&self) -> (r: (usize, usize))
        ensures
            r.0 == inner_start(self@.kind, self@.width),
            r.1 == inner_end(self@.kind, self@.width),
    {
        let bordered = match self.kind {
            BorderKind::Footer => false,
            _ => true,
        };
        let start: usize = if bordered && self.width >= 1 { 1 } else { 0 };
        let end: usize = if bordered && self.width >= 2 { self.width - 1 } else { self.width };
        (if start < end { start } else { end }, end)
    }

    /// The style of a glyph placed on the row.
    pub fn decoration_style(&self) -> (s: CellStyle)
        ensures
            s == decoration_of(self@.kind),
    {
        match self.kind {
            BorderKind::Top { active, .. } => CellStyle::Border { active },
            BorderKind::Bottom { active } => CellStyle::Border { active },
            BorderKind::Footer => CellStyle::Body,
        }
    }

    /// Whether the inner cell `offset` from the left is free.
    pub fn left_cell_is_available(&self, offset: usize) -> (r: bool)
        requires
            self.wf(),
        ensures
            r == (offset < inner_end(self@.kind, self@.width) - inner_start(self@.kind, self@.width)
                && self@.cells[inner_start(self@.kind, self@.width) + offset].owner is None),
    {
        let (start, end) = self.inner_range();
        offset < end - start && self.cells[start + offset].owner.is_none()
    }

    /// Whether the inner cell `offset` from the right is free.
    pub fn right_cell_is_available(&self, offset: usize) -> (r: bool)
        requires
            self.wf(),
        ensures
            r == (offset < inner_end(self@.kind, self@.width) - inner_start(self@.kind, self@.width)
                && self@.cells[inner_end(self@.kind, self@.width) - 1 - offset].owner is None),
    {
        let (start, end) = self.inner_range();
        if offset >= end - start {
            return false;
        }
        self.cells[end - 1 - offset].owner.is_none()
    }

    /// Claims the free inner cell `col` for `owner` with `glyph` in the
    /// row's decoration style, recording a hit when one is given. A cell
    /// outside the corners, or one that is claimed already, is never painted.
    pub fn place_at(&mut self, col: usize, glyph: char, hit: Option<(HitAction, BorderHitPayload)>, owner: &'static str)
        requires
            old(self).wf(),
            inner_start(old(self)@.kind, old(self)@.width) <= col < inner_end(old(self)@.kind, old(self)@.width),
            old(self)@.cells[col as int].owner is None,
        ensures
            final(self).wf(),
            final(self)@.width == old(self)@.width,
            final(self)@.kind == old(self)@.kind,
            final(self)@.cells == old(self)@.cells.update(
                col as int,
                BorderCell { glyph, style: decoration_of(old(self)@.kind), owner: Some(owner) },
            ),
            final(self)@.hits == match hit {
                Some((action, payload)) => old(self)@.hits.push(
                    BorderPendingHit { col_start: col, col_end: col, action, payload },
                ),
                None => old(self)@.hits,
            },
    {
        let (start, end) = self.inner_range();
        if col < start || col >= end || self.cells[col].owner.is_some() {
            return;
        }
        let style = self.decoration_style();
        self.cells.set(col, BorderCell { glyph, style, owner: Some(owner) });
        match hit {
            Some((action, payload)) => {
                self.hits.push(BorderPendingHit { col_start: col, col_end: col, action, payload });
            },
            None => {},
        }
    }

    /// Claims the inner cell `offset` from the left.
    pub fn place_left(&mut self, offset: usize, glyph: char, hit: Option<(HitAction, BorderHitPayload)>, owner: &'static str)
        requires
            old(self).wf(),
            offset < inner_end(old(self)@.kind, old(self)@.width) - inner_start(old(self)@.kind, old(self)@.width),
            old(self)@.cells[inner_start(old(self)@.kind, old(self)@.width) + offset].owner is None,
        ensures
            final(self).wf(),
            final(self)@.width == old(self)@.width,
            final(self)@.kind == old(self)@.kind,
            final(self)@.cells == old(self)@.cells.update(
                inner_start(old(self)@.kind, old(self)@.width) + offset,
                BorderCell { glyph, style: decoration_of(old(self)@.kind), owner: Some(owner) },
            ),
            final(self)@.hits == match hit {
                Some((action, payload)) => old(self)@.hits.push(
                    BorderPendingHit {
                        col_start: (inner_start(old(self)@.kind, old(self)@.width) + offset) as usize,
                        col_end: (inner_start(old(self)@.kind, old(self)@.width) + offset) as usize,
                        action,
                        payload,
                    },
                ),
                None => old(self)@.hits,
            },
    {
        let (start, _end) = self.inner_range();
        self.place_at(start + offset, glyph, hit, owner);
    }

    /// Claims the inner cell `offset` from the right; nothing when the
    /// offset lies past the inner cells.
    pub fn place_right(&mut self, offset: usize, glyph: char, hit: Option<(HitAction, BorderHitPayload)>, owner: &'static str)
        requires
            old(self).wf(),
            offset < inner_end(old(self)@.kind, old(self)@.width) - inner_start(old(self)@.kind, old(self)@.width)
                ==> old(self)@.cells[inner_end(old(self)@.kind, old(self)@.width) - 1 - offset].owner is None,
        ensures
            final(self).wf(),
            final(self)@.width == old(self)@.width,
            final(self)@.kind == old(self)@.kind,
            offset >= inner_end(old(self)@.kind, old(self)@.width) - inner_start(old(self)@.kind, old(self)@.width)
                ==> final(self)@.cells == old(self)@.cells && final(self)@.hits == old(self)@.hits,
            offset < inner_end(old(self)@.kind, old(self)@.width) - inner_start(old(self)@.kind, old(self)@.width) ==> {
                let col = inner_end(old(self)@.kind, old(self)@.width) - 1 - offset;
                &&& final(self)@.cells == old(self)@.cells.update(
                    col,
                    BorderCell { glyph, style: decoration_of(old(self)@.kind), owner: Some(owner) },
                )
                &&& final(self)@.hits == match hit {
                    Some((action, payload)) => old(self)@.hits.push(
                        BorderPendingHit { col_start: col as usize, col_end: col as usize, action, payload },
                    ),
                    None => old(self)@.hits,
                }
            },
    {
        let (start, end) = self.inner_range();
        if offset >= end - start {
            return;
        }
        self.place_at(end - 1 - offset, glyph, hit, owner);
    }

    /// Writes ` title ` into the leftmost run of unclaimed inner cells, cut
    /// with dots to fit; claimed cells are left as they are.
    pub fn title(&mut self, title: &str)
        requires
            old(self).wf(),
            old(self)@.width + 3 <= usize::MAX,
        ensures
            final(self).wf(),
            final(self)@.width == old(self)@.width,
            final(self)@.kind == old(self)@.kind,
            final(self)@.hits == old(self)@.hits,
            final(self)@.cells == titled_cells(old(self)@.cells, old(self)@.kind, old(self)@.width, title@, false),
    {
        self.title_with_dim(title, false)
    }

    /// As `title`, with the title dimmed when `dimmed` holds.
    pub fn title_with_dim(&mut self, title: &str, dimmed: bool)
        requires
            old(self).wf(),
            old(self)@.width + 3 <= usize::MAX,
        ensures
            final(self).wf(),
            final(self)@.width == old(self)@.width,
            final(self)@.kind == old(self)@.kind,
            final(self)@.hits == old(self)@.hits,
            final(self)@.cells == titled_cells(old(self)@.cells, old(self)@.kind, old(self)@.width, title@, dimmed),
    {
        let ghost cells0 = self.cells@;
        let (start, end) = self.inner_range();
        if start >= end {
            return;
        }
        let mut run_start = start;
        while run_start < end && self.cells[run_start].owner.is_some()
            invariant
                self.cells@ == cells0,
                self.cells@.len() == self.width,
                start <= run_start <= end <= self.width,
                first_free(cells0, start as int, end as int) == first_free(cells0, run_start as int, end as int),
            decreases end - run_start,
        {
            run_start = run_start + 1;
        }
        let mut run_end = run_start;
        while run_end < end && self.cells[run_end].owner.is_none()
            invariant
                self.cells@ == cells0,
                self.cells@.len() == self.width,
                run_start <= run_end <= end <= self.width,
                first_claimed(cells0, run_start as int, end as int) == first_claimed(cells0, run_end as int, end as int),
            decreases end - run_end,
        {
            run_end = run_end + 1;
        }
        let run_width = run_end - run_start;
        if run_width == 0 {
            return;
        }
        let mut padded = String::new();
        push_char(&mut padded, ' ');
        crate::text::push_text(&mut padded, title);
        push_char(&mut padded, ' ');
        proof {
            assert(padded@ =~= seq![' '] + title@ + seq![' ']);
        }
        let label = truncate_to_width(padded.as_str(), run_width);
        let style = match self.kind {
            BorderKind::Top { active, .. } => CellStyle::Title { active, dimmed },
            BorderKind::Bottom { active } => CellStyle::Title { active, dimmed },
            BorderKind::Footer => CellStyle::Body,
        };
        let chars = crate::text::chars_of(label.as_str());
        let ghost full = chars@;
        proof {
            assert(first_free(cells0, run_start as int, end as int) == run_start);
            assert(first_claimed(cells0, run_start as int, end as int) == run_end);
            assert(full.skip(0) =~= full);
            assert(titled_cells(cells0, self.kind, self.width as nat, title@, dimmed) == title_cells(
                cells0,
                full,
                run_start as int,
                run_end as int,
                style,
            ));
        }
        let mut col = run_start;
        let mut k: usize = 0;
        while k < chars.len()
            invariant
                full == chars@,
                k <= chars@.len(),
                run_start <= run_end <= self.width,
                self.cells@.len() == self.width,
                titled_cells(cells0, self.kind, self.width as nat, title@, dimmed) == title_cells(
                    self.cells@,
                    full.skip(k as int),
                    col as int,
                    run_end as int,
                    style,
                ),
                style == title_style_of(self.kind, dimmed),
                cells0 == old(self).cells@,
                self.width == old(self).width,
                self.kind == old(self).kind,
                self.hits@ == old(self).hits@,
                self.width + 3 <= usize::MAX,
            decreases chars.len() - k,
        {
            if col >= run_end {
                proof {
                    assert(title_cells(self.cells@, full.skip(k as int), col as int, run_end as int, style) == self.cells@);
                }
                return;
            }
            let c = chars[k];
            let advance: usize = match char_display_width(c) {
                Some(w) => if w > 1 { w } else { 1 },
                None => 1,
            };
            assert(advance == title_advance(c) && advance <= 3);
            proof {
                assert(full.skip(k as int).drop_first() =~= full.skip(k + 1));
                assert(full.skip(k as int)[0] == c);
            }
            let cell = make_title_cell(c, style);
            self.cells.set(col, cell);
            col = col + advance;
            k = k + 1;
        }
        proof {
            assert(full.skip(k as int).len() == 0);
        }
    }

    /// Draws the row, each run of cells in one style as one span, and
    /// places its hits on row `row`.
    pub fn finish(self, row: usize, theme: Option<RenderTheme>) -> (r: (String, Vec<HitRegion>))
        ensures
            r.0@ == styled_from(self@.cells, 0, theme),
            r.1@ == self@.hits.map_values(|h: BorderPendingHit| finished_hit(h, row as nat)),
    {
        let ghost cells = self.cells@;
        let mut out = String::new();
        let mut i: usize = 0;
        while i < self.cells.len()
            invariant
                cells == self.cells@,
                i <= cells.len(),
                styled_from(cells, 0, theme) == out@ + styled_from(cells, i as int, theme),
            decreases self.cells.len() - i,
        {
            let style = self.cells[i].style;
            let mut span = String::new();
            push_char(&mut span, self.cells[i].glyph);
            let mut j: usize = i + 1;
            while j < self.cells.len() && self.cells[j].style == style
                invariant
                    cells == self.cells@,
                    i < j <= cells.len(),
                    style == cells[i as int].style,
                    span@ == glyphs(cells.subrange(i as int, j as int)),
                    style_run_end(cells, i as int, i + 1) == style_run_end(cells, i as int, j as int),
                decreases self.cells.len() - j,
            {
                proof {
                    assert(glyphs(cells.subrange(i as int, j + 1)) =~= glyphs(cells.subrange(i as int, j as int)).push(cells[j as int].glyph));
                }
                push_char(&mut span, self.cells[j].glyph);
                j = j + 1;
            }
            proof {
                assert(glyphs(cells.subrange(i as int, i + 1)) =~= seq![cells[i as int].glyph]) by {
                    assert(glyphs(cells.subrange(i as int, i + 1)).len() == 1);
                };
                assert(style_run_end(cells, i as int, j as int) == j);
            }
            let styled = style_span(span, style, theme);
            proof {
                assert(out@ + styled@ + styled_from(cells, j as int, theme) =~= out@ + (styled@ + styled_from(cells, j as int, theme)));
            }
            crate::text::push_text(&mut out, styled.as_str());
            i = j;
        }
        proof {
            assert(out@ + styled_from(cells, i as int, theme) =~= out@);
        }
        let ghost pending = self.hits@;
        let mut hits_left = self.hits;
        let mut hits: Vec<HitRegion> = Vec::new();
        while hits_left.len() > 0
            invariant
                hits@ + hits_left@.map_values(|h: BorderPendingHit| finished_hit(h, row as nat)) == pending.map_values(
                    |h: BorderPendingHit| finished_hit(h, row as nat),
                ),
            decreases hits_left.len(),
        {
            let ghost before = hits_left@;
            let hit = hits_left.remove(0);
            let done = HitRegion {
                row_start: row,
                row_end: row,
                col_start: hit.col_start,
                col_end: hit.col_end,
                tab_id: hit.payload.tab_id,
                tab_position: hit.payload.tab_position,
                group_path: hit.payload.group_path,
                action: hit.action,
            };
            proof {
                assert(before.map_values(|h: BorderPendingHit| finished_hit(h, row as nat)) =~= seq![done]
                    + hits_left@.map_values(|h: BorderPendingHit| finished_hit(h, row as nat)));
                assert(hits@.push(done) + hits_left@.map_values(|h: BorderPendingHit| finished_hit(h, row as nat)) =~= hits@
                    + before.map_values(|h: BorderPendingHit| finished_hit(h, row as nat)));
            }
            hits.push(done);
        }
        proof {
            assert(hits@ + hits_left@.map_values(|h: BorderPendingHit| finished_hit(h, row as nat)) =~= hits@);
        }
        (out, hits)
    }

    /// The drawn row alone.
    pub fn into_line(self, theme: Option<RenderTheme>) -> (s: String)
        ensures
            s@ == styled_from(self@.cells, 0, theme),
    {
        self.finish(0, theme).0
    }
}

/// The bottom line of a card: its bottom border when the card is boxed,
/// blank otherwise.
pub fn bottom_border_line(width: usize, active: bool, theme: Option<RenderTheme>, boxed: bool) -> (s: String)
    ensures
        boxed ==> s@ == styled_from(fresh_cells(width as nat, BorderKind::Bottom { active }), 0, theme),
        !boxed ==> s@ == crate::text::spaces(width as nat),
{
    if boxed {
        BorderRow::new(width, BorderKind::Bottom { active }).into_line(theme)
    } else {
        crate::text::blank(width)
    }
}

/// What a tab's top border shows of its card.
#[derive(Debug, Clone, Copy, PartialEq, Eq, Structural)]
pub struct BorderedTab {
    pub tab_id: u64,
    pub position: usize,
    pub active: bool,
    pub latent: bool,
}

/// The glyph that inspects a node: filled while the node is inspected.
pub open spec fn inspect_glyph(inspected: bool) -> char {
    if inspected { '●' } else { '○' }
}

/// The hit of a tab's inspect glyph at column `col` of row `row`.
pub open spec fn inspect_hit(card: BorderedTab, row: int, col: int) -> HitRegion {
    HitRegion {
        row_start: row as usize,
        row_end: row as usize,
        col_start: col as usize,
        col_end: col as usize,
        tab_id: card.tab_id,
        tab_position: card.position,
        group_path: None,
        action: HitAction::InspectNode,
    }
}

/// The top line of an unboxed tab card: its title cut and padded to the
/// width, and the inspect glyph in the last column unless the tab is latent.
pub open spec fn plain_top_line(title: Seq<char>, width: int, card: BorderedTab, theme: Option<RenderTheme>, inspected: bool, dimmed: bool) -> Seq<char> {
    let show = width > 0 && !card.latent;
    let title_width = if show { width - 1 } else { width };
    let fitted = crate::text::padded(dotted(title, title_width), title_width);
    let text = if dimmed { ansi_painted(TextStyle { dimmed: true, ..plain_style() }, fitted) } else { body_text_spec(fitted, theme) };
    if show { text + body_text_spec(seq![inspect_glyph(inspected)], theme) } else { text }
}

/// The cells of a boxed tab's top border: the inspect glyph just inside the
/// right corner when there is room and the tab is not latent, then the title.
pub open spec fn top_border_cells(title: Seq<char>, width: nat, first_cell: bool, card: BorderedTab, inspected: bool, dimmed: bool) -> Seq<BorderCell> {
    let kind = BorderKind::Top { active: card.active, first_cell };
    let fresh = fresh_cells(width, kind);
    let placed = if width >= 4 && !card.latent {
        fresh.update(width - 2, BorderCell { glyph: inspect_glyph(inspected), style: decoration_of(kind), owner: Some("tab_inspect") })
    } else {
        fresh
    };
    titled_cells(placed, kind, width, title, dimmed)
}

/// Writes the top line of a tab card on `row`: a bordered title with an
/// inspect glyph when the card is boxed, else the plain title and glyph.
/// `inspected` says whether this tab is the node being inspected, `dimmed`
/// and `boxed` what the card's chrome asks for.
pub fn write_tab_top_border(
    lines: &mut Vec<String>,
    hit_regions: &mut Vec<HitRegion>,
    row: usize,
    title: &str,
    width: usize,
    first_cell: bool,
    card: &BorderedTab,
    theme: Option<RenderTheme>,
    inspected: bool,
    dimmed: bool,
    boxed: bool,
)
    requires
        width + 3 <= usize::MAX,
    ensures
        !boxed && row >= old(lines)@.len() ==> final(lines)@ == old(lines)@ && final(hit_regions)@ == old(hit_regions)@,
        !boxed && row < old(lines)@.len() ==> {
            &&& final(lines)@ == old(lines)@.update(row as int, final(lines)@[row as int])
            &&& final(lines)@[row as int]@ == plain_top_line(title@, width as int, *card, theme, inspected, dimmed)
            &&& final(hit_regions)@ == if width > 0 && !card.latent {
                old(hit_regions)@.push(inspect_hit(*card, row as int, width - 1))
            } else {
                old(hit_regions)@
            }
        },
        boxed ==> {
            &&& row < old(lines)@.len() ==> final(lines)@ == old(lines)@.update(row as int, final(lines)@[row as int])
                && final(lines)@[row as int]@ == styled_from(
                    top_border_cells(title@, width as nat, first_cell, *card, inspected, dimmed),
                    0,
                    theme,
                )
            &&& row >= old(lines)@.len() ==> final(lines)@ == old(lines)@
            &&& final(hit_regions)@ == if width >= 4 && !card.latent {
                old(hit_regions)@.push(inspect_hit(*card, row as int, width - 2))
            } else {
                old(hit_regions)@
            }
        },
{
    let glyph = if inspected { '●' } else { '○' };
    if !boxed {
        if row < lines.len() {
            let show_inspect = width > 0 && !card.latent;
            let title_width = if show_inspect { width - 1 } else { width };
            let cut = truncate_to_width(title, title_width);
            let fitted = crate::text::pad_to_width(cut.as_str(), title_width);
            let mut line = if dimmed {
                paint(latent_tab_style(TextStyle { foreground: None, background: None, bold: false, dimmed: false }), fitted.as_str())
            } else {
                style_body_text(fitted, theme)
            };
            if show_inspect {
                let mut glyph_text = String::new();
                push_char(&mut glyph_text, glyph);
                let styled = style_body_text(glyph_text, theme);
                crate::text::push_text(&mut line, styled.as_str());
                proof {
                    assert(glyph_text@ =~= seq![inspect_glyph(inspected)]);
                }
                hit_regions.push(HitRegion {
                    row_start: row,
                    row_end: row,
                    col_start: width - 1,
                    col_end: width - 1,
                    tab_id: card.tab_id,
                    tab_position: card.position,
                    group_path: None,
                    action: HitAction::InspectNode,
                });
            }
            lines.set(row, line);
        }
        return;
    }
    let mut border = BorderRow::new(width, BorderKind::Top { active: card.active, first_cell });
    if width >= 4 && !card.latent {
        let payload = BorderHitPayload { tab_id: card.tab_id, tab_position: card.position, group_path: None };
        border.place_right(0, glyph, Some((HitAction::InspectNode, payload)), "tab_inspect");
    }
    border.title_with_dim(title, dimmed);
    let (line, hits) = border.finish(row, theme);
    if row < lines.len() {
        lines.set(row, line);
    }
    let ghost before = hit_regions@;
    let mut pending = hits;
    let ghost all = pending@;
    let _count = pending.len();
    let mut moved: usize = 0;
    while pending.len() > 0
        invariant
            moved + pending@.len() == all.len(),
            all.len() <= usize::MAX,
            pending@ == all.skip(moved as int),
            hit_regions@ == before + all.take(moved as int),
        decreases pending.len(),
    {
        let hit = pending.remove(0);
        proof {
            assert(all.take(moved + 1) =~= all.take(moved as int).push(hit));
            assert(pending@ =~= all.skip(moved + 1));
        }
        hit_regions.push(hit);
        moved = moved + 1;
    }
    proof {
        assert(all.take(moved as int) =~= all);
    }
}

} // verus!
