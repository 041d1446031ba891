//! The rail's footer row: controls placed from the left and from the right
//! edge, each in a cell of its own, as a template lists them.

use vstd::prelude::*;
use crate::border::{
    decoration_of, fresh_cells, glyphs, inner_end, inner_start, finished_hit, lemma_style_run_end_bounds,
    style_run_end, styled_from, BorderCell,
    BorderHitPayload, BorderPendingHit, BorderRow, BorderRowView,
};
use crate::render::{BorderKind, CellStyle, HitAction, HitRegion, RenderTheme};
use crate::text::chars_of;

verus! {

/// What a footer control does.
#[derive(Debug, Clone, Copy, PartialEq, Eq, Structural)]
pub enum TemplateControlKind {
    OpenConfig,
    DisplayVariable,
    ScrollDown,
    ScrollUp,
    InspectRoot,
}

/// A control as a template lists it: its kind, the display variable it
/// toggles, and a glyph to show in place of the default one.
#[derive(Debug, Clone)]
pub struct TemplateControlSpec {
    pub kind: TemplateControlKind,
    pub variable: Option<String>,
    pub glyph: Option<String>,
}

/// A display variable a control can toggle: its name and its icon.
#[derive(Debug, Clone)]
pub struct TemplateVariable {
    pub name: String,
    pub icon: String,
}

/// The first character of a text, if there is a text and it is not empty.
pub open spec fn first_char(text: Option<String>) -> Option<char> {
    match text {
        Some(t) => if t@.len() > 0 { Some(t@[0]) } else { None },
        None => None,
    }
}

/// The index of the first variable named `name` among `variables` from `i` on; `-1` when none is.
pub open spec fn variable_named(variables: Seq<TemplateVariable>, name: Seq<char>, i: int) -> int
    decreases variables.len() - i,
{
    if i < 0 || i >= variables.len() {
        -1
    } else if variables[i].name@ == name {
        i
    } else {
        variable_named(variables, name, i + 1)
    }
}

/// The declared glyph, else the default one.
pub open spec fn glyph_or(declared: Option<char>, default: char) -> char {
    match declared {
        Some(g) => g,
        None => default,
    }
}

/// Whether `name` is among the variables switched off.
pub open spec fn switched_off(off: Seq<String>, name: Seq<char>) -> bool {
    exists|k: int| 0 <= k < off.len() && #[trigger] off[k]@ == name
}

/// Where the footer stands after some controls: the row and the next free
/// offsets from the left and from the right.
pub struct FooterState {
    pub row: BorderRowView,
    pub left: nat,
    pub right: nat,
}

pub open spec fn left_free(row: BorderRowView, offset: int) -> bool {
    &&& offset < inner_end(row.kind, row.width) - inner_start(row.kind, row.width)
    &&& row.cells[inner_start(row.kind, row.width) + offset].owner is None
}

pub open spec fn right_free(row: BorderRowView, offset: int) -> bool {
    &&& offset < inner_end(row.kind, row.width) - inner_start(row.kind, row.width)
    &&& row.cells[inner_end(row.kind, row.width) - 1 - offset].owner is None
}

/// The row with `glyph` claimed for `owner` in column `col`, and a hit there.
pub open spec fn with_glyph(row: BorderRowView, col: int, glyph: char, action: HitAction, owner: &'static str) -> BorderRowView {
    BorderRowView {
        cells: row.cells.update(col, BorderCell { glyph, style: decoration_of(row.kind), owner: Some(owner) }),
        hits: row.hits.push(
            BorderPendingHit {
                col_start: col as usize,
                col_end: col as usize,
                action,
                payload: BorderHitPayload { tab_id: 0, tab_position: 0, group_path: None },
            },
        ),
        ..row
    }
}

pub open spec fn place_from_left(st: FooterState, glyph: char, action: HitAction, owner: &'static str) -> FooterState {
    if left_free(st.row, st.left as int) {
        FooterState {
            row: with_glyph(st.row, (inner_start(st.row.kind, st.row.width) + st.left) as int, glyph, action, owner),
            left: st.left + 1,
            right: st.right,
        }
    } else {
        st
    }
}

pub open spec fn place_from_right(st: FooterState, glyph: char, action: HitAction, owner: &'static str) -> FooterState {
    if right_free(st.row, st.right as int) {
        FooterState {
            row: with_glyph(st.row, inner_end(st.row.kind, st.row.width) - 1 - st.right, glyph, action, owner),
            left: st.left,
            right: st.right + 1,
        }
    } else {
        st
    }
}

/// One control placed: configuration and display variables from the left,
/// scrolling and the root inspector from the right, each only while a cell
/// is free; a display variable only when the template declares it and it
/// has a glyph, shown as `·` while switched off; scroll controls only when
/// the rail can scroll.
pub open spec fn footer_step(
    st: FooterState,
    control: TemplateControlSpec,
    variables: Seq<TemplateVariable>,
    off: Seq<String>,
    rail_can_scroll: bool,
    root_inspected: bool,
) -> FooterState {
    let declared = first_char(control.glyph);
    match control.kind {
        TemplateControlKind::OpenConfig => place_from_left(
            st,
            glyph_or(declared, '⚙'),
            HitAction::OpenConfig,
            "control_open_config",
        ),
        TemplateControlKind::DisplayVariable => match control.variable {
            None => st,
            Some(name) => {
                let index = variable_named(variables, name@, 0);
                if index < 0 {
                    st
                } else {
                    let variable = variables[index];
                    let icon = match declared {
                        Some(g) => Some(g),
                        None => first_char(Some(variable.icon)),
                    };
                    match icon {
                        None => st,
                        Some(icon) => place_from_left(
                            st,
                            if switched_off(off, variable.name@) { '·' } else { glyph_or(Some(icon), icon) },
                            HitAction::ToggleVariable(index as usize),
                            "control_display_variable",
                        ),
                    }
                }
            },
        },
        TemplateControlKind::ScrollDown => if rail_can_scroll {
            place_from_right(st, glyph_or(declared, '▼'), HitAction::ScrollRailDown, "control_scroll_down")
        } else {
            st
        },
        TemplateControlKind::ScrollUp => if rail_can_scroll {
            place_from_right(st, glyph_or(declared, '▲'), HitAction::ScrollRailUp, "control_scroll_up")
        } else {
            st
        },
        TemplateControlKind::InspectRoot => place_from_right(
            st,
            glyph_or(declared, if root_inspected { '●' } else { '○' }),
            HitAction::InspectNode,
            "control_inspect_root",
        ),
    }
}

/// The footer after all of `controls`, on a fresh footer row of `width` cells.
pub open spec fn footer_after(
    controls: Seq<TemplateControlSpec>,
    width: nat,
    variables: Seq<TemplateVariable>,
    off: Seq<String>,
    rail_can_scroll: bool,
    root_inspected: bool,
) -> FooterState
    decreases controls.len(),
{
    if controls.len() == 0 {
        FooterState {
            row: BorderRowView { cells: fresh_cells(width, BorderKind::Footer), width, kind: BorderKind::Footer, hits: Seq::empty() },
            left: 0,
            right: 0,
        }
    } else {
        footer_step(
            footer_after(controls.drop_last(), width, variables, off, rail_can_scroll, root_inspected),
            controls.last(),
            variables,
            off,
            rail_can_scroll,
            root_inspected,
        )
    }
}

fn first_char_of(text: &Option<String>) -> (r: Option<char>)
    ensures
        r == first_char(*text),
{
    match text {
        Some(t) => {
            let chars = chars_of(t.as_str());
            if chars.len() > 0 { Some(chars[0]) } else { None }
        },
        None => None,
    }
}

fn find_variable(variables: &[TemplateVariable], name: &String) -> (r: Option<usize>)
    ensures
        match r {
            Some(i) => i as int == variable_named(variables@, name@, 0) && i < variables@.len(),
            None => variable_named(variables@, name@, 0) < 0,
        },
{
    let mut i: usize = 0;
    while i < variables.len()
        invariant
            i <= variables@.len(),
            variable_named(variables@, name@, 0) == variable_named(variables@, name@, i as int),
        decreases variables.len() - i,
    {
        if variables[i].name == *name {
            return Some(i);
        }
        i = i + 1;
    }
    None
}

fn is_switched_off(off: &[String], name: &String) -> (r: bool)
    ensures
        r == switched_off(off@, name@),
{
    let mut k: usize = 0;
    while k < off.len()
        invariant
            k <= off@.len(),
            forall|j: int| 0 <= j < k ==> off@[j]@ != name@,
        decreases off.len() - k,
    {
        if off[k] == *name {
            return true;
        }
        k = k + 1;
    }
    false
}

proof fn lemma_footer_offsets_bounded(
    controls: Seq<TemplateControlSpec>,
    width: nat,
    variables: Seq<TemplateVariable>,
    off: Seq<String>,
    rail_can_scroll: bool,
    root_inspected: bool,
)
    ensures
        ({
            let st = footer_after(controls, width, variables, off, rail_can_scroll, root_inspected);
            &&& st.left <= width
            &&& st.right <= width
            &&& st.row.width == width
            &&& st.row.kind == BorderKind::Footer
            &&& st.row.cells.len() == width
        }),
    decreases controls.len(),
{
    if controls.len() > 0 {
        lemma_footer_offsets_bounded(controls.drop_last(), width, variables, off, rail_can_scroll, root_inspected);
        let st = footer_after(controls.drop_last(), width, variables, off, rail_can_scroll, root_inspected);
        let start = inner_start(st.row.kind, st.row.width);
        let end = inner_end(st.row.kind, st.row.width);
        assert(start <= end <= width);
    }
}

/// The cells of a footer are all body cells.
proof fn lemma_footer_cells_are_body(
    controls: Seq<TemplateControlSpec>,
    width: nat,
    variables: Seq<TemplateVariable>,
    off: Seq<String>,
    rail_can_scroll: bool,
    root_inspected: bool,
)
    ensures
        ({
            let cells = footer_after(controls, width, variables, off, rail_can_scroll, root_inspected).row.cells;
            forall|k: int| 0 <= k < cells.len() ==> (#[trigger] cells[k]).style == CellStyle::Body
        }),
    decreases controls.len(),
{
    lemma_footer_offsets_bounded(controls, width, variables, off, rail_can_scroll, root_inspected);
    if controls.len() > 0 {
        lemma_footer_cells_are_body(controls.drop_last(), width, variables, off, rail_can_scroll, root_inspected);
        lemma_footer_offsets_bounded(controls.drop_last(), width, variables, off, rail_can_scroll, root_inspected);
    }
}

/// A row of body cells drawn without a theme is exactly its glyphs.
proof fn lemma_plain_body_row(cells: Seq<BorderCell>, i: int)
    requires
        0 <= i <= cells.len(),
        forall|k: int| 0 <= k < cells.len() ==> (#[trigger] cells[k]).style == CellStyle::Body,
    ensures
        styled_from(cells, i, None) == glyphs(cells.skip(i)),
    decreases cells.len() - i,
{
    if i < cells.len() {
        let j = style_run_end(cells, i, i + 1);
        lemma_style_run_end_bounds(cells, i, i + 1);
        lemma_plain_body_row(cells, j);
        assert(glyphs(cells.skip(i)) =~= glyphs(cells.subrange(i, j)) + glyphs(cells.skip(j)));
    } else {
        assert(glyphs(cells.skip(i)) =~= Seq::<char>::empty());
    }
}

/// What one placement does to a footer: at most one new hit, on a cell that
/// was free and is claimed now; claimed cells stay as they were.
pub open spec fn placement_keeps_cells(st: FooterState, next: FooterState, width: nat) -> bool {
    &&& next.row.cells.len() == st.row.cells.len()
    &&& next.row.width == st.row.width
    &&& next.row.kind == st.row.kind
    &&& forall|j: int| 0 <= j < st.row.cells.len() && (#[trigger] st.row.cells[j]).owner is Some ==> next.row.cells[j] == st.row.cells[j]
    &&& forall|k: int| 0 <= k < st.row.hits.len() ==> next.row.hits[k] == #[trigger] st.row.hits[k]
    &&& (next.row.hits.len() == st.row.hits.len() || {
        let h = next.row.hits.last();
        &&& next.row.hits.len() == st.row.hits.len() + 1
        &&& h.col_start == h.col_end
        &&& h.col_start < width
        &&& st.row.cells[h.col_start as int].owner is None
        &&& next.row.cells[h.col_start as int].owner is Some
    })
}

proof fn lemma_place_from_left(st: FooterState, glyph: char, action: HitAction, owner: &'static str)
    requires
        st.row.cells.len() == st.row.width,
        st.row.width <= usize::MAX,
    ensures
        placement_keeps_cells(st, place_from_left(st, glyph, action, owner), st.row.width),
{
    let start = inner_start(st.row.kind, st.row.width);
    let end = inner_end(st.row.kind, st.row.width);
    assert(start <= end <= st.row.width);
    if left_free(st.row, st.left as int) {
        let col = (start + st.left) as int;
        let next = place_from_left(st, glyph, action, owner);
        assert(col < end);
        assert(next.row.cells[col] == BorderCell { glyph, style: decoration_of(st.row.kind), owner: Some(owner) });
        assert(next.row.hits.last().col_start == col);
    }
}

proof fn lemma_place_from_right(st: FooterState, glyph: char, action: HitAction, owner: &'static str)
    requires
        st.row.cells.len() == st.row.width,
        st.row.width <= usize::MAX,
    ensures
        placement_keeps_cells(st, place_from_right(st, glyph, action, owner), st.row.width),
{
    let start = inner_start(st.row.kind, st.row.width);
    let end = inner_end(st.row.kind, st.row.width);
    assert(start <= end <= st.row.width);
    if right_free(st.row, st.right as int) {
        let col = end - 1 - st.right;
        let next = place_from_right(st, glyph, action, owner);
        assert(0 <= col < end);
        assert(next.row.cells[col] == BorderCell { glyph, style: decoration_of(st.row.kind), owner: Some(owner) });
        assert(next.row.hits.last().col_start == col);
    }
}

proof fn lemma_footer_step_keeps_cells(
    st: FooterState,
    control: TemplateControlSpec,
    variables: Seq<TemplateVariable>,
    off: Seq<String>,
    rail_can_scroll: bool,
    root_inspected: bool,
)
    requires
        st.row.cells.len() == st.row.width,
        st.row.width <= usize::MAX,
    ensures
        placement_keeps_cells(st, footer_step(st, control, variables, off, rail_can_scroll, root_inspected), st.row.width),
{
    let declared = first_char(control.glyph);
    match control.kind {
        TemplateControlKind::OpenConfig => lemma_place_from_left(st, glyph_or(declared, '⚙'), HitAction::OpenConfig, "control_open_config"),
        TemplateControlKind::DisplayVariable => {
            match control.variable {
                Some(name) => {
                    let index = variable_named(variables, name@, 0);
                    if index >= 0 {
                        let variable = variables[index];
                        let icon = match declared {
                            Some(g) => Some(g),
                            None => first_char(Some(variable.icon)),
                        };
                        match icon {
                            Some(icon) => lemma_place_from_left(
                                st,
                                if switched_off(off, variable.name@) { '·' } else { glyph_or(Some(icon), icon) },
                                HitAction::ToggleVariable(index as usize),
                                "control_display_variable",
                            ),
                            None => {},
                        }
                    }
                },
                None => {},
            }
        },
        TemplateControlKind::ScrollDown => lemma_place_from_right(st, glyph_or(declared, '▼'), HitAction::ScrollRailDown, "control_scroll_down"),
        TemplateControlKind::ScrollUp => lemma_place_from_right(st, glyph_or(declared, '▲'), HitAction::ScrollRailUp, "control_scroll_up"),
        TemplateControlKind::InspectRoot => lemma_place_from_right(
            st,
            glyph_or(declared, if root_inspected { '●' } else { '○' }),
            HitAction::InspectNode,
            "control_inspect_root",
        ),
    }
}

/// The footer's controls never share a cell: each hit sits on a cell of its
/// own within the row, and without a theme the footer line is exactly one
/// glyph per column.
pub proof fn lemma_footer_controls_keep_their_own_cells(
    controls: Seq<TemplateControlSpec>,
    width: nat,
    variables: Seq<TemplateVariable>,
    off: Seq<String>,
    rail_can_scroll: bool,
    root_inspected: bool,
)
    requires
        width <= usize::MAX,
    ensures
        ({
            let row = footer_after(controls, width, variables, off, rail_can_scroll, root_inspected).row;
            &&& forall|k: int| 0 <= k < row.hits.len() ==> (#[trigger] row.hits[k]).col_start < width
                && row.hits[k].col_start == row.hits[k].col_end
                && row.cells[row.hits[k].col_start as int].owner is Some
            &&& forall|k: int, l: int| 0 <= k < l < row.hits.len() ==> (#[trigger] row.hits[k]).col_start != (#[trigger] row.hits[l]).col_start
            &&& styled_from(row.cells, 0, None) == glyphs(row.cells)
            &&& styled_from(row.cells, 0, None).len() == width
        }),
    decreases controls.len(),
{
    lemma_footer_offsets_bounded(controls, width, variables, off, rail_can_scroll, root_inspected);
    lemma_footer_cells_are_body(controls, width, variables, off, rail_can_scroll, root_inspected);
    let row = footer_after(controls, width, variables, off, rail_can_scroll, root_inspected).row;
    lemma_plain_body_row(row.cells, 0);
    assert(row.cells.skip(0) =~= row.cells);
    if controls.len() > 0 {
        let rest = controls.drop_last();
        lemma_footer_controls_keep_their_own_cells(rest, width, variables, off, rail_can_scroll, root_inspected);
        lemma_footer_offsets_bounded(rest, width, variables, off, rail_can_scroll, root_inspected);
        let before_state = footer_after(rest, width, variables, off, rail_can_scroll, root_inspected);
        let before = before_state.row;
        lemma_footer_step_keeps_cells(before_state, controls.last(), variables, off, rail_can_scroll, root_inspected);
        assert forall|k: int| 0 <= k < row.hits.len() implies (#[trigger] row.hits[k]).col_start < width
            && row.hits[k].col_start == row.hits[k].col_end
            && row.cells[row.hits[k].col_start as int].owner is Some by {
            if k < before.hits.len() {
                assert(row.hits[k] == before.hits[k]);
            }
        }
        assert forall|k: int, l: int| 0 <= k < l < row.hits.len() implies (#[trigger] row.hits[k]).col_start != (#[trigger] row.hits[l]).col_start by {
            if l < before.hits.len() {
                assert(row.hits[k] == before.hits[k]);
                assert(row.hits[l] == before.hits[l]);
            } else {
                assert(row.hits[k] == before.hits[k]);
                assert(before.cells[before.hits[k].col_start as int].owner is Some);
            }
        }
    }
}

/// Draws the footer row `row` from a template's controls, replacing that
/// line and adding the controls' hits. `root_inspected` says whether the
/// root is the node being inspected; `off` names the display variables
/// switched off.
pub fn render_control_template(
    lines: &mut Vec<String>,
    hit_regions: &mut Vec<HitRegion>,
    row: usize,
    width: usize,
    theme: Option<RenderTheme>,
    root_inspected: bool,
    rail_can_scroll: bool,
    controls: &[TemplateControlSpec],
    variables: &[TemplateVariable],
    off: &[String],
)
    requires
        width == 0 || row < old(lines)@.len(),
    ensures
        width == 0 ==> final(lines)@ == old(lines)@ && final(hit_regions)@ == old(hit_regions)@,
        width > 0 ==> {
            let st = footer_after(controls@, width as nat, variables@, off@, rail_can_scroll, root_inspected);
            &&& final(lines)@ == old(lines)@.update(row as int, final(lines)@[row as int])
            &&& final(lines)@[row as int]@ == styled_from(st.row.cells, 0, theme)
            &&& final(hit_regions)@ == old(hit_regions)@ + st.row.hits.map_values(|h: BorderPendingHit| finished_hit(h, row as nat))
        },
{
    if width == 0 {
        return;
    }
    let mut footer = BorderRow::new(width, BorderKind::Footer);
    let mut left: usize = 0;
    let mut right: usize = 0;
    proof {
        let start = footer_after(Seq::empty(), width as nat, variables@, off@, rail_can_scroll, root_inspected);
        assert(footer@.hits =~= Seq::<BorderPendingHit>::empty());
        assert(controls@.take(0) =~= Seq::<TemplateControlSpec>::empty());
    }
    let mut i: usize = 0;
    while i < controls.len()
        invariant
            i <= controls@.len(),
            footer.wf(),
            footer@ == footer_after(controls@.take(i as int), width as nat, variables@, off@, rail_can_scroll, root_inspected).row,
            left as nat == footer_after(controls@.take(i as int), width as nat, variables@, off@, rail_can_scroll, root_inspected).left,
            right as nat == footer_after(controls@.take(i as int), width as nat, variables@, off@, rail_can_scroll, root_inspected).right,
        decreases controls.len() - i,
    {
        let ghost before = footer_after(controls@.take(i as int), width as nat, variables@, off@, rail_can_scroll, root_inspected);
        proof {
            lemma_footer_offsets_bounded(controls@.take(i as int), width as nat, variables@, off@, rail_can_scroll, root_inspected);
            assert(controls@.take(i + 1).drop_last() =~= controls@.take(i as int));
            assert(controls@.take(i + 1).last() == controls@[i as int]);
        }
        let control = &controls[i];
        let declared = first_char_of(&control.glyph);
        match control.kind {
            TemplateControlKind::OpenConfig => {
                if footer.left_cell_is_available(left) {
                    let glyph = match declared { Some(g) => g, None => '⚙' };
                    footer.place_left(left, glyph, Some((HitAction::OpenConfig, BorderHitPayload::none())), "control_open_config");
                    left = left + 1;
                }
            },
            TemplateControlKind::DisplayVariable => {
                match &control.variable {
                    Some(name) => {
                        match find_variable(variables, name) {
                            Some(index) => {
                                let variable = &variables[index];
                                let icon = match declared {
                                    Some(g) => Some(g),
                                    None => first_char_of(&Some(variable.icon.clone())),
                                };
                                match icon {
                                    Some(icon) => {
                                        let icon = if is_switched_off(off, &variable.name) { '·' } else { icon };
                                        if footer.left_cell_is_available(left) {
                                            footer.place_left(
                                                left,
                                                icon,
                                                Some((HitAction::ToggleVariable(index), BorderHitPayload::none())),
                                                "control_display_variable",
                                            );
                                            left = left + 1;
                                        }
                                    },
                                    None => {},
                                }
                            },
                            None => {},
                        }
                    },
                    None => {},
                }
            },
            TemplateControlKind::ScrollDown | TemplateControlKind::ScrollUp => {
                if rail_can_scroll && footer.right_cell_is_available(right) {
                    let down = match control.kind {
                        TemplateControlKind::ScrollDown => true,
                        _ => false,
                    };
                    let (glyph, action, owner) = if down {
                        (match declared { Some(g) => g, None => '▼' }, HitAction::ScrollRailDown, "control_scroll_down")
                    } else {
                        (match declared { Some(g) => g, None => '▲' }, HitAction::ScrollRailUp, "control_scroll_up")
                    };
                    footer.place_right(right, glyph, Some((action, BorderHitPayload::none())), owner);
                    right = right + 1;
                }
            },
            TemplateControlKind::InspectRoot => {
                if footer.right_cell_is_available(right) {
                    let glyph = match declared {
                        Some(g) => g,
                        None => if root_inspected { '●' } else { '○' },
                    };
                    footer.place_right(right, glyph, Some((HitAction::InspectNode, BorderHitPayload::none())), "control_inspect_root");
                    right = right + 1;
                }
            },
        }
        i = i + 1;
    }
    proof {
        assert(controls@.take(controls@.len() as int) =~= controls@);
    }
    let (line, hits) = footer.finish(row, theme);
    lines.set(row, line);
    let ghost before_hits = hit_regions@;
    let mut pending = hits;
    let ghost all = pending@;
    let mut moved: usize = 0;
    let _count = pending.len();
    while pending.len() > 0
        invariant
            moved + pending@.len() == all.len(),
            all.len() <= usize::MAX,
            pending@ == all.skip(moved as int),
            hit_regions@ == before_hits + all.take(moved as int),
        decreases pending.len(),
    {
        let hit = pending.remove(0);
        proof {
            assert(all.take(moved + 1) =~= all.take(moved as int).push(hit));
            assert(pending@ =~= all.skip(moved + 1));
        }
        hit_regions.push(hit);
        moved = moved + 1;
    }
    proof {
        assert(all.take(moved as int) =~= all);
    }
}

/// The footer's controls when no template lists any: configuration, the two
/// scroll controls and the root inspector.
pub open spec fn default_footer_controls() -> Seq<TemplateControlSpec> {
    seq![
        TemplateControlSpec { kind: TemplateControlKind::OpenConfig, variable: None, glyph: None },
        TemplateControlSpec { kind: TemplateControlKind::ScrollDown, variable: None, glyph: None },
        TemplateControlSpec { kind: TemplateControlKind::ScrollUp, variable: None, glyph: None },
        TemplateControlSpec { kind: TemplateControlKind::InspectRoot, variable: None, glyph: None },
    ]
}

/// Draws the default footer on row `row`.
pub fn render_footer(
    lines: &mut Vec<String>,
    hit_regions: &mut Vec<HitRegion>,
    row: usize,
    width: usize,
    theme: Option<RenderTheme>,
    root_inspected: bool,
    rail_can_scroll: bool,
)
    requires
        width == 0 || row < old(lines)@.len(),
    ensures
        width == 0 ==> final(lines)@ == old(lines)@ && final(hit_regions)@ == old(hit_regions)@,
        width > 0 ==> {
            let st = footer_after(default_footer_controls(), width as nat, Seq::empty(), Seq::empty(), rail_can_scroll, root_inspected);
            &&& final(lines)@ == old(lines)@.update(row as int, final(lines)@[row as int])
            &&& final(lines)@[row as int]@ == styled_from(st.row.cells, 0, theme)
            &&& final(hit_regions)@ == old(hit_regions)@ + st.row.hits.map_values(|h: BorderPendingHit| finished_hit(h, row as nat))
        },
{
    let controls = vec![
        TemplateControlSpec { kind: TemplateControlKind::OpenConfig, variable: None, glyph: None },
        TemplateControlSpec { kind: TemplateControlKind::ScrollDown, variable: None, glyph: None },
        TemplateControlSpec { kind: TemplateControlKind::ScrollUp, variable: None, glyph: None },
        TemplateControlSpec { kind: TemplateControlKind::InspectRoot, variable: None, glyph: None },
    ];
    let variables: Vec<TemplateVariable> = Vec::new();
    let off: Vec<String> = Vec::new();
    proof {
        assert(controls@ =~= default_footer_controls());
        assert(variables@ =~= Seq::<TemplateVariable>::empty());
        assert(off@ =~= Seq::<String>::empty());
    }
    render_control_template(
        lines,
        hit_regions,
        row,
        width,
        theme,
        root_inspected,
        rail_can_scroll,
        controls.as_slice(),
        variables.as_slice(),
        off.as_slice(),
    );
}

} // verus!
