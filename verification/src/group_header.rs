//! The header line of a directory group: its toggle glyph, its fitted
//! template fields, the niche of child tabs and groups shown inline after
//! them, and the fill that runs to the end of the row.

use vstd::prelude::*;
use crate::width::{str_width, text_width};
use crate::text::push_text;
use crate::model::{GroupPath, GroupSegment, ResolvedTemplateFieldSource, MetadataValueView, path_identity, copy_metadata_value};
use crate::render::{HitRegion, ChildLayoutMode};
use crate::text::{string_views, spaces, blank, push_char};
use crate::render::{HitAction, RenderTheme, group_header_text_spec, style_group_header_text, header_niche_separator};
use crate::template_fields::{
    TemplateField, TemplateFieldView, FieldClass, field_views, fields_budget, inline_items_of, fitting_count,
    fields_named, lists_sources_once, source_views, render_template_fields_inline_with_suppression,
};
use crate::inline_layout::{selected_items, placed_text};

verus! {

/// A clickable part of a header niche, in columns of the niche.
#[derive(Debug, Clone)]
pub struct HeaderNicheHit {
    pub col_start: usize,
    pub col_end: usize,
    pub tab_id: u64,
    pub tab_position: usize,
    pub group_path: Option<GroupPath>,
    pub action: HitAction,
}

/// How much of a group's body its header niche shows: the direct tabs it
/// takes, and what it takes of one child group.
#[derive(Debug, Default)]
pub struct HeaderNicheConsumption {
    pub direct_tabs: usize,
    pub child_group: Option<Box<HeaderNicheGroupConsumption>>,
}

#[derive(Debug)]
pub struct HeaderNicheGroupConsumption {
    pub child_group_index: usize,
    pub child_consumption: HeaderNicheConsumption,
}

/// The child tabs and groups projected into a header niche: their text,
/// its width, the hits and what was taken.
#[derive(Debug)]
pub struct HeaderNiche {
    pub text: String,
    pub visible_width: usize,
    pub hits: Vec<HeaderNicheHit>,
    pub consumption: HeaderNicheConsumption,
}

/// A rendered header line, the sources of the fields it shows, and its
/// niche's hits in columns of the line.
#[derive(Debug)]
pub struct RenderedTemplateLine {
    pub text: String,
    pub visible_sources: Vec<ResolvedTemplateFieldSource>,
    pub niche_hits: Vec<HeaderNicheHit>,
    pub niche_consumption: HeaderNicheConsumption,
}

/// `a + b`, or the largest `usize` when that does not fit.
pub open spec fn sat_add(a: int, b: int) -> int {
    if a + b > usize::MAX { usize::MAX as int } else { a + b }
}

/// The header's fields: the toggle glyph first when the chrome has one
/// (the collapsed or expanded glyph for a collapsible group, a space
/// otherwise), then the template fields.
pub open spec fn toggled_fields(
    fields: Seq<TemplateFieldView>,
    toggle: Option<(Seq<char>, Seq<char>)>,
    collapsed: bool,
    collapsible: bool,
) -> Seq<TemplateFieldView> {
    match toggle {
        None => fields,
        Some(glyphs) => seq![TemplateFieldView {
            class: FieldClass::Required,
            text: if collapsible {
                if collapsed { glyphs.0 } else { glyphs.1 }
            } else {
                seq![' ']
            },
        }] + fields,
    }
}

/// The fields laid out inline in `width` columns, without the suppressed sources.
pub open spec fn inline_text(fields: Seq<TemplateFieldView>, suppressed: Seq<(Seq<char>, MetadataValueView)>, width: int) -> Seq<char> {
    let shown = selected_items(inline_items_of(fields, suppressed), width);
    placed_text(shown.take(fitting_count(shown, width) as int))
}

/// The separator put before a niche: a space before a niche that starts
/// with `─`, ` ─ ` otherwise.
pub open spec fn niche_separator(niche_text: Seq<char>) -> Seq<char> {
    if niche_text.len() > 0 && niche_text[0] == '─' { seq![' '] } else { seq![' ', '─', ' '] }
}

/// The fill after the header: a space and the fill glyph to the end of the
/// row, a single space when one column is left, nothing otherwise.
pub open spec fn header_fill(fill: Option<char>, remaining: int) -> Seq<char> {
    match fill {
        None => Seq::empty(),
        Some(g) => if remaining >= 2 {
            seq![' '] + Seq::new((remaining - 1) as nat, |i: int| g)
        } else if remaining == 1 {
            seq![' ']
        } else {
            Seq::empty()
        },
    }
}

/// A niche hit moved `by` columns to the right.
pub open spec fn hit_moved(h: HeaderNicheHit, by: int) -> HeaderNicheHit {
    HeaderNicheHit { col_start: sat_add(h.col_start as int, by) as usize, col_end: sat_add(h.col_end as int, by) as usize, ..h }
}

/// The line a group header shows: the fields fitted inline; then, when the
/// niche shows anything, its separator and text; then the fill to the end
/// of `width` columns. The header's own parts are styled as headers when
/// `themed`, the niche keeps its own styling.
pub open spec fn header_text(
    fields_text: Seq<char>,
    niche_text: Seq<char>,
    niche_width: usize,
    fill: Option<char>,
    width: int,
    themed: bool,
    contains_active_tab: bool,
    theme: Option<RenderTheme>,
) -> Seq<char> {
    let sep = niche_separator(niche_text);
    let start = sat_add(str_width(fields_text) as int, str_width(sep) as int);
    let shown = if niche_width > 0 { sat_add(start, niche_width as int) } else { str_width(fields_text) as int };
    let remaining = if width > shown { width - shown } else { 0 };
    let suffix = header_fill(fill, remaining);
    if niche_width > 0 {
        styled_header(fields_text + sep, themed, contains_active_tab, theme) + niche_text + styled_header(
            suffix,
            themed,
            contains_active_tab,
            theme,
        )
    } else {
        styled_header(fields_text + suffix, themed, contains_active_tab, theme)
    }
}

pub open spec fn styled_header(text: Seq<char>, themed: bool, contains_active_tab: bool, theme: Option<RenderTheme>) -> Seq<char> {
    if themed { group_header_text_spec(text, contains_active_tab, theme) } else { text }
}

fn style_header(text: String, themed: bool, contains_active_tab: bool, theme: Option<RenderTheme>) -> (s: String)
    ensures
        s@ == styled_header(text@, themed, contains_active_tab, theme),
{
    if themed {
        style_group_header_text(text, contains_active_tab, theme)
    } else {
        text
    }
}

fn fill_text(fill: Option<char>, remaining: usize) -> (s: String)
    ensures
        s@ == header_fill(fill, remaining as int),
{
    let mut s = String::new();
    match fill {
        None => {},
        Some(g) => {
            if remaining == 0 {
                return s;
            }
            crate::text::push_char(&mut s, ' ');
            let mut k: usize = 1;
            proof {
                assert(s@ =~= seq![' '] + Seq::new(0, |i: int| g));
            }
            while k < remaining
                invariant
                    1 <= k <= remaining,
                    s@ == seq![' '] + Seq::new((k - 1) as nat, |i: int| g),
                decreases remaining - k,
            {
                crate::text::push_char(&mut s, g);
                proof {
                    assert(seq![' '] + Seq::new(k as nat, |i: int| g) =~= (seq![' '] + Seq::new((k - 1) as nat, |i: int| g)).push(g));
                }
                k = k + 1;
            }
            proof {
                if remaining == 1 {
                    assert(s@ =~= seq![' ']);
                }
            }
        },
    }
    s
}

/// The header line of a group. `fields` are its resolved template fields,
/// `toggle` the chrome's collapsed and expanded glyphs, `fill` the chrome's
/// fill glyph and `themed` whether the fields come from a themed template;
/// `niche` is the projection of the group's body into the room the fields
/// leave. Column arithmetic stops at the largest `usize`.
pub fn group_header_line(
    fields: Vec<TemplateField>,
    toggle: Option<(String, String)>,
    collapsed: bool,
    collapsible: bool,
    contains_active_tab: bool,
    themed: bool,
    fill: Option<char>,
    niche: HeaderNiche,
    width: usize,
    theme: Option<RenderTheme>,
    suppressed: &[ResolvedTemplateFieldSource],
) -> (r: RenderedTemplateLine)
    requires
        fields_budget(toggled_fields(
            field_views(fields@),
            match toggle {
                Some(g) => Some((g.0@, g.1@)),
                None => None,
            },
            collapsed,
            collapsible,
        )) <= usize::MAX,
    ensures
        ({
            let all = toggled_fields(
                field_views(fields@),
                match toggle {
                    Some(g) => Some((g.0@, g.1@)),
                    None => None,
                },
                collapsed,
                collapsible,
            );
            let text = inline_text(all, source_views(suppressed@), width as int);
            let shown = selected_items(inline_items_of(all, source_views(suppressed@)), width as int);
            let start = sat_add(str_width(text) as int, str_width(niche_separator(niche.text@)) as int);
            &&& r.text@ == header_text(text, niche.text@, niche.visible_width, fill, width as int, themed, contains_active_tab, theme)
            &&& lists_sources_once(source_views(r.visible_sources@), fields_named(all, shown.take(fitting_count(shown, width as int) as int)))
            &&& r.niche_hits@.len() == niche.hits@.len()
            &&& forall|k: int| 0 <= k < niche.hits@.len() ==> #[trigger] r.niche_hits@[k] == hit_moved(niche.hits@[k], start)
            &&& r.niche_consumption == niche.consumption
        }),
{
    let mut all = fields;
    let ghost given = field_views(all@);
    match &toggle {
        Some(glyphs) => {
            let glyph = if collapsible {
                if collapsed { glyphs.0.clone() } else { glyphs.1.clone() }
            } else {
                let mut s = String::new();
                crate::text::push_char(&mut s, ' ');
                s
            };
            all.insert(0, TemplateField::Required(glyph));
            proof {
                assert(field_views(all@) =~= toggled_fields(
                    given,
                    match toggle {
                        Some(g) => Some((g.0@, g.1@)),
                        None => None,
                    },
                    collapsed,
                    collapsible,
                ));
            }
        },
        None => {},
    }
    let rendered = render_template_fields_inline_with_suppression(all.as_slice(), width, suppressed);
    let fields_text = rendered.text;
    let fields_width = text_width(fields_text.as_str());
    let separator = header_niche_separator(niche.text.as_str());
    let separator_width = text_width(separator);
    let niche_start = fields_width.saturating_add(separator_width);
    let HeaderNiche { text: niche_text, visible_width: niche_width, hits: mut hits, consumption } = niche;
    let ghost old_hits = hits@;
    let mut k: usize = 0;
    while k < hits.len()
        invariant
            k <= hits@.len(),
            hits@.len() == old_hits.len(),
            forall|j: int| 0 <= j < k ==> #[trigger] hits@[j] == hit_moved(old_hits[j], niche_start as int),
            forall|j: int| k <= j < hits@.len() ==> #[trigger] hits@[j] == old_hits[j],
        decreases hits.len() - k,
    {
        let mut hit = hits.remove(k);
        hit.col_start = hit.col_start.saturating_add(niche_start);
        hit.col_end = hit.col_end.saturating_add(niche_start);
        hits.insert(k, hit);
        k = k + 1;
    }
    let shown = if niche_width > 0 { niche_start.saturating_add(niche_width) } else { fields_width };
    let remaining = width.saturating_sub(shown);
    let suffix = fill_text(fill, remaining);
    let text = if niche_width > 0 {
        let mut prefix = fields_text;
        push_text(&mut prefix, separator);
        let mut styled = style_header(prefix, themed, contains_active_tab, theme);
        push_text(&mut styled, niche_text.as_str());
        let tail = style_header(suffix, themed, contains_active_tab, theme);
        push_text(&mut styled, tail.as_str());
        styled
    } else {
        let mut whole = fields_text;
        push_text(&mut whole, suffix.as_str());
        style_header(whole, themed, contains_active_tab, theme)
    };
    proof {
        assert(separator@ == niche_separator(niche_text@));
    }
    RenderedTemplateLine { text, visible_sources: rendered.visible_sources, niche_hits: hits, niche_consumption: consumption }
}

/// The columns a header leaves for its niche in `width` columns: what the
/// fitted fields and a ` ─ ` separator leave, none when they leave nothing.
pub fn header_niche_room(
    fields: Vec<TemplateField>,
    toggle: Option<(String, String)>,
    collapsed: bool,
    collapsible: bool,
    width: usize,
    suppressed: &[ResolvedTemplateFieldSource],
) -> (r: usize)
    requires
        fields_budget(toggled_fields(
            field_views(fields@),
            match toggle {
                Some(g) => Some((g.0@, g.1@)),
                None => None,
            },
            collapsed,
            collapsible,
        )) <= usize::MAX,
    ensures
        ({
            let all = toggled_fields(
                field_views(fields@),
                match toggle {
                    Some(g) => Some((g.0@, g.1@)),
                    None => None,
                },
                collapsed,
                collapsible,
            );
            let used = str_width(inline_text(all, source_views(suppressed@), width as int)) as int;
            let after_fields = if width > used { width - used } else { 0 };
            r == if after_fields > str_width(seq![' ', '─', ' ']) { after_fields - str_width(seq![' ', '─', ' ']) } else { 0 }
        }),
{
    let mut all = fields;
    let ghost given = field_views(all@);
    match &toggle {
        Some(glyphs) => {
            let glyph = if collapsible {
                if collapsed { glyphs.0.clone() } else { glyphs.1.clone() }
            } else {
                let mut s = String::new();
                crate::text::push_char(&mut s, ' ');
                s
            };
            all.insert(0, TemplateField::Required(glyph));
            proof {
                assert(field_views(all@) =~= toggled_fields(
                    given,
                    match toggle {
                        Some(g) => Some((g.0@, g.1@)),
                        None => None,
                    },
                    collapsed,
                    collapsible,
                ));
            }
        },
        None => {},
    }
    let rendered = render_template_fields_inline_with_suppression(all.as_slice(), width, suppressed);
    let used = text_width(rendered.text.as_str());
    proof {
        reveal_strlit(" ─ ");
        assert(" ─ "@ =~= seq![' ', '─', ' ']);
    }
    let separator_width = text_width(" ─ ");
    width.saturating_sub(used).saturating_sub(separator_width)
}

// ---------------------------------------------------------------------------
// The header row

/// `a * b`, or the largest `usize` when that does not fit.
pub open spec fn sat_mul(a: int, b: int) -> int {
    if a * b > usize::MAX { usize::MAX as int } else { a * b }
}

/// Where a group header sits in `cols` columns: its indent (the chrome's
/// indent width for each level of the group's depth, within `cols`), the
/// columns after it, and the columns its text takes, which leave the last
/// two for the inspect glyph when at least four are there.
pub open spec fn header_geometry(indent_width: Option<usize>, group_indent: usize, cols: usize) -> (usize, usize, usize) {
    let wanted = match indent_width {
        Some(w) => sat_mul(group_indent as int / 2, w as int),
        None => 0,
    };
    let indent = if wanted < cols { wanted } else { cols as int };
    let inner = cols - indent;
    (indent as usize, inner as usize, if inner >= 4 { (inner - 2) as usize } else { inner as usize })
}

/// The indent, inner width and text width of a group header.
pub fn group_header_geometry(indent_width: Option<usize>, group_indent: usize, cols: usize) -> (r: (usize, usize, usize))
    ensures
        r == header_geometry(indent_width, group_indent, cols),
{
    let depth = group_indent / 2;
    let wanted = match indent_width {
        Some(w) => match depth.checked_mul(w) {
            Some(v) => v,
            None => usize::MAX,
        },
        None => 0,
    };
    let indent = if wanted < cols { wanted } else { cols };
    let inner = cols - indent;
    (indent, inner, if inner >= 4 { inner - 2 } else { inner })
}

/// The inspect glyph: filled when the group is the node being inspected.
pub open spec fn inspect_glyph(inspected: bool) -> char {
    if inspected { '●' } else { '○' }
}

/// The header row: the indent, the header text, and the inspect glyph with
/// a `─` after it when at least four columns are there.
pub open spec fn header_row(text: Seq<char>, indent: usize, inner_width: usize, inspected: bool, contains_active_tab: bool, theme: Option<RenderTheme>) -> Seq<char> {
    spaces(indent as nat) + text + if inner_width >= 4 {
        group_header_text_spec(seq![inspect_glyph(inspected), '─'], contains_active_tab, theme)
    } else {
        Seq::empty()
    }
}

/// A niche hit as a hit region of row `row`, moved right by `indent`.
pub open spec fn niche_region(h: HeaderNicheHit, row: usize, indent: usize) -> HitRegion {
    HitRegion {
        row_start: row,
        row_end: row,
        col_start: sat_add(indent as int, h.col_start as int) as usize,
        col_end: sat_add(indent as int, h.col_end as int) as usize,
        tab_id: h.tab_id,
        tab_position: h.tab_position,
        group_path: h.group_path,
        action: h.action,
    }
}

/// `r` is a hit of row `row` in column `col` for `group` doing `action`.
pub open spec fn group_hit(r: HitRegion, row: usize, col: usize, group: GroupPath, action: HitAction) -> bool {
    &&& r.row_start == row && r.row_end == row
    &&& r.col_start == col && r.col_end == col
    &&& r.tab_id == 0 && r.tab_position == 0
    &&& r.group_path matches Some(p) && path_identity(p) == path_identity(group)
    &&& r.action == action
}

fn copy_group_path(path: &GroupPath) -> (r: GroupPath)
    ensures
        path_identity(r) == path_identity(*path),
{
    let mut segments: Vec<GroupSegment> = Vec::new();
    let mut i: usize = 0;
    while i < path.0.len()
        invariant
            i <= path.0@.len(),
            segments@.len() == i,
            forall|k: int| 0 <= k < i ==> (#[trigger] segments@[k]).key@ == path.0@[k].key@ && segments@[k].value@ == path.0@[k].value@,
        decreases path.0.len() - i,
    {
        let label = match &path.0[i].label {
            Some(l) => Some(l.clone()),
            None => None,
        };
        segments.push(GroupSegment { key: path.0[i].key.clone(), value: copy_metadata_value(&path.0[i].value), label });
        i = i + 1;
    }
    let r = GroupPath(segments);
    proof {
        assert(path_identity(r) =~= path_identity(*path));
    }
    r
}

/// Appends a group's header row and its hits: the niche's hits, the
/// inspect glyph when there is room for it, and the toggle at the indent
/// when the group has a body to reveal. Gives back the sources the header
/// shows, the row it took and what its niche consumed.
pub fn append_group_header(
    lines: &mut Vec<String>,
    hit_regions: &mut Vec<HitRegion>,
    header: RenderedTemplateLine,
    group_path: &GroupPath,
    indent: usize,
    inner_width: usize,
    contains_active_tab: bool,
    inspected: bool,
    revealable: bool,
    theme: Option<RenderTheme>,
) -> (r: (Vec<ResolvedTemplateFieldSource>, std::ops::Range<usize>, HeaderNicheConsumption))
    requires
        indent + inner_width <= usize::MAX,
        old(lines)@.len() < usize::MAX,
    ensures
        ({
            let row = old(lines)@.len() as usize;
            let n = header.niche_hits@.len() as int;
            let glyph = if inner_width >= 4 { 1int } else { 0int };
            let base = old(hit_regions)@.len() as int;
            &&& string_views(final(lines)@) == string_views(old(lines)@).push(
                header_row(header.text@, indent, inner_width, inspected, contains_active_tab, theme),
            )
            &&& final(hit_regions)@.len() == base + n + glyph + if revealable { 1int } else { 0int }
            &&& final(hit_regions)@.subrange(0, base) == old(hit_regions)@
            &&& forall|k: int| 0 <= k < n ==> #[trigger] final(hit_regions)@[base + k] == niche_region(header.niche_hits@[k], row, indent)
            &&& inner_width >= 4 ==> group_hit(final(hit_regions)@[base + n], row, (indent + inner_width - 2) as usize, *group_path, HitAction::InspectNode)
            &&& revealable ==> group_hit(final(hit_regions)@[base + n + glyph], row, indent, *group_path, HitAction::ToggleGroup)
            &&& r.0 == header.visible_sources
            &&& r.1.start == row && r.1.end == row + 1
            &&& r.2 == header.niche_consumption
        }),
{
    let row = lines.len();
    let ghost base_hits = hit_regions@;
    let ghost niche = header.niche_hits@;
    let RenderedTemplateLine { text, visible_sources, niche_hits, niche_consumption } = header;
    let mut line = blank(indent);
    push_text(&mut line, text.as_str());
    let mut nh = niche_hits;
    let mut k: usize = 0;
    let n = nh.len();
    while k < n
        invariant
            n == niche.len(),
            k <= n,
            nh@ == niche.skip(k as int),
            hit_regions@.len() == base_hits.len() + k,
            hit_regions@.subrange(0, base_hits.len() as int) == base_hits,
            forall|j: int| 0 <= j < k ==> #[trigger] hit_regions@[base_hits.len() + j] == niche_region(niche[j], row, indent),
        decreases n - k,
    {
        let hit = nh.remove(0);
        proof {
            assert(hit == niche[k as int]);
            assert(nh@ =~= niche.skip(k + 1));
        }
        let ghost before = hit_regions@;
        hit_regions.push(HitRegion {
            row_start: row,
            row_end: row,
            col_start: indent.saturating_add(hit.col_start),
            col_end: indent.saturating_add(hit.col_end),
            tab_id: hit.tab_id,
            tab_position: hit.tab_position,
            group_path: hit.group_path,
            action: hit.action,
        });
        proof {
            assert(hit_regions@.subrange(0, base_hits.len() as int) =~= before.subrange(0, base_hits.len() as int));
            assert forall|j: int| 0 <= j < k + 1 implies #[trigger] hit_regions@[base_hits.len() + j] == niche_region(niche[j], row, indent) by {
                if j < k {
                    assert(hit_regions@[base_hits.len() + j] == before[base_hits.len() + j]);
                }
            }
        }
        k = k + 1;
    }
    let ghost after_niche = hit_regions@;
    if inner_width >= 4 {
        let glyph = if inspected { '●' } else { '○' };
        let mut tail = String::new();
        push_char(&mut tail, glyph);
        push_char(&mut tail, '─');
        let styled_tail = style_group_header_text(tail, contains_active_tab, theme);
        push_text(&mut line, styled_tail.as_str());
        let col = indent + inner_width - 2;
        hit_regions.push(HitRegion {
            row_start: row,
            row_end: row,
            col_start: col,
            col_end: col,
            tab_id: 0,
            tab_position: 0,
            group_path: Some(copy_group_path(group_path)),
            action: HitAction::InspectNode,
        });
        proof {
            assert(tail@ =~= seq![inspect_glyph(inspected), '─']);
        }
    }
    let ghost after_glyph = hit_regions@;
    proof {
        assert(line@ =~= header_row(text@, indent, inner_width, inspected, contains_active_tab, theme));
    }
    let ghost before_lines = lines@;
    lines.push(line);
    if revealable {
        hit_regions.push(HitRegion {
            row_start: row,
            row_end: row,
            col_start: indent,
            col_end: indent,
            tab_id: 0,
            tab_position: 0,
            group_path: Some(copy_group_path(group_path)),
            action: HitAction::ToggleGroup,
        });
    }
    proof {
        assert(string_views(lines@) =~= string_views(before_lines).push(line@));
        let b = base_hits.len() as int;
        assert(hit_regions@.subrange(0, b) =~= base_hits) by {
            assert forall|j: int| 0 <= j < b implies hit_regions@[j] == base_hits[j] by {
                assert(after_niche.subrange(0, b)[j] == base_hits[j]);
                assert(hit_regions@[j] == after_niche[j]);
            }
        }
        assert forall|j: int| 0 <= j < n implies #[trigger] hit_regions@[b + j] == niche_region(niche[j], row, indent) by {
            assert(hit_regions@[b + j] == after_niche[b + j]);
        }
        if inner_width >= 4 {
            assert(hit_regions@[b + n] == after_glyph[b + n]);
        }
    }
    (visible_sources, row..row + 1, niche_consumption)
}

/// A group header toggles only a body it can reveal: the group has
/// children, and they are laid out as cards or some of them are left once
/// the niche has shown its share.
pub fn group_header_has_revealable_body(has_children: bool, child_layout: ChildLayoutMode, children_after_niche: usize) -> (r: bool)
    ensures
        r == (has_children && (child_layout != ChildLayoutMode::Strip || children_after_niche > 0)),
{
    if !has_children {
        return false;
    }
    match child_layout {
        ChildLayoutMode::Strip => children_after_niche > 0,
        _ => true,
    }
}

} // verus!
