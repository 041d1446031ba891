//! The fields a template renders into a title, status or header line, and
//! how they are chosen, shortened and joined to fit a width.

use vstd::prelude::*;
use crate::width::{str_width, text_width};
use crate::text::{chars_of, push_text, push_char, push_decimal, decimal};
use crate::model::{ResolvedTemplateFieldSource, MetadataValueView};
use crate::render::{dotted, truncate_to_width};
use crate::inline_layout::{
    separator, insert_sorted, strictly_ascending, lemma_insert_sorted_at, InlineItem, InlineItemView, InlineClass,
    InlineRun, views, selected_items, placed_text, placed_width, layout_budget, is_placement,
};

verus! {

/// One field of a rendered template line. Optional fields rank 0, required
/// and plain priority fields 100, prioritized fields by their own priority.
#[derive(Debug, Clone, PartialEq, Eq)]
pub enum TemplateField {
    Required(String),
    Optional(String),
    Priority(String),
    Prioritized { value: String, priority: i64, source: Option<ResolvedTemplateFieldSource> },
}

/// How a field takes part in fitting, with the source of a prioritized field.
pub enum FieldClass {
    Required,
    Optional,
    Priority,
    Prioritized(i64, Option<(Seq<char>, MetadataValueView)>),
}

/// The mathematical content of a [`TemplateField`].
pub struct TemplateFieldView {
    pub class: FieldClass,
    pub text: Seq<char>,
}

impl View for TemplateField {
    type V = TemplateFieldView;

    open spec fn view(&self) -> TemplateFieldView {
        match self {
            TemplateField::Required(v) => TemplateFieldView { class: FieldClass::Required, text: v@ },
            TemplateField::Optional(v) => TemplateFieldView { class: FieldClass::Optional, text: v@ },
            TemplateField::Priority(v) => TemplateFieldView { class: FieldClass::Priority, text: v@ },
            TemplateField::Prioritized { value, priority, source } => TemplateFieldView {
                class: FieldClass::Prioritized(
                    *priority,
                    match source {
                        Some(s) => Some(s@),
                        None => None,
                    },
                ),
                text: value@,
            },
        }
    }
}

pub open spec fn field_views(fields: Seq<TemplateField>) -> Seq<TemplateFieldView> {
    fields.map_values(|f: TemplateField| f@)
}

/// The rank by which fields are kept: optional 0, required and priority 100,
/// prioritized by its priority.
pub open spec fn rank(f: TemplateFieldView) -> i64 {
    match f.class {
        FieldClass::Optional => 0,
        FieldClass::Required => 100,
        FieldClass::Priority => 100,
        FieldClass::Prioritized(p, _) => p,
    }
}

pub open spec fn source_of(f: TemplateFieldView) -> Option<(Seq<char>, MetadataValueView)> {
    match f.class {
        FieldClass::Prioritized(_, s) => s,
        _ => None,
    }
}

/// `f` showing `t`.
pub open spec fn retexted(f: TemplateFieldView, t: Seq<char>) -> TemplateFieldView {
    TemplateFieldView { text: t, ..f }
}

/// The texts of the fields joined in order, each after one space unless it
/// is first or starts with `:`; optional fields are left out unless
/// `include_optional`.
pub open spec fn joined_fields(fields: Seq<TemplateFieldView>, include_optional: bool) -> Seq<char>
    decreases fields.len(),
{
    if fields.len() == 0 {
        Seq::empty()
    } else {
        let prev = joined_fields(fields.drop_last(), include_optional);
        let f = fields.last();
        if !include_optional && f.class is Optional {
            prev
        } else {
            prev + separator(prev, f.text) + f.text
        }
    }
}

/// The fields, all of them joined, fit in `width` columns.
pub open spec fn fits(fields: Seq<TemplateFieldView>, width: int) -> bool {
    str_width(joined_fields(fields, true)) <= width
}

// ---------------------------------------------------------------------------
// Single fields

/// The text of a field.
pub fn template_field_value(field: &TemplateField) -> (r: &str)
    ensures
        r@ == field@.text,
{
    match field {
        TemplateField::Required(value) => value.as_str(),
        TemplateField::Optional(value) => value.as_str(),
        TemplateField::Priority(value) => value.as_str(),
        TemplateField::Prioritized { value, .. } => value.as_str(),
    }
}

/// The rank of a field.
pub fn template_field_priority(field: &TemplateField) -> (r: i64)
    ensures
        r == rank(field@),
{
    match field {
        TemplateField::Optional(_) => 0,
        TemplateField::Required(_) => 100,
        TemplateField::Priority(_) => 100,
        TemplateField::Prioritized { priority, .. } => *priority,
    }
}

/// The metadata a prioritized field was read from.
pub fn template_field_source(field: &TemplateField) -> (r: Option<&ResolvedTemplateFieldSource>)
    ensures
        match r {
            Some(s) => source_of(field@) == Some(s@),
            None => source_of(field@) is None,
        },
{
    match field {
        TemplateField::Prioritized { source, .. } => match source {
            Some(s) => Some(s),
            None => None,
        },
        TemplateField::Required(_) => None,
        TemplateField::Optional(_) => None,
        TemplateField::Priority(_) => None,
    }
}

/// A field of the same kind as `field` showing `value`.
fn with_value(field: &TemplateField, value: String) -> (r: TemplateField)
    ensures
        r@ == retexted(field@, value@),
{
    match field {
        TemplateField::Required(_) => TemplateField::Required(value),
        TemplateField::Optional(_) => TemplateField::Optional(value),
        TemplateField::Priority(_) => TemplateField::Priority(value),
        TemplateField::Prioritized { priority, source, .. } => TemplateField::Prioritized {
            value,
            priority: *priority,
            source: match source {
                Some(s) => Some(s.copied()),
                None => None,
            },
        },
    }
}

/// A copy of a field.
fn copy_field(field: &TemplateField) -> (r: TemplateField)
    ensures
        r@ == field@,
{
    let value = template_field_value(field).to_owned();
    let r = with_value(field, value);
    proof {
        assert(r@.text == field@.text);
    }
    r
}

/// Cuts the text of `field` to `width` columns, ending in `...` when
/// anything was cut.
pub fn truncate_template_field(field: &mut TemplateField, width: usize)
    ensures
        final(field)@ == retexted(old(field)@, dotted(old(field)@.text, width as int)),
{
    let value = truncate_to_width(template_field_value(field), width);
    let updated = with_value(field, value);
    *field = updated;
}

// ---------------------------------------------------------------------------
// Joining

proof fn lemma_views_take_step(fields: Seq<TemplateField>, i: int)
    requires
        0 <= i < fields.len(),
    ensures
        field_views(fields.take(i + 1)).drop_last() == field_views(fields.take(i)),
        field_views(fields.take(i + 1)).last() == fields[i]@,
        field_views(fields.take(i + 1)).len() == i + 1,
{
    assert(field_views(fields.take(i + 1)).drop_last() =~= field_views(fields.take(i)));
}

/// Whether `s` starts with `:`.
fn starts_with_colon(s: &str) -> (r: bool)
    ensures
        r == (s@.len() > 0 && s@[0] == ':'),
{
    let chars = chars_of(s);
    chars.len() > 0 && chars[0] == ':'
}

/// The texts of the fields joined in order, each after one space unless it
/// is first or starts with `:`; optional fields only when `include_optional`.
pub fn join_template_fields(fields: &[TemplateField], include_optional: bool) -> (r: String)
    ensures
        r@ == joined_fields(field_views(fields@), include_optional),
{
    let mut output = String::new();
    let mut i: usize = 0;
    while i < fields.len()
        invariant
            i <= fields@.len(),
            output@ == joined_fields(field_views(fields@.take(i as int)), include_optional),
        decreases fields.len() - i,
    {
        proof {
            lemma_views_take_step(fields@, i as int);
        }
        let field = &fields[i];
        let skip = match field {
            TemplateField::Optional(_) => !include_optional,
            _ => false,
        };
        if !skip {
            let value = template_field_value(field);
            if !output.as_str().is_empty() && !starts_with_colon(value) {
                push_char(&mut output, ' ');
            }
            push_text(&mut output, value);
        }
        i = i + 1;
    }
    proof {
        assert(fields@.take(fields@.len() as int) =~= fields@);
    }
    output
}

// ---------------------------------------------------------------------------
// Fitting

/// The lowest rank among the fields.
pub open spec fn lowest_rank(fields: Seq<TemplateFieldView>) -> i64
    decreases fields.len(),
{
    if fields.len() <= 1 {
        rank(fields[0])
    } else {
        let m = lowest_rank(fields.drop_last());
        if rank(fields.last()) < m {
            rank(fields.last())
        } else {
            m
        }
    }
}

/// The highest rank among the fields.
pub open spec fn highest_rank(fields: Seq<TemplateFieldView>) -> i64
    decreases fields.len(),
{
    if fields.len() <= 1 {
        rank(fields[0])
    } else {
        let m = highest_rank(fields.drop_last());
        if rank(fields.last()) > m {
            rank(fields.last())
        } else {
            m
        }
    }
}

/// Walks the fields of rank `lowest` from position `i` on, in order, until
/// all fields fit: each one wider than three columns is cut by the overflow,
/// but not below three columns.
pub open spec fn shorten_from(fields: Seq<TemplateFieldView>, lowest: i64, i: int, width: int) -> Seq<TemplateFieldView>
    decreases fields.len() - i,
{
    if i < 0 || i >= fields.len() || fits(fields, width) {
        fields
    } else if rank(fields[i]) != lowest || str_width(fields[i].text) <= 3 {
        shorten_from(fields, lowest, i + 1, width)
    } else {
        let value_width = str_width(fields[i].text) as int;
        let overflow = str_width(joined_fields(fields, true)) - width;
        let reduction = if overflow < value_width - 3 { overflow } else { value_width - 3 };
        shorten_from(
            fields.update(i, retexted(fields[i], dotted(fields[i].text, value_width - reduction))),
            lowest,
            i + 1,
            width,
        )
    }
}

/// The fields as they fit in `width` columns: unchanged when they fit, else
/// with their lowest-ranked fields shortened, if that makes them fit.
pub open spec fn fitted(fields: Seq<TemplateFieldView>, width: int) -> Option<Seq<TemplateFieldView>> {
    if fits(fields, width) {
        Some(fields)
    } else if fields.len() == 0 {
        None
    } else {
        let s = shorten_from(fields, lowest_rank(fields), 0, width);
        if fits(s, width) {
            Some(s)
        } else {
            None
        }
    }
}

fn copy_fields(fields: &[TemplateField]) -> (r: Vec<TemplateField>)
    ensures
        field_views(r@) == field_views(fields@),
{
    let mut r: Vec<TemplateField> = Vec::new();
    let mut i: usize = 0;
    while i < fields.len()
        invariant
            i <= fields@.len(),
            r@.len() == i,
            forall|k: int| 0 <= k < i ==> r@[k]@ == fields@[k]@,
        decreases fields.len() - i,
    {
        r.push(copy_field(&fields[i]));
        i = i + 1;
    }
    proof {
        assert(field_views(r@) =~= field_views(fields@));
    }
    r
}

fn lowest_priority(fields: &[TemplateField]) -> (m: i64)
    requires
        fields@.len() > 0,
    ensures
        m == lowest_rank(field_views(fields@)),
{
    let mut m = template_field_priority(&fields[0]);
    let mut i: usize = 1;
    proof {
        assert(field_views(fields@.take(1)) =~= seq![fields@[0]@]);
    }
    while i < fields.len()
        invariant
            1 <= i <= fields@.len(),
            m == lowest_rank(field_views(fields@.take(i as int))),
        decreases fields.len() - i,
    {
        proof {
            lemma_views_take_step(fields@, i as int);
        }
        let p = template_field_priority(&fields[i]);
        if p < m {
            m = p;
        }
        i = i + 1;
    }
    proof {
        assert(fields@.take(fields@.len() as int) =~= fields@);
    }
    m
}

fn highest_priority(fields: &[TemplateField]) -> (m: i64)
    requires
        fields@.len() > 0,
    ensures
        m == highest_rank(field_views(fields@)),
{
    let mut m = template_field_priority(&fields[0]);
    let mut i: usize = 1;
    proof {
        assert(field_views(fields@.take(1)) =~= seq![fields@[0]@]);
    }
    while i < fields.len()
        invariant
            1 <= i <= fields@.len(),
            m == highest_rank(field_views(fields@.take(i as int))),
        decreases fields.len() - i,
    {
        proof {
            lemma_views_take_step(fields@, i as int);
        }
        let p = template_field_priority(&fields[i]);
        if p > m {
            m = p;
        }
        i = i + 1;
    }
    proof {
        assert(fields@.take(fields@.len() as int) =~= fields@);
    }
    m
}

/// The fields fitted to `width` columns: all of them when their joined text
/// fits; else the lowest-ranked fields, in order, are cut by the overflow
/// but not below three columns, and the result is kept if it then fits.
pub fn fit_template_fields_for_width(fields: &[TemplateField], width: usize) -> (r: Option<Vec<TemplateField>>)
    ensures
        match r {
            Some(v) => fitted(field_views(fields@), width as int) == Some(field_views(v@)),
            None => fitted(field_views(fields@), width as int) is None,
        },
{
    let ghost orig = field_views(fields@);
    if text_width(join_template_fields(fields, true).as_str()) <= width {
        return Some(copy_fields(fields));
    }
    if fields.len() == 0 {
        return None;
    }
    let lowest = lowest_priority(fields);
    let mut current = copy_fields(fields);
    let ghost target = shorten_from(orig, lowest, 0, width as int);
    let mut i: usize = 0;
    while i < current.len()
        invariant
            orig == field_views(fields@),
            current@.len() == fields@.len(),
            i <= current@.len(),
            !fits(orig, width as int),
            orig.len() > 0,
            lowest == lowest_rank(orig),
            target == shorten_from(orig, lowest, 0, width as int),
            shorten_from(field_views(current@), lowest, i as int, width as int) == target,
        decreases current.len() - i,
    {
        let ghost cur = field_views(current@);
        if template_field_priority(&current[i]) == lowest {
            let current_width = text_width(join_template_fields(current.as_slice(), true).as_str());
            if current_width <= width {
                proof {
                    assert(fits(cur, width as int));
                    assert(shorten_from(cur, lowest, i as int, width as int) == cur);
                }
                return Some(current);
            }
            let value_width = text_width(template_field_value(&current[i]));
            if value_width > 3 {
                let overflow = current_width - width;
                let max_reduction = value_width - 3;
                let reduction = if overflow < max_reduction { overflow } else { max_reduction };
                let mut field = copy_field(&current[i]);
                truncate_template_field(&mut field, value_width - reduction);
                current.set(i, field);
                proof {
                    assert(field_views(current@) =~= cur.update(
                        i as int,
                        retexted(cur[i as int], dotted(cur[i as int].text, value_width - reduction)),
                    ));
                }
            }
        }
        i = i + 1;
    }
    if text_width(join_template_fields(current.as_slice(), true).as_str()) <= width {
        Some(current)
    } else {
        None
    }
}

// ---------------------------------------------------------------------------
// Choosing

/// The ranks below `top` that the fields have, ascending, each once.
pub open spec fn levels_below(fields: Seq<TemplateFieldView>, top: i64) -> Seq<i64>
    decreases fields.len(),
{
    if fields.len() == 0 {
        Seq::empty()
    } else {
        let prev = levels_below(fields.drop_last(), top);
        if rank(fields.last()) < top {
            insert_sorted(prev, rank(fields.last()))
        } else {
            prev
        }
    }
}

/// The ranks that can be dropped: all ranks below the highest, ascending.
pub open spec fn droppable(fields: Seq<TemplateFieldView>) -> Seq<i64> {
    if fields.len() == 0 {
        Seq::empty()
    } else {
        levels_below(fields, highest_rank(fields))
    }
}

/// The fields ranked above `t`, in order.
pub open spec fn ranked_above(fields: Seq<TemplateFieldView>, t: int) -> Seq<TemplateFieldView>
    decreases fields.len(),
{
    if fields.len() == 0 {
        fields
    } else if rank(fields.last()) > t {
        ranked_above(fields.drop_last(), t).push(fields.last())
    } else {
        ranked_above(fields.drop_last(), t)
    }
}

/// The fields ranked exactly `t`, in order.
pub open spec fn ranked_at(fields: Seq<TemplateFieldView>, t: i64) -> Seq<TemplateFieldView>
    decreases fields.len(),
{
    if fields.len() == 0 {
        fields
    } else if rank(fields.last()) == t {
        ranked_at(fields.drop_last(), t).push(fields.last())
    } else {
        ranked_at(fields.drop_last(), t)
    }
}

/// Dropping the ranks `levels[j..]` one after another, lowest first: the
/// first set of remaining fields that can be fitted; the highest-ranked
/// fields alone when none can.
pub open spec fn select_from(fields: Seq<TemplateFieldView>, levels: Seq<i64>, j: int, width: int) -> Seq<TemplateFieldView>
    decreases levels.len() - j,
{
    if j < 0 || j >= levels.len() {
        ranked_at(fields, highest_rank(fields))
    } else {
        match fitted(ranked_above(fields, levels[j] as int), width) {
            Some(s) => s,
            None => select_from(fields, levels, j + 1, width),
        }
    }
}

/// The fields shown in `width` columns: all of them fitted if they can be,
/// else the fitted fields left after dropping the lowest ranks.
pub open spec fn selected_fields(fields: Seq<TemplateFieldView>, width: int) -> Seq<TemplateFieldView> {
    match fitted(fields, width) {
        Some(s) => s,
        None => select_from(fields, droppable(fields), 0, width),
    }
}

proof fn lemma_insert_sorted_contains(ps: Seq<i64>, p: i64, x: i64)
    ensures
        insert_sorted(ps, p).contains(x) <==> (ps.contains(x) || x == p),
    decreases ps.len(),
{
    if ps.len() == 0 {
        assert(insert_sorted(ps, p)[0] == p);
    } else if p < ps[0] {
        let r = insert_sorted(ps, p);
        assert(r == seq![p] + ps);
        if ps.contains(x) {
            let k = choose|k: int| 0 <= k < ps.len() && ps[k] == x;
            assert(r[k + 1] == x);
        }
        if r.contains(x) {
            let k = choose|k: int| 0 <= k < r.len() && r[k] == x;
            if k > 0 {
                assert(ps[k - 1] == x);
            }
        }
        assert(r[0] == p);
    } else if p == ps[0] {
        assert(ps[0] == p);
    } else {
        let rest = ps.drop_first();
        lemma_insert_sorted_contains(rest, p, x);
        let r = insert_sorted(ps, p);
        let ri = insert_sorted(rest, p);
        assert(r == seq![ps[0]] + ri);
        if ps.contains(x) {
            let k = choose|k: int| 0 <= k < ps.len() && ps[k] == x;
            if k > 0 {
                assert(rest[k - 1] == x);
            } else {
                assert(r[0] == x);
            }
        }
        if ri.contains(x) {
            let k = choose|k: int| 0 <= k < ri.len() && ri[k] == x;
            assert(r[k + 1] == x);
        }
        if r.contains(x) {
            let k = choose|k: int| 0 <= k < r.len() && r[k] == x;
            if k > 0 {
                assert(ri[k - 1] == x);
            } else {
                assert(ps[0] == x);
            }
        }
        if rest.contains(x) {
            let k = choose|k: int| 0 <= k < rest.len() && rest[k] == x;
            assert(ps[k + 1] == x);
        }
    }
}

/// Some field of `fields` has rank `p`.
pub open spec fn has_rank(fields: Seq<TemplateFieldView>, p: i64) -> bool {
    exists|i: int| 0 <= i < fields.len() && rank(#[trigger] fields[i]) == p
}

proof fn lemma_levels_below_contains(fields: Seq<TemplateFieldView>, top: i64, x: i64)
    ensures
        levels_below(fields, top).contains(x) <==> (x < top && has_rank(fields, x)),
    decreases fields.len(),
{
    if fields.len() > 0 {
        let p = fields.drop_last();
        lemma_levels_below_contains(p, top, x);
        if rank(fields.last()) < top {
            lemma_insert_sorted_contains(levels_below(p, top), rank(fields.last()), x);
        }
        if has_rank(p, x) {
            let i = choose|i: int| 0 <= i < p.len() && rank(#[trigger] p[i]) == x;
            assert(fields[i] == p[i]);
        }
        if has_rank(fields, x) {
            let i = choose|i: int| 0 <= i < fields.len() && rank(#[trigger] fields[i]) == x;
            if i < fields.len() - 1 {
                assert(p[i] == fields[i]);
            }
        }
        assert(rank(fields[fields.len() - 1]) == rank(fields.last()));
    }
}

/// The ranks below the highest that the fields have, ascending, each once.
pub fn droppable_template_field_priorities(fields: &[TemplateField]) -> (ps: Vec<i64>)
    ensures
        ps@ == droppable(field_views(fields@)),
        strictly_ascending(ps@),
        fields@.len() > 0 ==> forall|p: i64| #[trigger] ps@.contains(p) <==> (p < highest_rank(field_views(fields@)) && has_rank(field_views(fields@), p)),
        fields@.len() == 0 ==> ps@.len() == 0,
{
    if fields.len() == 0 {
        return Vec::new();
    }
    let top = highest_priority(fields);
    let ghost s = field_views(fields@);
    let mut ps: Vec<i64> = Vec::new();
    let mut i: usize = 0;
    while i < fields.len()
        invariant
            s == field_views(fields@),
            i <= fields@.len(),
            ps@ == levels_below(field_views(fields@.take(i as int)), top),
            strictly_ascending(ps@),
        decreases fields.len() - i,
    {
        proof {
            lemma_views_take_step(fields@, i as int);
        }
        let p = template_field_priority(&fields[i]);
        if p < top {
            let mut j: usize = 0;
            while j < ps.len() && ps[j] < p
                invariant
                    j <= ps@.len(),
                    forall|k: int| 0 <= k < j ==> ps@[k] < p,
                decreases ps.len() - j,
            {
                j = j + 1;
            }
            proof {
                lemma_insert_sorted_at(ps@, p, j as int);
            }
            if !(j < ps.len() && ps[j] == p) {
                ps.insert(j, p);
            }
        }
        i = i + 1;
    }
    proof {
        assert(fields@.take(fields@.len() as int) =~= fields@);
        assert forall|p: i64| #[trigger] ps@.contains(p) <==> (p < top && has_rank(s, p)) by {
            lemma_levels_below_contains(s, top, p);
        }
    }
    ps
}

/// Copies of the fields ranked above `t` or, when `exact`, ranked exactly `t`.
fn fields_ranked(fields: &[TemplateField], t: i64, exact: bool) -> (r: Vec<TemplateField>)
    ensures
        field_views(r@) == if exact { ranked_at(field_views(fields@), t) } else { ranked_above(field_views(fields@), t as int) },
{
    let mut r: Vec<TemplateField> = Vec::new();
    let mut i: usize = 0;
    while i < fields.len()
        invariant
            i <= fields@.len(),
            field_views(r@) == if exact {
                ranked_at(field_views(fields@.take(i as int)), t)
            } else {
                ranked_above(field_views(fields@.take(i as int)), t as int)
            },
        decreases fields.len() - i,
    {
        proof {
            lemma_views_take_step(fields@, i as int);
        }
        let p = template_field_priority(&fields[i]);
        if (exact && p == t) || (!exact && p > t) {
            let ghost before = r@;
            r.push(copy_field(&fields[i]));
            proof {
                assert(field_views(r@) =~= field_views(before).push(fields@[i as int]@));
            }
        }
        i = i + 1;
    }
    proof {
        assert(fields@.take(fields@.len() as int) =~= fields@);
    }
    r
}

/// The fields to show in `width` columns: all of them, fitted, when that
/// works; otherwise the ranks below the highest are dropped lowest first
/// until the remaining fields can be fitted; failing that, only the
/// highest-ranked fields.
pub fn select_template_fields_for_width(fields: &[TemplateField], width: usize) -> (r: Vec<TemplateField>)
    ensures
        field_views(r@) == selected_fields(field_views(fields@), width as int),
{
    if let Some(selected) = fit_template_fields_for_width(fields, width) {
        return selected;
    }
    let ghost s = field_views(fields@);
    let levels = droppable_template_field_priorities(fields);
    let mut j: usize = 0;
    while j < levels.len()
        invariant
            s == field_views(fields@),
            j <= levels@.len(),
            levels@ == droppable(s),
            fitted(s, width as int) is None,
            select_from(s, levels@, j as int, width as int) == selected_fields(s, width as int),
        decreases levels.len() - j,
    {
        let kept = fields_ranked(fields, levels[j], false);
        if let Some(selected) = fit_template_fields_for_width(kept.as_slice(), width) {
            return selected;
        }
        j = j + 1;
    }
    if fields.len() == 0 {
        return Vec::new();
    }
    let top = highest_priority(fields);
    fields_ranked(fields, top, true)
}

// ---------------------------------------------------------------------------
// Rendering

/// A rendered template line and the sources of the fields it shows.
#[derive(Debug, Clone, PartialEq, Eq)]
pub struct RenderedTemplateFields {
    pub text: String,
    /// Each source once, in the order its first field shows.
    pub visible_sources: Vec<ResolvedTemplateFieldSource>,
}

/// The fields whose source is not among `suppressed`, in order.
pub open spec fn unsuppressed(fields: Seq<TemplateFieldView>, suppressed: Seq<(Seq<char>, MetadataValueView)>) -> Seq<TemplateFieldView>
    decreases fields.len(),
{
    if fields.len() == 0 {
        fields
    } else {
        let prev = unsuppressed(fields.drop_last(), suppressed);
        match source_of(fields.last()) {
            Some(src) => if suppressed.contains(src) {
                prev
            } else {
                prev.push(fields.last())
            },
            None => prev.push(fields.last()),
        }
    }
}

pub open spec fn source_views(sources: Seq<ResolvedTemplateFieldSource>) -> Seq<(Seq<char>, MetadataValueView)> {
    sources.map_values(|s: ResolvedTemplateFieldSource| s@)
}

/// The source of each field, `None` for a field without one.
pub open spec fn sources_in(fields: Seq<TemplateFieldView>) -> Seq<Option<(Seq<char>, MetadataValueView)>> {
    fields.map_values(|f: TemplateFieldView| source_of(f))
}

/// `sources` holds each source of `fields` exactly once.
pub open spec fn lists_sources_once(sources: Seq<(Seq<char>, MetadataValueView)>, fields: Seq<TemplateFieldView>) -> bool {
    &&& forall|a: int, b: int| 0 <= a < b < sources.len() ==> sources[a] != sources[b]
    &&& forall|k: int| 0 <= k < sources.len() ==> sources_in(fields).contains(Some(#[trigger] sources[k]))
    &&& forall|i: int| 0 <= i < fields.len() && (#[trigger] source_of(fields[i])) is Some ==> sources.contains(source_of(fields[i])->0)
}

fn is_suppressed(source: &ResolvedTemplateFieldSource, suppressed: &[ResolvedTemplateFieldSource]) -> (r: bool)
    ensures
        r == source_views(suppressed@).contains(source@),
{
    let mut i: usize = 0;
    while i < suppressed.len()
        invariant
            i <= suppressed@.len(),
            forall|k: int| 0 <= k < i ==> suppressed@[k]@ != source@,
        decreases suppressed.len() - i,
    {
        if suppressed[i].same_as(source) {
            proof {
                assert(source_views(suppressed@)[i as int] == source@);
            }
            return true;
        }
        i = i + 1;
    }
    proof {
        if source_views(suppressed@).contains(source@) {
            let k = choose|k: int| 0 <= k < source_views(suppressed@).len() && source_views(suppressed@)[k] == source@;
            assert(suppressed@[k]@ == source@);
        }
    }
    false
}

/// Each source of the fields once, in the order its first field shows.
fn sources_shown(fields: &[TemplateField]) -> (r: Vec<ResolvedTemplateFieldSource>)
    ensures
        lists_sources_once(source_views(r@), field_views(fields@)),
{
    let ghost s = field_views(fields@);
    let mut r: Vec<ResolvedTemplateFieldSource> = Vec::new();
    let mut i: usize = 0;
    while i < fields.len()
        invariant
            s == field_views(fields@),
            i <= fields@.len(),
            forall|a: int, b: int| 0 <= a < b < r@.len() ==> r@[a]@ != r@[b]@,
            forall|k: int| 0 <= k < r@.len() ==> sources_in(s.take(i as int)).contains(Some(#[trigger] r@[k]@)),
            forall|j: int| 0 <= j < i && (#[trigger] source_of(s[j])) is Some ==> source_views(r@).contains(source_of(s[j])->0),
        decreases fields.len() - i,
    {
        proof {
            assert(s[i as int] == fields@[i as int]@);
        }
        match template_field_source(&fields[i]) {
            Some(source) => {
                if !is_suppressed(source, r.as_slice()) {
                    let ghost before = r@;
                    r.push(source.copied());
                    proof {
                        assert(source_views(r@) =~= source_views(before).push(source@));
                        assert forall|k: int| 0 <= k < r@.len() implies sources_in(s.take(i + 1)).contains(Some(#[trigger] r@[k]@)) by {
                            if k == r@.len() - 1 {
                                assert(sources_in(s.take(i + 1))[i as int] == Some(r@[k]@));
                            } else {
                                assert(r@[k] == before[k]);
                                let n = choose|n: int| 0 <= n < sources_in(s.take(i as int)).len() && sources_in(s.take(i as int))[n] == Some(r@[k]@);
                                assert(sources_in(s.take(i + 1))[n] == Some(r@[k]@));
                            }
                        }
                        assert forall|j: int| 0 <= j < i + 1 && (#[trigger] source_of(s[j])) is Some implies source_views(r@).contains(source_of(s[j])->0) by {
                            if j < i {
                                let k = choose|k: int| 0 <= k < source_views(before).len() && source_views(before)[k] == source_of(s[j])->0;
                                assert(source_views(r@)[k] == source_of(s[j])->0);
                            } else {
                                assert(source_views(r@)[before.len() as int] == source@);
                            }
                        }
                    }
                }
            },
            None => {},
        }
        proof {
            let prev = sources_in(s.take(i as int));
            let next = sources_in(s.take(i + 1));
            assert(next =~= prev.push(source_of(s[i as int])));
            assert forall|k: int| 0 <= k < r@.len() && prev.contains(Some(r@[k]@)) implies next.contains(Some(#[trigger] r@[k]@)) by {
                let n = choose|n: int| 0 <= n < prev.len() && prev[n] == Some(r@[k]@);
                assert(next[n] == prev[n]);
            }
        }
        i = i + 1;
    }
    proof {
        let sv = source_views(r@);
        assert(s.take(i as int) =~= s);
        assert forall|a: int, b: int| 0 <= a < b < sv.len() implies sv[a] != sv[b] by {
            assert(sv[a] == r@[a]@ && sv[b] == r@[b]@);
        }
        assert forall|k: int| 0 <= k < sv.len() implies sources_in(s).contains(Some(#[trigger] sv[k])) by {
            assert(sv[k] == r@[k]@);
        }
        assert forall|j: int| 0 <= j < s.len() && (#[trigger] source_of(s[j])) is Some implies sv.contains(source_of(s[j])->0) by {
            assert(j < i);
        }
        assert(lists_sources_once(sv, s));
    }
    r
}

/// The fields that are not suppressed, chosen and fitted for `width`
/// columns, joined and cut to `width`, with the sources of the fields shown.
pub fn render_template_fields_with_suppression(
    fields: &[TemplateField],
    width: usize,
    suppressed_sources: &[ResolvedTemplateFieldSource],
) -> (r: RenderedTemplateFields)
    ensures
        r.text@ == dotted(
            joined_fields(selected_fields(unsuppressed(field_views(fields@), source_views(suppressed_sources@)), width as int), true),
            width as int,
        ),
        lists_sources_once(
            source_views(r.visible_sources@),
            selected_fields(unsuppressed(field_views(fields@), source_views(suppressed_sources@)), width as int),
        ),
{
    let ghost sup = source_views(suppressed_sources@);
    let mut kept: Vec<TemplateField> = Vec::new();
    let mut i: usize = 0;
    while i < fields.len()
        invariant
            sup == source_views(suppressed_sources@),
            i <= fields@.len(),
            field_views(kept@) == unsuppressed(field_views(fields@.take(i as int)), sup),
        decreases fields.len() - i,
    {
        proof {
            lemma_views_take_step(fields@, i as int);
        }
        let keep = match template_field_source(&fields[i]) {
            Some(source) => !is_suppressed(source, suppressed_sources),
            None => true,
        };
        if keep {
            let ghost before = kept@;
            kept.push(copy_field(&fields[i]));
            proof {
                assert(field_views(kept@) =~= field_views(before).push(fields@[i as int]@));
            }
        }
        i = i + 1;
    }
    proof {
        assert(fields@.take(fields@.len() as int) =~= fields@);
    }
    let selected = select_template_fields_for_width(kept.as_slice(), width);
    let joined = join_template_fields(selected.as_slice(), true);
    let text = truncate_to_width(joined.as_str(), width);
    let visible_sources = sources_shown(selected.as_slice());
    RenderedTemplateFields { text, visible_sources }
}

/// The fields chosen and fitted for `width` columns, joined and cut to `width`.
pub fn render_template_fields(fields: &[TemplateField], width: usize) -> (r: String)
    ensures
        r@ == dotted(joined_fields(selected_fields(unsuppressed(field_views(fields@), Seq::empty()), width as int), true), width as int),
{
    let none: Vec<ResolvedTemplateFieldSource> = Vec::new();
    proof {
        assert(source_views(none@) =~= Seq::<(Seq<char>, MetadataValueView)>::empty());
    }
    render_template_fields_with_suppression(fields, width, none.as_slice()).text
}

// ---------------------------------------------------------------------------
// Inline layout of fields

/// The id of the inline item of the field at `index`: `field:` and the index.
pub open spec fn field_id(index: nat) -> Seq<char> {
    seq!['f', 'i', 'e', 'l', 'd', ':'] + decimal(index)
}

/// The inline item of the field at `index`: required and optional fields
/// keep their class, plain priority fields rank 100 and prioritized fields
/// their own priority.
pub open spec fn field_item(index: nat, f: TemplateFieldView) -> InlineItemView {
    InlineItemView {
        id: field_id(index),
        text: f.text,
        measure_text: f.text,
        class: match f.class {
            FieldClass::Required => InlineClass::Required,
            FieldClass::Optional => InlineClass::Optional,
            _ => InlineClass::Priority,
        },
        priority: match f.class {
            FieldClass::Required => 100,
            FieldClass::Optional => 0,
            FieldClass::Priority => 100,
            FieldClass::Prioritized(p, _) => p,
        },
        min_width: if str_width(f.text) < 3 { str_width(f.text) } else { 3 },
        compact_text: None,
        hit: None,
    }
}

/// The field at `index` as an inline item, with id `field:` and the index.
pub fn inline_item_from_template_field(index: usize, field: &TemplateField) -> (r: InlineItem)
    ensures
        r@ == field_item(index as nat, field@),
{
    let mut id = String::new();
    push_text(&mut id, "field:");
    push_decimal(&mut id, index as u64);
    proof {
        reveal_strlit("field:");
        assert(id@ =~= field_id(index as nat));
    }
    let item = InlineItem::text(id.as_str(), template_field_value(field));
    match field {
        TemplateField::Required(_) => item.required(),
        TemplateField::Optional(_) => item.optional(),
        TemplateField::Priority(_) => item.priority(100),
        TemplateField::Prioritized { priority, .. } => item.priority(*priority),
    }
}

pub open spec fn is_digit(c: char) -> bool {
    '0' <= c && c <= '9'
}

/// The number written by the decimal digits `d`.
pub open spec fn digits_value(d: Seq<char>) -> int
    decreases d.len(),
{
    if d.len() == 0 {
        0
    } else {
        digits_value(d.drop_last()) * 10 + (d.last() as int - '0' as int)
    }
}

/// `s` without a leading `+`.
pub open spec fn unsigned_digits(s: Seq<char>) -> Seq<char> {
    if s.len() > 0 && s[0] == '+' {
        s.drop_first()
    } else {
        s
    }
}

pub open spec fn all_digits(d: Seq<char>) -> bool {
    forall|i: int| 0 <= i < d.len() ==> is_digit(#[trigger] d[i])
}

/// `s` read as a `usize` the way `str::parse` reads one: an optional `+`,
/// then one or more decimal digits whose value fits.
pub open spec fn parsed_index(s: Seq<char>) -> Option<int> {
    let d = unsigned_digits(s);
    if d.len() > 0 && all_digits(d) && digits_value(d) <= usize::MAX {
        Some(digits_value(d))
    } else {
        None
    }
}

/// The field index an inline item id names: the number after `field:`.
pub open spec fn id_index(id: Seq<char>) -> Option<int> {
    if id.len() >= 6 && id.take(6) == seq!['f', 'i', 'e', 'l', 'd', ':'] {
        parsed_index(id.skip(6))
    } else {
        None
    }
}

proof fn lemma_digits_value_nonneg(d: Seq<char>)
    requires
        forall|i: int| 0 <= i < d.len() ==> is_digit(#[trigger] d[i]),
    ensures
        digits_value(d) >= 0,
    decreases d.len(),
{
    if d.len() > 0 {
        assert forall|i: int| 0 <= i < d.drop_last().len() implies is_digit(#[trigger] d.drop_last()[i]) by {
            assert(d.drop_last()[i] == d[i]);
        }
        lemma_digits_value_nonneg(d.drop_last());
        assert(is_digit(d[d.len() - 1]));
    }
}

proof fn lemma_digits_value_grows(d: Seq<char>, k: int)
    requires
        0 <= k <= d.len(),
        forall|i: int| 0 <= i < d.len() ==> is_digit(#[trigger] d[i]),
    ensures
        digits_value(d.take(k)) <= digits_value(d),
    decreases d.len(),
{
    if k < d.len() {
        let p = d.drop_last();
        assert forall|i: int| 0 <= i < p.len() implies is_digit(#[trigger] p[i]) by {
            assert(p[i] == d[i]);
        }
        lemma_digits_value_grows(p, k);
        assert(p.take(k) =~= d.take(k));
        lemma_digits_value_nonneg(p);
        assert(is_digit(d[d.len() - 1]));
    } else {
        assert(d.take(k) =~= d);
    }
}

/// The index named by an inline item id of the form `field:` and a number.
fn field_index_of_id(id: &str) -> (r: Option<usize>)
    ensures
        match r {
            Some(n) => id_index(id@) == Some(n as int),
            None => id_index(id@) is None,
        },
{
    let chars = chars_of(id);
    let ghost s = chars@;
    if chars.len() < 6 || chars[0] != 'f' || chars[1] != 'i' || chars[2] != 'e' || chars[3] != 'l'
        || chars[4] != 'd' || chars[5] != ':' {
        proof {
            if s.len() >= 6 && s.take(6) == seq!['f', 'i', 'e', 'l', 'd', ':'] {
                assert(s[0] == s.take(6)[0] && s[1] == s.take(6)[1] && s[2] == s.take(6)[2]);
                assert(s[3] == s.take(6)[3] && s[4] == s.take(6)[4] && s[5] == s.take(6)[5]);
            }
        }
        return None;
    }
    proof {
        assert(s.take(6) =~= seq!['f', 'i', 'e', 'l', 'd', ':']);
    }
    let ghost rest = s.skip(6);
    let mut start: usize = 6;
    if chars.len() > 6 && chars[6] == '+' {
        start = 7;
    }
    let ghost d = unsigned_digits(rest);
    proof {
        assert(d =~= s.skip(start as int));
    }
    if start >= chars.len() {
        proof {
            assert(d.len() == 0);
            assert(id@.skip(6) == rest);
        }
        return None;
    }
    let mut value: usize = 0;
    let mut i: usize = start;
    while i < chars.len()
        invariant
            s == chars@,
            s == id@,
            s.len() >= 6 && s.take(6) == seq!['f', 'i', 'e', 'l', 'd', ':'],
            rest == s.skip(6),
            d == unsigned_digits(rest),
            d.len() > 0,
            d == s.skip(start as int),
            start <= i <= chars@.len(),
            forall|k: int| start <= k < i ==> is_digit(#[trigger] s[k]),
            value as int == digits_value(s.subrange(start as int, i as int)),
        decreases chars.len() - i,
    {
        let c = chars[i];
        proof {
            assert(s.subrange(start as int, i + 1).drop_last() =~= s.subrange(start as int, i as int));
        }
        if !('0' <= c && c <= '9') {
            proof {
                assert(d[i - start] == c);
                assert(!is_digit(d[i - start]));
                assert(!all_digits(d));
                assert(parsed_index(rest) is None);
                assert(id_index(id@) is None);
            }
            return None;
        }
        let digit_value = (c as u32 - '0' as u32) as usize;
        let shifted = match value.checked_mul(10) {
            Some(v) => v,
            None => {
                proof {
                    if all_digits(d) {
                        assert(d.take(i - start + 1) =~= s.subrange(start as int, i + 1));
                        lemma_digits_value_grows(d, i - start + 1);
                        lemma_digits_value_nonneg(s.subrange(start as int, i as int));
                    }
                }
                return None;
            },
        };
        let next = match shifted.checked_add(digit_value) {
            Some(v) => v,
            None => {
                proof {
                    if all_digits(d) {
                        assert(d.take(i - start + 1) =~= s.subrange(start as int, i + 1));
                        lemma_digits_value_grows(d, i - start + 1);
                    }
                }
                return None;
            },
        };
        value = next;
        i = i + 1;
    }
    proof {
        assert(s.subrange(start as int, chars@.len() as int) =~= d);
        assert forall|k: int| 0 <= k < d.len() implies is_digit(#[trigger] d[k]) by {
            assert(d[k] == s[start + k]);
        }
    }
    Some(value)
}

/// The inline items of the fields that are not suppressed, each named by
/// the index of its field.
pub open spec fn inline_items_of(fields: Seq<TemplateFieldView>, suppressed: Seq<(Seq<char>, MetadataValueView)>) -> Seq<InlineItemView>
    decreases fields.len(),
{
    if fields.len() == 0 {
        Seq::empty()
    } else {
        let prev = inline_items_of(fields.drop_last(), suppressed);
        let f = fields.last();
        let item = field_item((fields.len() - 1) as nat, f);
        match source_of(f) {
            Some(src) => if suppressed.contains(src) {
                prev
            } else {
                prev.push(item)
            },
            None => prev.push(item),
        }
    }
}

/// How many leading items of `s` a line of `width` columns shows.
pub open spec fn fitting_count(s: Seq<InlineItemView>, width: int) -> nat
    decreases s.len(),
{
    if s.len() == 0 || placed_width(s) <= width {
        s.len()
    } else {
        fitting_count(s.drop_last(), width)
    }
}

/// The fields that the ids of `items` name, in order; an id that names no
/// field names nothing.
pub open spec fn fields_named(fields: Seq<TemplateFieldView>, items: Seq<InlineItemView>) -> Seq<TemplateFieldView>
    decreases items.len(),
{
    if items.len() == 0 {
        Seq::empty()
    } else {
        let prev = fields_named(fields, items.drop_last());
        match id_index(items.last().id) {
            Some(k) => if 0 <= k < fields.len() {
                prev.push(fields[k])
            } else {
                prev
            },
            None => prev,
        }
    }
}

proof fn lemma_placed_width_grows(s: Seq<InlineItemView>, a: int, b: int)
    requires
        0 <= a <= b <= s.len(),
    ensures
        placed_width(s.take(a)) <= placed_width(s.take(b)),
    decreases b - a,
{
    if a < b {
        lemma_placed_width_grows(s, a, b - 1);
        assert(s.take(b).drop_last() =~= s.take(b - 1));
    }
}

proof fn lemma_fitting_count(s: Seq<InlineItemView>, width: int, n: int)
    requires
        0 <= n <= s.len(),
        placed_width(s.take(n)) <= width,
        n < s.len() ==> placed_width(s.take(n + 1)) > width,
    ensures
        fitting_count(s, width) == n,
    decreases s.len(),
{
    assert(s.take(s.len() as int) =~= s);
    if s.len() == 0 {
    } else if placed_width(s) <= width {
        if n < s.len() {
            lemma_placed_width_grows(s, n + 1, s.len() as int);
        }
    } else {
        let p = s.drop_last();
        assert(p.take(n) =~= s.take(n));
        if n < p.len() {
            assert(p.take(n + 1) =~= s.take(n + 1));
        }
        lemma_fitting_count(p, width, n);
    }
}

/// What laying the fields out may need at most in machine arithmetic: six
/// per field, three per character, and six more.
pub open spec fn fields_budget(fields: Seq<TemplateFieldView>) -> int
    decreases fields.len(),
{
    if fields.len() == 0 {
        6
    } else {
        fields_budget(fields.drop_last()) + 6 + 3 * fields.last().text.len()
    }
}

proof fn lemma_items_within_budget(fields: Seq<TemplateFieldView>, suppressed: Seq<(Seq<char>, MetadataValueView)>)
    ensures
        layout_budget(inline_items_of(fields, suppressed)) <= fields_budget(fields),
    decreases fields.len(),
{
    if fields.len() > 0 {
        lemma_items_within_budget(fields.drop_last(), suppressed);
        let prev = inline_items_of(fields.drop_last(), suppressed);
        let items = inline_items_of(fields, suppressed);
        if items != prev {
            assert(items.drop_last() == prev);
        }
    }
}

/// The fields that are not suppressed, laid out as inline items in `width`
/// columns, with the sources of the fields shown.
#[verifier::rlimit(40)]
pub fn render_template_fields_inline_with_suppression(
    fields: &[TemplateField],
    width: usize,
    suppressed_sources: &[ResolvedTemplateFieldSource],
) -> (r: RenderedTemplateFields)
    requires
        fields_budget(field_views(fields@)) <= usize::MAX,
    ensures
        ({
            let shown = selected_items(inline_items_of(field_views(fields@), source_views(suppressed_sources@)), width as int);
            let n = fitting_count(shown, width as int) as int;
            &&& r.text@ == placed_text(shown.take(n))
            &&& lists_sources_once(source_views(r.visible_sources@), fields_named(field_views(fields@), shown.take(n)))
        }),
{
    let ghost fv = field_views(fields@);
    let ghost sup = source_views(suppressed_sources@);
    let mut items: Vec<InlineItem> = Vec::new();
    let mut i: usize = 0;
    while i < fields.len()
        invariant
            fv == field_views(fields@),
            sup == source_views(suppressed_sources@),
            i <= fields@.len(),
            views(items@) == inline_items_of(field_views(fields@.take(i as int)), sup),
        decreases fields.len() - i,
    {
        proof {
            lemma_views_take_step(fields@, i as int);
        }
        let keep = match template_field_source(&fields[i]) {
            Some(source) => !is_suppressed(source, suppressed_sources),
            None => true,
        };
        if keep {
            let ghost before = items@;
            items.push(inline_item_from_template_field(i, &fields[i]));
            proof {
                assert(views(items@) =~= views(before).push(field_item(i as nat, fields@[i as int]@)));
            }
        }
        i = i + 1;
    }
    proof {
        assert(fields@.take(fields@.len() as int) =~= fields@);
        lemma_items_within_budget(fv, sup);
    }
    let run = InlineRun::new(items);
    let placed = run.layout(width);
    let ghost shown = selected_items(inline_items_of(fv, sup), width as int);
    let ghost n = placed.items@.len() as int;
    proof {
        lemma_fitting_count(shown, width as int, n);
    }
    let mut named: Vec<TemplateField> = Vec::new();
    let mut j: usize = 0;
    while j < placed.items.len()
        invariant
            fv == field_views(fields@),
            is_placement(placed, shown, width as int),
            n == placed.items@.len(),
            j <= n,
            field_views(named@) == fields_named(fv, shown.take(j as int)),
        decreases placed.items.len() - j,
    {
        proof {
            assert(shown.take(j + 1).drop_last() =~= shown.take(j as int));
            assert(shown.take(j + 1).last() == shown[j as int]);
            assert(placed.items@[j as int].id@ == shown[j as int].id);
        }
        match field_index_of_id(placed.items[j].id.as_str()) {
            Some(k) => {
                if k < fields.len() {
                    let ghost before = named@;
                    named.push(copy_field(&fields[k]));
                    proof {
                        assert(field_views(named@) =~= field_views(before).push(fv[k as int]));
                    }
                }
            },
            None => {},
        }
        j = j + 1;
    }
    let visible_sources = sources_shown(named.as_slice());
    RenderedTemplateFields { text: placed.text, visible_sources }
}

// ---------------------------------------------------------------------------
// Laws

/// The kind of each field, in order, its text aside.
pub open spec fn classes(fields: Seq<TemplateFieldView>) -> Seq<FieldClass> {
    fields.map_values(|f: TemplateFieldView| f.class)
}

proof fn lemma_shorten_keeps_classes(fields: Seq<TemplateFieldView>, lowest: i64, i: int, width: int)
    ensures
        classes(shorten_from(fields, lowest, i, width)) == classes(fields),
    decreases fields.len() - i,
{
    if i < 0 || i >= fields.len() || fits(fields, width) {
    } else if rank(fields[i]) != lowest || str_width(fields[i].text) <= 3 {
        lemma_shorten_keeps_classes(fields, lowest, i + 1, width);
    } else {
        let value_width = str_width(fields[i].text) as int;
        let overflow = str_width(joined_fields(fields, true)) - width;
        let reduction = if overflow < value_width - 3 { overflow } else { value_width - 3 };
        let next = fields.update(i, retexted(fields[i], dotted(fields[i].text, value_width - reduction)));
        lemma_shorten_keeps_classes(next, lowest, i + 1, width);
        assert(classes(next) =~= classes(fields));
    }
}

proof fn lemma_fitted_keeps_classes(fields: Seq<TemplateFieldView>, width: int)
    ensures
        fitted(fields, width) matches Some(r) ==> classes(r) == classes(fields),
{
    if !fits(fields, width) && fields.len() > 0 {
        lemma_shorten_keeps_classes(fields, lowest_rank(fields), 0, width);
    }
}

proof fn lemma_highest_rank_bounds(fields: Seq<TemplateFieldView>)
    requires
        fields.len() > 0,
    ensures
        forall|i: int| 0 <= i < fields.len() ==> rank(#[trigger] fields[i]) <= highest_rank(fields),
    decreases fields.len(),
{
    if fields.len() > 1 {
        lemma_highest_rank_bounds(fields.drop_last());
        assert forall|i: int| 0 <= i < fields.len() implies rank(#[trigger] fields[i]) <= highest_rank(fields) by {
            if i < fields.len() - 1 {
                assert(fields[i] == fields.drop_last()[i]);
            }
        }
    }
}

proof fn lemma_ranked_at_top(fields: Seq<TemplateFieldView>, top: i64)
    requires
        forall|i: int| 0 <= i < fields.len() ==> rank(#[trigger] fields[i]) <= top,
    ensures
        ranked_at(fields, top) == ranked_above(fields, top - 1),
    decreases fields.len(),
{
    if fields.len() > 0 {
        assert forall|i: int| 0 <= i < fields.drop_last().len() implies rank(#[trigger] fields.drop_last()[i]) <= top by {
            assert(fields.drop_last()[i] == fields[i]);
        }
        lemma_ranked_at_top(fields.drop_last(), top);
        assert(rank(fields[fields.len() - 1]) <= top);
    }
}

proof fn lemma_insert_sorted_members(ps: Seq<i64>, p: i64, bound: i64)
    requires
        p < bound,
        forall|k: int| 0 <= k < ps.len() ==> ps[k] < bound,
    ensures
        forall|k: int| 0 <= k < insert_sorted(ps, p).len() ==> insert_sorted(ps, p)[k] < bound,
    decreases ps.len(),
{
    if ps.len() > 0 && p > ps[0] {
        let rest = ps.drop_first();
        assert forall|k: int| 0 <= k < rest.len() implies rest[k] < bound by {
            assert(rest[k] == ps[k + 1]);
        }
        lemma_insert_sorted_members(rest, p, bound);
        let r = insert_sorted(ps, p);
        assert forall|k: int| 0 <= k < r.len() implies r[k] < bound by {
            if k > 0 {
                assert(r[k] == insert_sorted(rest, p)[k - 1]);
            }
        }
    }
}

proof fn lemma_levels_below_top(fields: Seq<TemplateFieldView>, top: i64)
    ensures
        forall|k: int| 0 <= k < levels_below(fields, top).len() ==> levels_below(fields, top)[k] < top,
    decreases fields.len(),
{
    if fields.len() > 0 {
        lemma_levels_below_top(fields.drop_last(), top);
        if rank(fields.last()) < top {
            lemma_insert_sorted_members(levels_below(fields.drop_last(), top), rank(fields.last()), top);
        }
    }
}

proof fn lemma_select_from_drops_by_rank(fields: Seq<TemplateFieldView>, levels: Seq<i64>, j: int, width: int)
    requires
        fields.len() > 0,
        0 <= j,
        forall|k: int| 0 <= k < levels.len() ==> levels[k] < highest_rank(fields),
    ensures
        exists|t: int| t < highest_rank(fields) && classes(select_from(fields, levels, j, width)) == classes(#[trigger] ranked_above(fields, t)),
    decreases levels.len() - j,
{
    let top = highest_rank(fields);
    if j >= levels.len() {
        lemma_highest_rank_bounds(fields);
        lemma_ranked_at_top(fields, top);
        assert(classes(select_from(fields, levels, j, width)) == classes(ranked_above(fields, top - 1)));
    } else {
        let kept = ranked_above(fields, levels[j] as int);
        match fitted(kept, width) {
            Some(s) => {
                lemma_fitted_keeps_classes(kept, width);
                assert(classes(select_from(fields, levels, j, width)) == classes(ranked_above(fields, levels[j] as int)));
            },
            None => {
                lemma_select_from_drops_by_rank(fields, levels, j + 1, width);
            },
        }
    }
}

proof fn lemma_ranked_above_all(fields: Seq<TemplateFieldView>, t: int)
    requires
        forall|i: int| 0 <= i < fields.len() ==> rank(#[trigger] fields[i]) > t,
    ensures
        ranked_above(fields, t) == fields,
    decreases fields.len(),
{
    if fields.len() > 0 {
        assert forall|i: int| 0 <= i < fields.drop_last().len() implies rank(#[trigger] fields.drop_last()[i]) > t by {
            assert(fields.drop_last()[i] == fields[i]);
        }
        lemma_ranked_above_all(fields.drop_last(), t);
        assert(rank(fields[fields.len() - 1]) > t);
        assert(fields.drop_last().push(fields.last()) =~= fields);
    }
}

proof fn lemma_lowest_rank_bounds(fields: Seq<TemplateFieldView>)
    requires
        fields.len() > 0,
    ensures
        forall|i: int| 0 <= i < fields.len() ==> rank(#[trigger] fields[i]) >= lowest_rank(fields),
        lowest_rank(fields) <= highest_rank(fields),
    decreases fields.len(),
{
    if fields.len() > 1 {
        lemma_lowest_rank_bounds(fields.drop_last());
        assert forall|i: int| 0 <= i < fields.len() implies rank(#[trigger] fields[i]) >= lowest_rank(fields) by {
            if i < fields.len() - 1 {
                assert(fields[i] == fields.drop_last()[i]);
            }
        }
    }
}

/// Narrowing drops fields by rank, never the highest: the fields shown are,
/// kind for kind and in order, the fields ranked above some threshold that
/// lies below the highest rank. So every field of the highest rank is shown,
/// and no field is dropped while a field ranked lower is shown.
pub proof fn lemma_selection_drops_by_rank(fields: Seq<TemplateFieldView>, width: int)
    requires
        fields.len() > 0,
    ensures
        exists|t: int| t < highest_rank(fields) && classes(selected_fields(fields, width)) == classes(#[trigger] ranked_above(fields, t)),
{
    match fitted(fields, width) {
        Some(s) => {
            lemma_fitted_keeps_classes(fields, width);
            lemma_lowest_rank_bounds(fields);
            let t = lowest_rank(fields) - 1;
            lemma_ranked_above_all(fields, t);
            assert(classes(selected_fields(fields, width)) == classes(ranked_above(fields, t)));
        },
        None => {
            lemma_levels_below_top(fields, highest_rank(fields));
            lemma_select_from_drops_by_rank(fields, droppable(fields), 0, width);
        },
    }
}

proof fn lemma_shorten_keeps_others(fields: Seq<TemplateFieldView>, lowest: i64, i: int, width: int)
    ensures
        shorten_from(fields, lowest, i, width).len() == fields.len(),
        forall|k: int| 0 <= k < fields.len() && rank(fields[k]) != lowest ==> #[trigger] shorten_from(fields, lowest, i, width)[k] == fields[k],
    decreases fields.len() - i,
{
    if i < 0 || i >= fields.len() || fits(fields, width) {
    } else if rank(fields[i]) != lowest || str_width(fields[i].text) <= 3 {
        lemma_shorten_keeps_others(fields, lowest, i + 1, width);
    } else {
        let value_width = str_width(fields[i].text) as int;
        let overflow = str_width(joined_fields(fields, true)) - width;
        let reduction = if overflow < value_width - 3 { overflow } else { value_width - 3 };
        let next = fields.update(i, retexted(fields[i], dotted(fields[i].text, value_width - reduction)));
        lemma_shorten_keeps_others(next, lowest, i + 1, width);
        assert forall|k: int| 0 <= k < fields.len() && rank(fields[k]) != lowest implies #[trigger] shorten_from(fields, lowest, i, width)[k] == fields[k] by {
            assert(next[k] == fields[k]);
            assert(rank(next[k]) != lowest);
        }
    }
}

/// Shortening comes before dropping: when cutting the lowest-ranked fields
/// makes the line fit, every field is shown, in order, and only fields of
/// the lowest rank have their text cut.
pub proof fn lemma_shortening_before_dropping(fields: Seq<TemplateFieldView>, width: int)
    requires
        fitted(fields, width) is Some,
    ensures
        classes(selected_fields(fields, width)) == classes(fields),
        forall|i: int| 0 <= i < fields.len() && rank(fields[i]) != lowest_rank(fields) ==> #[trigger] selected_fields(fields, width)[i] == fields[i],
{
    lemma_fitted_keeps_classes(fields, width);
    if !fits(fields, width) && fields.len() > 0 {
        lemma_shorten_keeps_others(fields, lowest_rank(fields), 0, width);
    }
}

} // verus!
