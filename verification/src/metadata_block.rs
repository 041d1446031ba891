//! The metadata view of a tab: the lines the rail shows when its
//! `rail_view "metadata"` projection is on, listing what is known of a tab.

use vstd::prelude::*;
use crate::text::{string_views, spaces, push_char, push_text, push_decimal, decimal, signed_decimal, signed_decimal_text, bool_text, bool_text_spec, blank, text_equals};
use crate::model::{MetadataValue, MetadataSourceEntry, Priority, ReachableMetadataIdentity, TabGroupingInfo, TabStatusSummary, GroupPath};
use crate::render::{
    format_metadata_value, metadata_value_text, format_pane_target, pane_target_text, push_metadata_text_line,
    push_metadata_section_header, push_reachable_identity_lines, push_aligned_table, section_header, table_lines,
    reachable_columns, reachable_rows, byte_len, cells_fit, row_views, ColumnAlign, TableColumn, lemma_byte_len_bound,
};

verus! {

/// A tab card as the metadata view reads it. Metadata and its sources are
/// held in ascending key order, each key once.
#[derive(Debug, Clone)]
pub struct RenderCard {
    pub tab_id: u64,
    pub position: usize,
    pub name: String,
    pub active: bool,
    pub pinned: bool,
    pub status: Option<TabStatusSummary>,
    pub metadata: Vec<(String, MetadataValue)>,
    pub metadata_sources: Vec<(String, Vec<MetadataSourceEntry>)>,
    pub reachable_identities: Vec<ReachableMetadataIdentity>,
    /// The resolved template of each of the card's slots, by slot name, in
    /// the order the view lists them; a slot without a template is left out.
    pub template_dumps: Vec<(String, String)>,
}

/// A tab as the rail lays it out: its card, its indent and its group.
#[derive(Debug, Clone)]
pub struct RenderTab {
    pub card: RenderCard,
    pub indent: usize,
    pub grouping: Option<TabGroupingInfo>,
}

// ---------------------------------------------------------------------------
// Lines

/// `indent` spaces, `key: value`.
pub open spec fn text_line(indent: nat, key: Seq<char>, value: Seq<char>) -> Seq<char> {
    spaces(indent) + key + seq![':', ' '] + value
}

/// The value stored under `key`: the first entry with that key.
pub open spec fn metadata_lookup(entries: Seq<(String, MetadataValue)>, key: Seq<char>) -> Option<MetadataValue>
    decreases entries.len(),
{
    if entries.len() == 0 {
        None
    } else if entries[0].0@ == key {
        Some(entries[0].1)
    } else {
        metadata_lookup(entries.drop_first(), key)
    }
}

/// The text stored under `key`, when it is text.
pub open spec fn metadata_text_of(entries: Seq<(String, MetadataValue)>, key: Seq<char>) -> Option<Seq<char>> {
    match metadata_lookup(entries, key) {
        Some(MetadataValue::Text(t)) => Some(t@),
        _ => None,
    }
}

/// The value stored under `key`, written out.
pub open spec fn metadata_display_of(entries: Seq<(String, MetadataValue)>, key: Seq<char>) -> Option<Seq<char>> {
    match metadata_lookup(entries, key) {
        Some(v) => Some(metadata_value_text(v)),
        None => None,
    }
}

fn metadata_get<'a>(entries: &'a Vec<(String, MetadataValue)>, key: &str) -> (r: Option<&'a MetadataValue>)
    ensures
        match r {
            Some(v) => metadata_lookup(entries@, key@) == Some(*v),
            None => metadata_lookup(entries@, key@) is None,
        },
{
    let mut i: usize = 0;
    proof {
        assert(entries@.skip(0) =~= entries@);
    }
    while i < entries.len()
        invariant
            i <= entries@.len(),
            metadata_lookup(entries@, key@) == metadata_lookup(entries@.skip(i as int), key@),
        decreases entries.len() - i,
    {
        proof {
            assert(entries@.skip(i as int).drop_first() =~= entries@.skip(i + 1));
            assert(entries@.skip(i as int)[0] == entries@[i as int]);
        }
        if text_equals(entries[i].0.as_str(), key) {
            return Some(&entries[i].1);
        }
        i = i + 1;
    }
    proof {
        assert(entries@.skip(i as int) =~= Seq::<(String, MetadataValue)>::empty());
    }
    None
}

/// The text under `key`, when it is text.
fn metadata_text<'a>(entries: &'a Vec<(String, MetadataValue)>, key: &str) -> (r: Option<&'a str>)
    ensures
        match r {
            Some(t) => metadata_text_of(entries@, key@) == Some(t@),
            None => metadata_text_of(entries@, key@) is None,
        },
{
    match metadata_get(entries, key) {
        Some(MetadataValue::Text(value)) => Some(value.as_str()),
        _ => None,
    }
}

/// The value under `key`, written out.
fn metadata_display_value(entries: &Vec<(String, MetadataValue)>, key: &str) -> (r: Option<String>)
    ensures
        match r {
            Some(t) => metadata_display_of(entries@, key@) == Some(t@),
            None => metadata_display_of(entries@, key@) is None,
        },
{
    match metadata_get(entries, key) {
        Some(value) => Some(format_metadata_value(value)),
        None => None,
    }
}

fn push_line(lines: &mut Vec<String>, indent: usize, key: &str, value: &str)
    ensures
        string_views(final(lines)@) == string_views(old(lines)@).push(text_line(indent as nat, key@, value@)),
{
    let ghost before = lines@;
    push_metadata_text_line(lines, indent, key, value);
    proof {
        assert(string_views(lines@) =~= string_views(before).push(text_line(indent as nat, key@, value@)));
    }
}

fn push_section(lines: &mut Vec<String>, indent: usize, label: &str)
    ensures
        string_views(final(lines)@) == string_views(old(lines)@).push(section_header(indent as nat, label@)),
{
    let ghost before = lines@;
    push_metadata_section_header(lines, indent, label);
    proof {
        assert(string_views(lines@) =~= string_views(before).push(section_header(indent as nat, label@)));
    }
}

// ---------------------------------------------------------------------------
// Splitting text into lines

/// The lines of `s`, as `str::lines` gives them, with `cur` the start of the
/// line being read: lines end at `\n`, a `\r` just before it is dropped,
/// and a last line without `\n` counts when it is not empty.
pub open spec fn lines_from(s: Seq<char>, cur: Seq<char>) -> Seq<Seq<char>>
    decreases s.len(),
{
    if s.len() == 0 {
        if cur.len() == 0 {
            Seq::empty()
        } else {
            seq![cur]
        }
    } else if s[0] == '\n' {
        seq![without_cr(cur)] + lines_from(s.drop_first(), Seq::empty())
    } else {
        lines_from(s.drop_first(), cur.push(s[0]))
    }
}

/// `line` without one trailing `\r`.
pub open spec fn without_cr(line: Seq<char>) -> Seq<char> {
    if line.len() > 0 && line.last() == '\r' {
        line.drop_last()
    } else {
        line
    }
}

/// The lines of `s`, as `str::lines` gives them.
pub open spec fn text_lines(s: Seq<char>) -> Seq<Seq<char>> {
    lines_from(s, Seq::empty())
}

fn chars_to_string(chars: &Vec<char>, end: usize) -> (s: String)
    requires
        end <= chars@.len(),
    ensures
        s@ == chars@.take(end as int),
{
    let mut s = String::new();
    let mut i: usize = 0;
    while i < end
        invariant
            i <= end <= chars@.len(),
            s@ == chars@.take(i as int),
        decreases end - i,
    {
        push_char(&mut s, chars[i]);
        proof {
            assert(chars@.take(i + 1) =~= chars@.take(i as int).push(chars@[i as int]));
        }
        i = i + 1;
    }
    s
}

/// Splits `text` into lines as `str::lines` does.
fn split_lines(text: &str) -> (r: Vec<String>)
    ensures
        string_views(r@) == text_lines(text@),
{
    let chars = crate::text::chars_of(text);
    let ghost s = chars@;
    let mut out: Vec<String> = Vec::new();
    let mut cur: Vec<char> = Vec::new();
    let mut i: usize = 0;
    proof {
        assert(s.skip(0) =~= s);
    }
    while i < chars.len()
        invariant
            s == chars@,
            s == text@,
            i <= s.len(),
            string_views(out@) + lines_from(s.skip(i as int), cur@) == text_lines(s),
        decreases chars.len() - i,
    {
        let c = chars[i];
        proof {
            assert(s.skip(i as int).drop_first() =~= s.skip(i + 1));
            assert(s.skip(i as int)[0] == c);
        }
        if c == '\n' {
            let n = cur.len();
            let end = if n > 0 && cur[n - 1] == '\r' { n - 1 } else { n };
            let line = chars_to_string(&cur, end);
            proof {
                assert(line@ == without_cr(cur@)) by {
                    if n > 0 && cur@[n - 1] == '\r' {
                        assert(cur@.take(end as int) =~= cur@.drop_last());
                    } else {
                        assert(cur@.take(end as int) =~= cur@);
                    }
                }
                assert(string_views(out@.push(line)) =~= string_views(out@).push(line@));
                assert(string_views(out@).push(line@) + lines_from(s.skip(i + 1), Seq::empty()) =~= string_views(out@)
                    + (seq![without_cr(cur@)] + lines_from(s.skip(i + 1), Seq::empty())));
            }
            out.push(line);
            cur = Vec::new();
            proof {
                assert(cur@ =~= Seq::<char>::empty());
            }
        } else {
            cur.push(c);
        }
        i = i + 1;
    }
    proof {
        assert(s.skip(i as int) =~= Seq::<char>::empty());
    }
    if cur.len() > 0 {
        let n = cur.len();
        let line = chars_to_string(&cur, n);
        proof {
            assert(cur@.take(n as int) =~= cur@);
            assert(string_views(out@.push(line)) =~= string_views(out@).push(line@));
            assert(string_views(out@) + seq![cur@] =~= string_views(out@).push(cur@));
        }
        out.push(line);
    } else {
        proof {
            assert(string_views(out@) + Seq::<Seq<char>>::empty() =~= string_views(out@));
        }
    }
    out
}

// ---------------------------------------------------------------------------
// Sections

/// The keys the metadata view shows in their own lines or sections.
pub open spec fn listed_tab_key(k: Seq<char>) -> bool {
    ||| k == "zellij.tab.id"@
    ||| k == "zellij.tab.position"@
    ||| k == "zellij.tab.name"@
    ||| k == "zellij.tab.active"@
    ||| k == "rail.tab.pinned"@
    ||| k == "group.label"@
    ||| k == "group.full_label"@
    ||| k == "status.priority"@
    ||| k == "status.title"@
    ||| k == "status.detail"@
    ||| k == "status.source_pane"@
}

fn is_listed_tab_key(k: &str) -> (r: bool)
    ensures
        r == listed_tab_key(k@),
{
    text_equals(k, "zellij.tab.id") || text_equals(k, "zellij.tab.position") || text_equals(k, "zellij.tab.name")
        || text_equals(k, "zellij.tab.active") || text_equals(k, "rail.tab.pinned") || text_equals(k, "group.label")
        || text_equals(k, "group.full_label") || text_equals(k, "status.priority") || text_equals(k, "status.title")
        || text_equals(k, "status.detail") || text_equals(k, "status.source_pane")
}

/// A `key: value` line for each entry whose key is not listed, in order.
pub open spec fn additional_lines(entries: Seq<(String, MetadataValue)>, indent: nat) -> Seq<Seq<char>>
    decreases entries.len(),
{
    if entries.len() == 0 {
        Seq::empty()
    } else {
        let prev = additional_lines(entries.drop_last(), indent);
        let e = entries.last();
        if listed_tab_key(e.0@) {
            prev
        } else {
            prev.push(text_line(indent, e.0@, metadata_value_text(e.1)))
        }
    }
}

fn push_additional_metadata_lines(lines: &mut Vec<String>, indent: usize, entries: &Vec<(String, MetadataValue)>)
    ensures
        string_views(final(lines)@) == string_views(old(lines)@) + additional_lines(entries@, indent as nat),
{
    let ghost before = string_views(lines@);
    let mut i: usize = 0;
    proof {
        assert(entries@.take(0) =~= Seq::<(String, MetadataValue)>::empty());
        assert(before + Seq::<Seq<char>>::empty() =~= before);
    }
    while i < entries.len()
        invariant
            i <= entries@.len(),
            string_views(lines@) == before + additional_lines(entries@.take(i as int), indent as nat),
        decreases entries.len() - i,
    {
        proof {
            assert(entries@.take(i + 1).drop_last() =~= entries@.take(i as int));
            assert(entries@.take(i + 1).last() == entries@[i as int]);
        }
        if !is_listed_tab_key(entries[i].0.as_str()) {
            let value = format_metadata_value(&entries[i].1);
            push_line(lines, indent, entries[i].0.as_str(), value.as_str());
            proof {
                assert(before + additional_lines(entries@.take(i as int), indent as nat).push(
                    text_line(indent as nat, entries@[i as int].0@, metadata_value_text(entries@[i as int].1)),
                ) =~= (before + additional_lines(entries@.take(i as int), indent as nat)).push(
                    text_line(indent as nat, entries@[i as int].0@, metadata_value_text(entries@[i as int].1)),
                ));
            }
        }
        i = i + 1;
    }
    proof {
        assert(entries@.take(entries@.len() as int) =~= entries@);
    }
}

/// The row of the sources table for one source of `key`.
pub open spec fn source_row(key: Seq<char>, e: MetadataSourceEntry) -> Seq<Seq<char>> {
    seq![
        key,
        e.source_id@,
        metadata_value_text(e.entry.value),
        decimal(e.entry.updated_at as nat),
        match e.entry.ttl_ms {
            Some(t) => decimal(t as nat),
            None => seq!['-'],
        },
        signed_decimal(e.entry.precedence as int),
        signed_decimal(e.entry.ordinal as int),
    ]
}

/// A row per source of each key, keys in order.
pub open spec fn source_rows(sources: Seq<(String, Vec<MetadataSourceEntry>)>) -> Seq<Seq<Seq<char>>>
    decreases sources.len(),
{
    if sources.len() == 0 {
        Seq::empty()
    } else {
        let last = sources.last();
        source_rows(sources.drop_last()) + last.1@.map_values(|e: MetadataSourceEntry| source_row(last.0@, e))
    }
}

pub open spec fn source_columns() -> Seq<TableColumn> {
    seq![
        TableColumn { header: "key", align: ColumnAlign::Left },
        TableColumn { header: "src", align: ColumnAlign::Left },
        TableColumn { header: "value", align: ColumnAlign::Left },
        TableColumn { header: "updated", align: ColumnAlign::Right },
        TableColumn { header: "ttl", align: ColumnAlign::Right },
        TableColumn { header: "prec", align: ColumnAlign::Right },
        TableColumn { header: "ord", align: ColumnAlign::Right },
    ]
}

/// The `[sources]` section with a table of every source of every key;
/// nothing when no key has a source.
pub open spec fn source_detail_lines(sources: Seq<(String, Vec<MetadataSourceEntry>)>, indent: nat) -> Seq<Seq<char>> {
    if source_rows(sources).len() == 0 {
        Seq::empty()
    } else {
        seq![section_header(indent, "sources"@)] + table_lines(indent + 2, source_columns(), source_rows(sources))
    }
}

fn source_row_of(key: &String, e: &MetadataSourceEntry) -> (row: Vec<String>)
    ensures
        string_views(row@) == source_row(key@, *e),
{
    let mut updated = String::new();
    push_decimal(&mut updated, e.entry.updated_at);
    let ttl = match e.entry.ttl_ms {
        Some(t) => {
            let mut s = String::new();
            push_decimal(&mut s, t);
            s
        },
        None => {
            let mut s = String::new();
            push_char(&mut s, '-');
            s
        },
    };
    let row = vec![
        key.clone(),
        e.source_id.clone(),
        format_metadata_value(&e.entry.value),
        updated,
        ttl,
        signed_decimal_text(e.entry.precedence),
        signed_decimal_text(e.entry.ordinal),
    ];
    proof {
        assert(string_views(row@) =~= source_row(key@, *e));
    }
    row
}

fn push_metadata_source_detail_lines(lines: &mut Vec<String>, indent: usize, sources: &Vec<(String, Vec<MetadataSourceEntry>)>)
    requires
        indent + 2 <= usize::MAX,
        cells_fit(source_rows(sources@)),
    ensures
        string_views(final(lines)@) == string_views(old(lines)@) + source_detail_lines(sources@, indent as nat),
{
    let ghost before = string_views(lines@);
    let mut rows: Vec<Vec<String>> = Vec::new();
    let mut i: usize = 0;
    proof {
        assert(sources@.take(0) =~= Seq::<(String, Vec<MetadataSourceEntry>)>::empty());
    }
    while i < sources.len()
        invariant
            i <= sources@.len(),
            row_views(rows@) == source_rows(sources@.take(i as int)),
        decreases sources.len() - i,
    {
        let key = &sources[i].0;
        let entries = &sources[i].1;
        let ghost base = row_views(rows@);
        let mut j: usize = 0;
        while j < entries.len()
            invariant
                j <= entries@.len(),
                key == &sources@[i as int].0,
                entries == &sources@[i as int].1,
                row_views(rows@) == base + entries@.take(j as int).map_values(|e: MetadataSourceEntry| source_row(key@, e)),
            decreases entries.len() - j,
        {
            let row = source_row_of(key, &entries[j]);
            proof {
                assert(row_views(rows@.push(row)) =~= row_views(rows@).push(string_views(row@)));
                assert(entries@.take(j + 1).map_values(|e: MetadataSourceEntry| source_row(key@, e)) =~= entries@.take(
                    j as int,
                ).map_values(|e: MetadataSourceEntry| source_row(key@, e)).push(source_row(key@, entries@[j as int])));
            }
            rows.push(row);
            j = j + 1;
        }
        proof {
            assert(entries@.take(entries@.len() as int) =~= entries@);
            assert(sources@.take(i + 1).drop_last() =~= sources@.take(i as int));
            assert(sources@.take(i + 1).last() == sources@[i as int]);
        }
        i = i + 1;
    }
    proof {
        assert(sources@.take(sources@.len() as int) =~= sources@);
    }
    if rows.len() == 0 {
        proof {
            assert(before + Seq::<Seq<char>>::empty() =~= before);
        }
        return;
    }
    push_section(lines, indent, "sources");
    let columns = vec![
        TableColumn { header: "key", align: ColumnAlign::Left },
        TableColumn { header: "src", align: ColumnAlign::Left },
        TableColumn { header: "value", align: ColumnAlign::Left },
        TableColumn { header: "updated", align: ColumnAlign::Right },
        TableColumn { header: "ttl", align: ColumnAlign::Right },
        TableColumn { header: "prec", align: ColumnAlign::Right },
        TableColumn { header: "ord", align: ColumnAlign::Right },
    ];
    proof {
        assert(columns@ =~= source_columns());
        assert forall|k: int| 0 <= k < columns@.len() implies byte_len(#[trigger] columns@[k].header@) <= usize::MAX by {
            lemma_byte_len_bound(columns@[k].header@);
            reveal_strlit("key");
            reveal_strlit("src");
            reveal_strlit("value");
            reveal_strlit("updated");
            reveal_strlit("ttl");
            reveal_strlit("prec");
            reveal_strlit("ord");
        }
    }
    let ghost mid = string_views(lines@);
    push_aligned_table(lines, indent + 2, columns.as_slice(), rows.as_slice());
    proof {
        assert(before.push(section_header(indent as nat, "sources"@)) + table_lines((indent + 2) as nat, source_columns(), source_rows(sources@))
            =~= before + (seq![section_header(indent as nat, "sources"@)] + table_lines((indent + 2) as nat, source_columns(), source_rows(sources@))));
    }
}

/// The `[reachable_identities]` section; nothing when there are none.
pub open spec fn reachable_lines(reachable: Seq<ReachableMetadataIdentity>, indent: nat) -> Seq<Seq<char>> {
    if reachable.len() == 0 {
        Seq::empty()
    } else {
        seq![section_header(indent, "reachable_identities"@)] + table_lines(indent + 2, reachable_columns(), reachable_rows(reachable))
    }
}

/// The lines of each resolved template: `// slot: name`, then the
/// template's own lines, all at `indent`.
pub open spec fn dump_lines(dumps: Seq<(String, String)>, indent: nat) -> Seq<Seq<char>>
    decreases dumps.len(),
{
    if dumps.len() == 0 {
        Seq::empty()
    } else {
        dump_lines(dumps.drop_last(), indent) + seq![spaces(indent) + "// slot: "@ + dumps.last().0@]
            + text_lines(dumps.last().1@).map_values(|l: Seq<char>| spaces(indent) + l)
    }
}

/// The `[resolved_template]` section; nothing when no slot has a template.
pub open spec fn template_section(dumps: Seq<(String, String)>, indent: nat) -> Seq<Seq<char>> {
    if dumps.len() == 0 {
        Seq::empty()
    } else {
        seq![section_header(indent, "resolved_template"@)] + dump_lines(dumps, indent + 2)
    }
}

fn push_effective_template_section(lines: &mut Vec<String>, indent: usize, dumps: &Vec<(String, String)>)
    requires
        indent + 2 <= usize::MAX,
    ensures
        string_views(final(lines)@) == string_views(old(lines)@) + template_section(dumps@, indent as nat),
{
    let ghost before = string_views(lines@);
    if dumps.len() == 0 {
        proof {
            assert(before + Seq::<Seq<char>>::empty() =~= before);
        }
        return;
    }
    push_section(lines, indent, "resolved_template");
    let ghost head = string_views(lines@);
    let inner = indent + 2;
    let mut i: usize = 0;
    proof {
        assert(dumps@.take(0) =~= Seq::<(String, String)>::empty());
        assert(head + Seq::<Seq<char>>::empty() =~= head);
    }
    while i < dumps.len()
        invariant
            i <= dumps@.len(),
            inner == indent + 2,
            string_views(lines@) == head + dump_lines(dumps@.take(i as int), inner as nat),
        decreases dumps.len() - i,
    {
        let ghost at = string_views(lines@);
        let mut slot_line = blank(inner);
        push_text(&mut slot_line, "// slot: ");
        push_text(&mut slot_line, dumps[i].0.as_str());
        lines.push(slot_line);
        let parts = split_lines(dumps[i].1.as_str());
        let ghost at2 = string_views(lines@);
        proof {
            assert(at2 =~= at.push(spaces(inner as nat) + "// slot: "@ + dumps@[i as int].0@));
        }
        let mut k: usize = 0;
        while k < parts.len()
            invariant
                k <= parts@.len(),
                string_views(lines@) == at2 + string_views(parts@).take(k as int).map_values(|l: Seq<char>| spaces(inner as nat) + l),
            decreases parts.len() - k,
        {
            let mut line = blank(inner);
            push_text(&mut line, parts[k].as_str());
            let ghost prev = lines@;
            lines.push(line);
            proof {
                assert(string_views(lines@) =~= string_views(prev).push(line@));
                assert(string_views(parts@).take(k + 1).map_values(|l: Seq<char>| spaces(inner as nat) + l) =~= string_views(
                    parts@,
                ).take(k as int).map_values(|l: Seq<char>| spaces(inner as nat) + l).push(spaces(inner as nat) + parts@[k as int]@));
            }
            k = k + 1;
        }
        proof {
            assert(string_views(parts@).take(parts@.len() as int) =~= string_views(parts@));
            assert(dumps@.take(i + 1).drop_last() =~= dumps@.take(i as int));
            assert(dumps@.take(i + 1).last() == dumps@[i as int]);
            assert(string_views(lines@) =~= head + dump_lines(dumps@.take(i + 1), inner as nat));
        }
        i = i + 1;
    }
    proof {
        assert(dumps@.take(dumps@.len() as int) =~= dumps@);
        assert(before.push(section_header(indent as nat, "resolved_template"@)) + dump_lines(dumps@, (indent + 2) as nat)
            =~= before + template_section(dumps@, indent as nat));
    }
}

/// A `key: value` line for each step of a group path.
pub open spec fn group_path_lines(path: GroupPath, indent: nat) -> Seq<Seq<char>> {
    path.0@.map_values(|seg: crate::model::GroupSegment| text_line(indent, seg.key@, metadata_value_text(seg.value)))
}

fn push_group_path_metadata(lines: &mut Vec<String>, indent: usize, path: &GroupPath)
    ensures
        string_views(final(lines)@) == string_views(old(lines)@) + group_path_lines(*path, indent as nat),
{
    let ghost before = string_views(lines@);
    let mut i: usize = 0;
    proof {
        assert(group_path_lines(*path, indent as nat).take(0) =~= Seq::<Seq<char>>::empty());
        assert(before + Seq::<Seq<char>>::empty() =~= before);
    }
    while i < path.0.len()
        invariant
            i <= path.0@.len(),
            string_views(lines@) == before + group_path_lines(*path, indent as nat).take(i as int),
        decreases path.0.len() - i,
    {
        let value = format_metadata_value(&path.0[i].value);
        push_line(lines, indent, path.0[i].key.as_str(), value.as_str());
        proof {
            let g = group_path_lines(*path, indent as nat);
            assert(g.take(i + 1) =~= g.take(i as int).push(g[i as int]));
        }
        i = i + 1;
    }
    proof {
        let g = group_path_lines(*path, indent as nat);
        assert(g.take(path.0@.len() as int) =~= g);
    }
}

/// The `[grouping]` section of a grouped tab: its label, full label and path.
pub open spec fn grouping_lines(grouping: Option<TabGroupingInfo>, indent: nat) -> Seq<Seq<char>> {
    match grouping {
        None => Seq::empty(),
        Some(g) => seq![
            section_header(indent, "grouping"@),
            text_line(indent + 2, "group.label"@, g.label@),
            text_line(indent + 2, "group.full_label"@, g.full_label@),
        ] + group_path_lines(g.path, indent + 2),
    }
}

/// The lower-case name of a status priority.
pub open spec fn priority_word(p: Priority) -> Seq<char> {
    match p {
        Priority::Idle => "idle"@,
        Priority::Info => "info"@,
        Priority::Success => "success"@,
        Priority::Waiting => "waiting"@,
        Priority::Warning => "warning"@,
        Priority::Error => "error"@,
    }
}

fn priority_name(p: Priority) -> (s: &'static str)
    ensures
        s@ == priority_word(p),
{
    match p {
        Priority::Idle => "idle",
        Priority::Info => "info",
        Priority::Success => "success",
        Priority::Waiting => "waiting",
        Priority::Warning => "warning",
        Priority::Error => "error",
    }
}

/// The `[status]` section of a tab with a status: its priority, title,
/// detail when there is one, and the pane it came from.
pub open spec fn status_lines(status: Option<TabStatusSummary>, indent: nat) -> Seq<Seq<char>> {
    match status {
        None => Seq::empty(),
        Some(st) => seq![
            section_header(indent, "status"@),
            text_line(indent + 2, "status.priority"@, priority_word(st.priority)),
            text_line(indent + 2, "status.title"@, st.title@),
        ] + match st.detail {
            Some(d) => seq![text_line(indent + 2, "status.detail"@, d@)],
            None => Seq::empty(),
        } + seq![text_line(indent + 2, "status.source_pane"@, pane_target_text(st.source_pane))],
    }
}

/// `value`, or `fallback` when there is none.
pub open spec fn or_else(value: Option<Seq<char>>, fallback: Seq<char>) -> Seq<char> {
    match value {
        Some(v) => v,
        None => fallback,
    }
}

/// The first lines of a tab's metadata view: the tab's name, then its
/// identity, position, activity and pin, from its metadata where set.
pub open spec fn tab_header_lines(tab: RenderTab) -> Seq<Seq<char>> {
    let c = tab.card;
    let i = tab.indent as nat;
    let md = c.metadata@;
    seq![
        text_line(i, "tab"@, or_else(metadata_text_of(md, "zellij.tab.name"@), c.name@)),
        section_header(i + 2, "metadata"@),
        text_line(i + 4, "zellij.tab.id"@, or_else(metadata_display_of(md, "zellij.tab.id"@), decimal(c.tab_id as nat))),
        text_line(i + 4, "zellij.tab.position"@, or_else(metadata_display_of(md, "zellij.tab.position"@), decimal(c.position as nat))),
        text_line(i + 4, "zellij.tab.active"@, or_else(metadata_display_of(md, "zellij.tab.active"@), bool_text_spec(c.active))),
        text_line(i + 4, "rail.tab.pinned"@, or_else(metadata_display_of(md, "rail.tab.pinned"@), bool_text_spec(c.pinned))),
    ]
}

/// The lines of a tab's metadata view: the tab's name, its metadata
/// (identity, position, activity, pin, then every other key), the sources
/// of its metadata, the identities it reaches, its resolved templates, its
/// grouping and its status.
pub open spec fn metadata_block_lines(tab: RenderTab) -> Seq<Seq<char>> {
    let c = tab.card;
    let i = tab.indent as nat;
    tab_header_lines(tab) + additional_lines(c.metadata@, i + 4) + source_detail_lines(c.metadata_sources@, i + 2)
        + reachable_lines(c.reachable_identities@, i + 2) + template_section(c.template_dumps@, i + 2)
        + grouping_lines(tab.grouping, i + 2) + status_lines(c.status, i + 2)
}

fn push_tab_header_lines(lines: &mut Vec<String>, tab: &RenderTab)
    requires
        tab.indent + 6 <= usize::MAX,
    ensures
        string_views(final(lines)@) == string_views(old(lines)@) + tab_header_lines(*tab),
{
    let ghost before = string_views(lines@);
    let indent = tab.indent;
    let card = &tab.card;
    let name = match metadata_text(&card.metadata, "zellij.tab.name") {
        Some(n) => n,
        None => card.name.as_str(),
    };
    push_line(lines, indent, "tab", name);
    push_section(lines, indent + 2, "metadata");
    let id = match metadata_display_value(&card.metadata, "zellij.tab.id") {
        Some(v) => v,
        None => {
            let mut s = String::new();
            push_decimal(&mut s, card.tab_id);
            s
        },
    };
    push_line(lines, indent + 4, "zellij.tab.id", id.as_str());
    let position = match metadata_display_value(&card.metadata, "zellij.tab.position") {
        Some(v) => v,
        None => {
            let mut s = String::new();
            push_decimal(&mut s, card.position as u64);
            s
        },
    };
    push_line(lines, indent + 4, "zellij.tab.position", position.as_str());
    let active = match metadata_display_value(&card.metadata, "zellij.tab.active") {
        Some(v) => v,
        None => bool_text(card.active).to_owned(),
    };
    push_line(lines, indent + 4, "zellij.tab.active", active.as_str());
    let pinned = match metadata_display_value(&card.metadata, "rail.tab.pinned") {
        Some(v) => v,
        None => bool_text(card.pinned).to_owned(),
    };
    push_line(lines, indent + 4, "rail.tab.pinned", pinned.as_str());
    proof {
        assert(string_views(lines@) =~= before + tab_header_lines(*tab));
    }
}

fn push_reachable_section(lines: &mut Vec<String>, indent: usize, reachable: &Vec<ReachableMetadataIdentity>)
    requires
        indent + 2 <= usize::MAX,
        forall|i: int| 0 <= i < reachable@.len() ==> byte_len(#[trigger] reachable@[i].identity.key@) <= usize::MAX
            && byte_len(metadata_value_text(reachable@[i].identity.value)) <= usize::MAX,
    ensures
        string_views(final(lines)@) == string_views(old(lines)@) + reachable_lines(reachable@, indent as nat),
{
    let ghost before = string_views(lines@);
    push_reachable_identity_lines(lines, indent, reachable.as_slice());
    proof {
        assert(string_views(lines@) =~= before + reachable_lines(reachable@, indent as nat));
    }
}

fn push_grouping_section(lines: &mut Vec<String>, indent: usize, grouping: &Option<TabGroupingInfo>)
    requires
        indent + 2 <= usize::MAX,
    ensures
        string_views(final(lines)@) == string_views(old(lines)@) + grouping_lines(*grouping, indent as nat),
{
    let ghost before = string_views(lines@);
    match grouping {
        Some(g) => {
            push_section(lines, indent, "grouping");
            push_line(lines, indent + 2, "group.label", g.label.as_str());
            push_line(lines, indent + 2, "group.full_label", g.full_label.as_str());
            push_group_path_metadata(lines, indent + 2, &g.path);
        },
        None => {},
    }
    proof {
        assert(string_views(lines@) =~= before + grouping_lines(*grouping, indent as nat));
    }
}

fn push_status_section(lines: &mut Vec<String>, indent: usize, status: &Option<TabStatusSummary>)
    requires
        indent + 2 <= usize::MAX,
    ensures
        string_views(final(lines)@) == string_views(old(lines)@) + status_lines(*status, indent as nat),
{
    let ghost before = string_views(lines@);
    match status {
        Some(st) => {
            push_section(lines, indent, "status");
            push_line(lines, indent + 2, "status.priority", priority_name(st.priority));
            push_line(lines, indent + 2, "status.title", st.title.as_str());
            match &st.detail {
                Some(detail) => {
                    push_line(lines, indent + 2, "status.detail", detail.as_str());
                },
                None => {},
            }
            let pane = format_pane_target(st.source_pane);
            push_line(lines, indent + 2, "status.source_pane", pane.as_str());
        },
        None => {},
    }
    proof {
        assert(string_views(lines@) =~= before + status_lines(*status, indent as nat));
    }
}

/// The metadata view of a tab, one line per entry.
pub fn tab_metadata_block(tab: &RenderTab) -> (lines: Vec<String>)
    requires
        tab.indent + 6 <= usize::MAX,
        cells_fit(source_rows(tab.card.metadata_sources@)),
        forall|i: int| 0 <= i < tab.card.reachable_identities@.len() ==> byte_len(#[trigger] tab.card.reachable_identities@[i].identity.key@) <= usize::MAX
            && byte_len(metadata_value_text(tab.card.reachable_identities@[i].identity.value)) <= usize::MAX,
    ensures
        string_views(lines@) == metadata_block_lines(*tab),
{
    let mut lines: Vec<String> = Vec::new();
    let indent = tab.indent;
    let card = &tab.card;
    proof {
        assert(string_views(lines@) =~= Seq::<Seq<char>>::empty());
    }
    push_tab_header_lines(&mut lines, tab);
    push_additional_metadata_lines(&mut lines, indent + 4, &card.metadata);
    push_metadata_source_detail_lines(&mut lines, indent + 2, &card.metadata_sources);
    push_reachable_section(&mut lines, indent + 2, &card.reachable_identities);
    push_effective_template_section(&mut lines, indent + 2, &card.template_dumps);
    push_grouping_section(&mut lines, indent + 2, &tab.grouping);
    push_status_section(&mut lines, indent + 2, &card.status);
    proof {
        assert(Seq::<Seq<char>>::empty() + tab_header_lines(*tab) =~= tab_header_lines(*tab));
    }
    lines
}

/// A tab with a status ends its metadata view with the status: its title,
/// then its detail when it has one, then the pane it came from, each at
/// four columns past the tab's indent.
pub proof fn lemma_metadata_view_ends_with_status(tab: RenderTab)
    requires
        tab.card.status is Some,
    ensures
        ({
            let lines = metadata_block_lines(tab);
            let n = lines.len() as int;
            let st = tab.card.status->0;
            let i = tab.indent as nat + 4;
            &&& lines[n - 1] == text_line(i, "status.source_pane"@, pane_target_text(st.source_pane))
            &&& match st.detail {
                Some(d) => {
                    &&& lines[n - 2] == text_line(i, "status.detail"@, d@)
                    &&& lines[n - 3] == text_line(i, "status.title"@, st.title@)
                },
                None => lines[n - 2] == text_line(i, "status.title"@, st.title@),
            }
        }),
{
    let c = tab.card;
    let ind = tab.indent as nat;
    let front = tab_header_lines(tab) + additional_lines(c.metadata@, ind + 4) + source_detail_lines(c.metadata_sources@, ind + 2)
        + reachable_lines(c.reachable_identities@, ind + 2) + template_section(c.template_dumps@, ind + 2)
        + grouping_lines(tab.grouping, ind + 2);
    let tail = status_lines(c.status, ind + 2);
    let lines = metadata_block_lines(tab);
    assert(lines == front + tail);
    let n = lines.len() as int;
    let m = tail.len() as int;
    assert forall|k: int| 0 <= k < m implies lines[front.len() + k] == tail[k] by {}
    assert(lines[n - 1] == tail[m - 1]);
    assert(lines[n - 2] == tail[m - 2]);
    let st = c.status->0;
    if st.detail is Some {
        assert(lines[n - 3] == tail[m - 3]);
    }
}

} // verus!
