//! Per-plugin counters and timing spans, reported in name order.

use vstd::prelude::*;
use crate::model::RendererHello;
use crate::text::{chars_of, text_equals};

verus! {

#[derive(Debug, Clone, PartialEq, Eq)]
pub struct PluginStatsSpan {
    pub name: String,
    pub count: u64,
    pub total_us: u64,
    pub max_us: u64,
}

/// A report of one plugin's statistics; counters and spans are in
/// ascending name order, one entry per name.
#[derive(Debug, Clone, PartialEq, Eq)]
pub struct PluginStatsSnapshot {
    pub collection_id: u64,
    pub plugin_id: u32,
    pub client_id: u16,
    pub plugin_kind: String,
    pub counters: Vec<(String, u64)>,
    pub spans: Vec<PluginStatsSpan>,
}

/// Counters and spans keyed by name, each kept in ascending name order.
#[derive(Debug, PartialEq, Eq)]
pub struct PluginStatsRecorder {
    counters: Vec<(String, u64)>,
    spans: Vec<PluginStatsSpan>,
}

/// The figures of a span.
pub struct SpanFigures {
    pub count: u64,
    pub total_us: u64,
    pub max_us: u64,
}

pub struct RecorderView {
    pub counters: Seq<(Seq<char>, u64)>,
    pub spans: Seq<(Seq<char>, SpanFigures)>,
}

pub open spec fn counter_entries(v: Seq<(String, u64)>) -> Seq<(Seq<char>, u64)> {
    v.map_values(|e: (String, u64)| (e.0@, e.1))
}

pub open spec fn span_entries(v: Seq<PluginStatsSpan>) -> Seq<(Seq<char>, SpanFigures)> {
    v.map_values(|s: PluginStatsSpan| (s.name@, SpanFigures { count: s.count, total_us: s.total_us, max_us: s.max_us }))
}

impl View for PluginStatsRecorder {
    type V = RecorderView;

    closed spec fn view(&self) -> RecorderView {
        RecorderView { counters: counter_entries(self.counters@), spans: span_entries(self.spans@) }
    }
}

/// Names ordered character by character (by code point), a proper prefix first.
pub open spec fn name_less(a: Seq<char>, b: Seq<char>) -> bool
    decreases a.len(),
{
    if a.len() == 0 {
        b.len() > 0
    } else if b.len() == 0 {
        false
    } else if a[0] != b[0] {
        (a[0] as int) < (b[0] as int)
    } else {
        name_less(a.drop_first(), b.drop_first())
    }
}

/// Entries in strictly ascending name order.
pub open spec fn ascending<V>(e: Seq<(Seq<char>, V)>) -> bool {
    forall|i: int, j: int| 0 <= i < j < e.len() ==> name_less(e[i].0, e[j].0)
}

/// The value stored under `name`, if any.
pub open spec fn value_of<V>(e: Seq<(Seq<char>, V)>, name: Seq<char>) -> Option<V>
    decreases e.len(),
{
    if e.len() == 0 {
        None
    } else if e.last().0 == name {
        Some(e.last().1)
    } else {
        value_of(e.drop_last(), name)
    }
}

/// `e` with `name` set to `v`: the entry replaced where `name` is, else a new
/// entry put in name order.
pub open spec fn upsert<V>(e: Seq<(Seq<char>, V)>, name: Seq<char>, v: V) -> Seq<(Seq<char>, V)>
    decreases e.len(),
{
    if e.len() == 0 {
        seq![(name, v)]
    } else if name_less(name, e[0].0) {
        seq![(name, v)] + e
    } else if e[0].0 == name {
        seq![(name, v)] + e.drop_first()
    } else {
        seq![e[0]] + upsert(e.drop_first(), name, v)
    }
}

proof fn lemma_name_less_irreflexive(a: Seq<char>)
    ensures
        !name_less(a, a),
    decreases a.len(),
{
    if a.len() > 0 {
        lemma_name_less_irreflexive(a.drop_first());
    }
}

proof fn lemma_name_less_transitive(a: Seq<char>, b: Seq<char>, c: Seq<char>)
    requires
        name_less(a, b),
        name_less(b, c),
    ensures
        name_less(a, c),
    decreases a.len(),
{
    if a.len() > 0 && b.len() > 0 && c.len() > 0 && a[0] == b[0] && b[0] == c[0] {
        lemma_name_less_transitive(a.drop_first(), b.drop_first(), c.drop_first());
    }
}

proof fn lemma_name_less_total(a: Seq<char>, b: Seq<char>)
    ensures
        a == b || name_less(a, b) || name_less(b, a),
    decreases a.len(),
{
    if a.len() > 0 && b.len() > 0 {
        if a[0] == b[0] {
            lemma_name_less_total(a.drop_first(), b.drop_first());
            if a.drop_first() == b.drop_first() {
                assert(a =~= seq![a[0]] + a.drop_first());
                assert(b =~= seq![b[0]] + b.drop_first());
            }
        } else {
            assert((a[0] as int) != (b[0] as int));
        }
    } else if a.len() == 0 && b.len() == 0 {
        assert(a =~= b);
    }
}

/// Whether name `a` comes before name `b`.
fn chars_less(a: &Vec<char>, b: &Vec<char>) -> (r: bool)
    ensures
        r == name_less(a@, b@),
{
    let mut i: usize = 0;
    proof {
        assert(a@.skip(0) =~= a@);
        assert(b@.skip(0) =~= b@);
    }
    while i < a.len() && i < b.len() && a[i] == b[i]
        invariant
            i <= a.len(),
            i <= b.len(),
            name_less(a@, b@) == name_less(a@.skip(i as int), b@.skip(i as int)),
        decreases a.len() - i,
    {
        proof {
            assert(a@.skip(i as int).drop_first() =~= a@.skip(i + 1));
            assert(b@.skip(i as int).drop_first() =~= b@.skip(i + 1));
        }
        i = i + 1;
    }
    if i == a.len() {
        i < b.len()
    } else if i == b.len() {
        false
    } else {
        proof {
            assert(a@.skip(i as int)[0] == a@[i as int]);
            assert(b@.skip(i as int)[0] == b@[i as int]);
        }
        a[i] < b[i]
    }
}


/// With `j` the first entry of an ascending `e` whose name is not before
/// `name`, `upsert` replaces entry `j` when it holds `name` and inserts at
/// `j` otherwise; the result is ascending.
proof fn lemma_upsert_at<V>(e: Seq<(Seq<char>, V)>, name: Seq<char>, v: V, j: int)
    requires
        ascending(e),
        0 <= j <= e.len(),
        forall|k: int| 0 <= k < j ==> name_less(#[trigger] e[k].0, name),
        j < e.len() ==> !name_less(e[j].0, name),
    ensures
        upsert(e, name, v) == (if j < e.len() && e[j].0 == name { e.update(j, (name, v)) } else { e.insert(j, (name, v)) }),
        ascending(upsert(e, name, v)),
    decreases e.len(),
{
    if e.len() == 0 {
        assert(e.insert(j, (name, v)) =~= seq![(name, v)]);
    } else if j == 0 {
        lemma_name_less_total(e[0].0, name);
        if e[0].0 == name {
            assert(e.update(0, (name, v)) =~= seq![(name, v)] + e.drop_first());
            let r = upsert(e, name, v);
            assert forall|a: int, b: int| 0 <= a < b < r.len() implies name_less(r[a].0, r[b].0) by {
                assert(r[b] == e[b]);
                if a > 0 {
                    assert(r[a] == e[a]);
                }
            }
        } else {
            assert(name_less(name, e[0].0));
            assert(e.insert(0, (name, v)) =~= seq![(name, v)] + e);
            let r = upsert(e, name, v);
            assert forall|a: int, b: int| 0 <= a < b < r.len() implies name_less(r[a].0, r[b].0) by {
                assert(r[b] == e[b - 1]);
                if a > 0 {
                    assert(r[a] == e[a - 1]);
                } else if b - 1 > 0 {
                    lemma_name_less_transitive(name, e[0].0, e[b - 1].0);
                }
            }
        }
    } else {
        let rest = e.drop_first();
        assert(name_less(e[0].0, name));
        lemma_name_less_asymmetric(e[0].0, name);
        assert forall|a: int, b: int| 0 <= a < b < rest.len() implies name_less(rest[a].0, rest[b].0) by {
            assert(rest[a] == e[a + 1] && rest[b] == e[b + 1]);
        }
        assert forall|k: int| 0 <= k < j - 1 implies name_less(#[trigger] rest[k].0, name) by {
            assert(rest[k] == e[k + 1]);
        }
        lemma_upsert_at(rest, name, v, j - 1);
        if j < e.len() && e[j].0 == name {
            assert(seq![e[0]] + rest.update(j - 1, (name, v)) =~= e.update(j, (name, v)));
        } else {
            assert(seq![e[0]] + rest.insert(j - 1, (name, v)) =~= e.insert(j, (name, v)));
        }
        let r = upsert(e, name, v);
        let ri = upsert(rest, name, v);
        assert(r == seq![e[0]] + ri);
        assert forall|a: int, b: int| 0 <= a < b < r.len() implies name_less(r[a].0, r[b].0) by {
            if a > 0 {
                assert(r[a] == ri[a - 1] && r[b] == ri[b - 1]);
            } else {
                assert(r[b] == ri[b - 1]);
                if j < e.len() && e[j].0 == name {
                    if b - 1 == j - 1 {
                        assert(ri[b - 1].0 == name);
                    } else {
                        assert(ri[b - 1] == e[b]);
                    }
                } else {
                    if b - 1 < j - 1 {
                        assert(ri[b - 1] == e[b]);
                    } else if b - 1 == j - 1 {
                        assert(ri[b - 1].0 == name);
                    } else {
                        assert(ri[b - 1] == e[b - 1]);
                    }
                }
            }
        }
    }
}

proof fn lemma_value_of_at<V>(e: Seq<(Seq<char>, V)>, i: int)
    requires
        ascending(e),
        0 <= i < e.len(),
    ensures
        value_of(e, e[i].0) == Some(e[i].1),
    decreases e.len(),
{
    if i < e.len() - 1 {
        if e.last().0 == e[i].0 {
            lemma_name_less_irreflexive(e[i].0);
            assert(name_less(e[i].0, e[e.len() - 1].0));
        }
        let t = e.drop_last();
        assert forall|a: int, b: int| 0 <= a < b < t.len() implies name_less(t[a].0, t[b].0) by {
            assert(t[a] == e[a] && t[b] == e[b]);
        }
        lemma_value_of_at(t, i);
    }
}

proof fn lemma_value_of_absent<V>(e: Seq<(Seq<char>, V)>, k: Seq<char>)
    requires
        forall|i: int| 0 <= i < e.len() ==> (#[trigger] e[i]).0 != k,
    ensures
        value_of(e, k) is None,
    decreases e.len(),
{
    if e.len() > 0 {
        let t = e.drop_last();
        assert forall|i: int| 0 <= i < t.len() implies (#[trigger] t[i]).0 != k by {
            assert(t[i] == e[i]);
        }
        lemma_value_of_absent(t, k);
    }
}

/// Reading a name after setting it gives the value set; other names keep
/// their values.
pub proof fn lemma_value_of_upsert<V>(e: Seq<(Seq<char>, V)>, name: Seq<char>, v: V, k: Seq<char>)
    requires
        ascending(e),
    ensures
        ascending(upsert(e, name, v)),
        value_of(upsert(e, name, v), k) == (if k == name { Some(v) } else { value_of(e, k) }),
{
    let j = slot(e, name);
    lemma_slot(e, name);
    lemma_upsert_at(e, name, v, j);
    let r = upsert(e, name, v);
    let found = j < e.len() && e[j].0 == name;
    if k == name {
        lemma_value_of_at(r, j);
    } else {
        if exists|i: int| 0 <= i < e.len() && e[i].0 == k {
            let i = choose|i: int| 0 <= i < e.len() && e[i].0 == k;
            lemma_value_of_at(e, i);
            if found || i < j {
                assert(r[i] == e[i]);
                lemma_value_of_at(r, i);
            } else {
                assert(r[i + 1] == e[i]);
                lemma_value_of_at(r, i + 1);
            }
        } else {
            lemma_value_of_absent(e, k);
            assert forall|i: int| 0 <= i < r.len() implies (#[trigger] r[i]).0 != k by {
                if found {
                    if i != j {
                        assert(r[i] == e[i]);
                    }
                } else if i < j {
                    assert(r[i] == e[i]);
                } else if i > j {
                    assert(r[i] == e[i - 1]);
                }
            }
            lemma_value_of_absent(r, k);
        }
    }
}

/// The position of the first entry whose name is not before `name`.
pub open spec fn slot<V>(e: Seq<(Seq<char>, V)>, name: Seq<char>) -> int
    decreases e.len(),
{
    if e.len() == 0 {
        0
    } else if name_less(e[0].0, name) {
        1 + slot(e.drop_first(), name)
    } else {
        0
    }
}

proof fn lemma_slot<V>(e: Seq<(Seq<char>, V)>, name: Seq<char>)
    ensures
        0 <= slot(e, name) <= e.len(),
        forall|x: int| 0 <= x < slot(e, name) ==> name_less(#[trigger] e[x].0, name),
        slot(e, name) < e.len() ==> !name_less(e[slot(e, name)].0, name),
    decreases e.len(),
{
    if e.len() > 0 && name_less(e[0].0, name) {
        let t = e.drop_first();
        lemma_slot(t, name);
        assert forall|x: int| 0 <= x < slot(e, name) implies name_less(#[trigger] e[x].0, name) by {
            if x > 0 {
                assert(e[x] == t[x - 1]);
            }
        }
        if slot(e, name) < e.len() {
            assert(e[slot(e, name)] == t[slot(t, name)]);
        }
    }
}

proof fn lemma_name_less_asymmetric(a: Seq<char>, b: Seq<char>)
    requires
        name_less(a, b),
    ensures
        !name_less(b, a),
        a != b,
{
    lemma_name_less_irreflexive(a);
    if name_less(b, a) {
        lemma_name_less_transitive(a, b, a);
    }
}


/// The counter value after adding `value` to the counter `name`, saturating.
pub open spec fn counter_after_add(e: Seq<(Seq<char>, u64)>, name: Seq<char>, value: u64) -> u64 {
    let current = match value_of(e, name) {
        Some(v) => v as int,
        None => 0,
    };
    if current + value > u64::MAX { u64::MAX } else { (current + value) as u64 }
}

/// The span figures after recording one more `elapsed_us`: one more
/// observation, the total grown (both saturating), the largest kept.
pub open spec fn span_after(e: Seq<(Seq<char>, SpanFigures)>, name: Seq<char>, elapsed_us: u64) -> SpanFigures {
    let current = match value_of(e, name) {
        Some(f) => f,
        None => SpanFigures { count: 0, total_us: 0, max_us: 0 },
    };
    SpanFigures {
        count: if current.count == u64::MAX { u64::MAX } else { (current.count + 1) as u64 },
        total_us: if current.total_us + elapsed_us > u64::MAX { u64::MAX } else { (current.total_us + elapsed_us) as u64 },
        max_us: if current.max_us >= elapsed_us { current.max_us } else { elapsed_us },
    }
}

/// Calls `Instant::elapsed`; the time that passed is the machine's to tell.
#[verifier::external_body]
fn instant_elapsed(started_at: &std::time::Instant) -> std::time::Duration {
    started_at.elapsed()
}

/// Calls `Duration::as_micros`.
#[verifier::external_body]
fn duration_micros(duration: &std::time::Duration) -> u128 {
    duration.as_micros()
}

#[verifier::external_type_specification]
#[verifier::external_body]
pub struct ExInstant(std::time::Instant);


/// Where the counter `name` is among `counters`, or would be put.
fn counter_slot_in(counters: &Vec<(String, u64)>, name: &Vec<char>) -> (j: usize)
    ensures
        j == slot(counter_entries(counters@), name@),
{
    let ghost e = counter_entries(counters@);
    proof {
        lemma_slot(e, name@);
    }
    let mut j: usize = 0;
    while j < counters.len()
        invariant
            e == counter_entries(counters@),
            j <= counters.len(),
            j <= slot(e, name@),
            0 <= slot(e, name@) <= e.len(),
            forall|x: int| 0 <= x < slot(e, name@) ==> name_less(#[trigger] e[x].0, name@),
            slot(e, name@) < e.len() ==> !name_less(e[slot(e, name@)].0, name@),
        ensures
            j == slot(e, name@),
        decreases counters.len() - j,
    {
        let key = chars_of(counters[j].0.as_str());
        proof {
            assert(e[j as int].0 == key@);
        }
        if !chars_less(&key, name) {
            proof {
                if j < slot(e, name@) {
                    assert(name_less(e[j as int].0, name@));
                }
            }
            break;
        }
        j = j + 1;
    }
    j
}

/// Sets the counter `name` to `value` in counters kept in name order, as
/// inserting into a map keyed by name does.
fn set_counter_in(counters: &mut Vec<(String, u64)>, name: &str, value: u64)
    requires
        ascending(counter_entries(old(counters)@)),
    ensures
        counter_entries(final(counters)@) == upsert(counter_entries(old(counters)@), name@, value),
{
    let chars = chars_of(name);
    let j = counter_slot_in(counters, &chars);
    let ghost e = counter_entries(counters@);
    proof {
        lemma_slot(e, name@);
        lemma_upsert_at(e, name@, value, j as int);
    }
    let found = j < counters.len() && text_equals(counters[j].0.as_str(), name);
    if found {
        counters.set(j, (name.to_owned(), value));
        proof {
            assert(counter_entries(counters@) =~= e.update(j as int, (name@, value)));
        }
    } else {
        counters.insert(j, (name.to_owned(), value));
        proof {
            assert(counter_entries(counters@) =~= e.insert(j as int, (name@, value)));
        }
    }
}

impl PluginStatsSnapshot {
    /// Sets the counter `name` of the report to `value`, keeping the
    /// counters in name order, one per name.
    pub fn insert_counter(&mut self, name: &str, value: u64)
        requires
            ascending(counter_entries(old(self).counters@)),
        ensures
            counter_entries(final(self).counters@) == upsert(counter_entries(old(self).counters@), name@, value),
            ascending(counter_entries(final(self).counters@)),
            final(self).spans == old(self).spans,
            final(self).collection_id == old(self).collection_id,
            final(self).plugin_id == old(self).plugin_id,
            final(self).client_id == old(self).client_id,
            final(self).plugin_kind == old(self).plugin_kind,
    {
        proof {
            lemma_value_of_upsert(counter_entries(self.counters@), name@, value, name@);
        }
        set_counter_in(&mut self.counters, name, value);
    }
}

impl PluginStatsRecorder {
    #[verifier::type_invariant]
    spec fn names_ascending(&self) -> bool {
        &&& ascending(counter_entries(self.counters@))
        &&& ascending(span_entries(self.spans@))
    }

    /// Where the span `name` is, or would be put.
    fn span_slot(&self, name: &Vec<char>) -> (j: usize)
        ensures
            j == slot(self@.spans, name@),
    {
        let ghost e = self@.spans;
        proof {
            lemma_slot(e, name@);
        }
        let mut j: usize = 0;
        while j < self.spans.len()
            invariant
                e == span_entries(self.spans@),
                j <= self.spans.len(),
                j <= slot(e, name@),
                0 <= slot(e, name@) <= e.len(),
                forall|x: int| 0 <= x < slot(e, name@) ==> name_less(#[trigger] e[x].0, name@),
                slot(e, name@) < e.len() ==> !name_less(e[slot(e, name@)].0, name@),
            ensures
                j == slot(e, name@),
            decreases self.spans.len() - j,
        {
            let key = chars_of(self.spans[j].name.as_str());
            proof {
                assert(e[j as int].0 == key@);
            }
            if !chars_less(&key, name) {
                proof {
                    if j < slot(e, name@) {
                        assert(name_less(e[j as int].0, name@));
                    }
                }
                break;
            }
            j = j + 1;
        }
        j
    }

    /// Sets the counter `name` to `value`.
    fn set_counter(&mut self, name: &str, value: u64)
        ensures
            final(self)@.counters == upsert(old(self)@.counters, name@, value),
            final(self)@.spans == old(self)@.spans,
    {
        proof {
            use_type_invariant(&*self);
        }
        let ghost e = self@.counters;
        let mut counters: Vec<(String, u64)> = Vec::new();
        std::mem::swap(&mut counters, &mut self.counters);
        set_counter_in(&mut counters, name, value);
        proof {
            lemma_slot(e, name@);
            lemma_upsert_at(e, name@, value, slot(e, name@));
        }
        self.counters = counters;
    }

    /// Counts one more occurrence of `name`.
    pub fn increment(&mut self, name: &str)
        requires
            value_of(old(self)@.counters, name@) != Some(u64::MAX),
        ensures
            final(self)@.counters == upsert(old(self)@.counters, name@, counter_after_add(old(self)@.counters, name@, 1)),
            final(self)@.spans == old(self)@.spans,
            final(self)@ == after_call(old(self)@, StatsCall::Add(name@, 1)),
    {
        let current = self.counter(name);
        let next = match current {
            Some(v) => v + 1,
            None => 1,
        };
        self.set_counter(name, next);
    }

    /// Adds `value` to the counter `name`, saturating at the largest `u64`.
    pub fn add(&mut self, name: &str, value: u64)
        ensures
            final(self)@.counters == upsert(old(self)@.counters, name@, counter_after_add(old(self)@.counters, name@, value)),
            final(self)@.spans == old(self)@.spans,
            final(self)@ == after_call(old(self)@, StatsCall::Add(name@, value)),
    {
        let current = match self.counter(name) {
            Some(v) => v,
            None => 0,
        };
        self.set_counter(name, current.saturating_add(value));
    }

    /// The value of the counter `name`, if it was ever counted.
    fn counter(&self, name: &str) -> (r: Option<u64>)
        ensures
            r == value_of(self@.counters, name@),
    {
        proof {
            use_type_invariant(self);
        }
        let chars = chars_of(name);
        let j = counter_slot_in(&self.counters, &chars);
        let ghost e = self@.counters;
        proof {
            lemma_slot(e, name@);
        }
        if j < self.counters.len() && text_equals(self.counters[j].0.as_str(), name) {
            proof {
                assert(e[j as int].0 == name@);
                lemma_value_of_at(e, j as int);
            }
            Some(self.counters[j].1)
        } else {
            proof {
                assert forall|i: int| 0 <= i < e.len() implies (#[trigger] e[i]).0 != name@ by {
                    if i < j {
                        lemma_name_less_asymmetric(e[i].0, name@);
                    } else if i > j {
                        lemma_name_less_total(e[j as int].0, name@);
                        lemma_name_less_transitive(name@, e[j as int].0, e[i].0);
                        lemma_name_less_asymmetric(name@, e[i].0);
                    }
                }
                lemma_value_of_absent(e, name@);
            }
            None
        }
    }

    /// Records one observation of `elapsed_us` microseconds for span `name`.
    pub fn record_span_us(&mut self, name: &str, elapsed_us: u64)
        ensures
            final(self)@.spans == upsert(old(self)@.spans, name@, span_after(old(self)@.spans, name@, elapsed_us)),
            final(self)@.counters == old(self)@.counters,
            final(self)@ == after_call(old(self)@, StatsCall::RecordSpan(name@, elapsed_us)),
    {
        proof {
            use_type_invariant(&*self);
        }
        let chars = chars_of(name);
        let j = self.span_slot(&chars);
        let ghost e = self@.spans;
        proof {
            lemma_slot(e, name@);
        }
        let mut spans: Vec<PluginStatsSpan> = Vec::new();
        std::mem::swap(&mut spans, &mut self.spans);
        let found = j < spans.len() && text_equals(spans[j].name.as_str(), name);
        let (count, total_us, max_us) = if found {
            (spans[j].count, spans[j].total_us, spans[j].max_us)
        } else {
            (0, 0, 0)
        };
        let span = PluginStatsSpan {
            name: name.to_owned(),
            count: count.saturating_add(1),
            total_us: total_us.saturating_add(elapsed_us),
            max_us: if max_us >= elapsed_us { max_us } else { elapsed_us },
        };
        let ghost figures = SpanFigures { count: span.count, total_us: span.total_us, max_us: span.max_us };
        proof {
            if found {
                assert(e[j as int].0 == name@);
                lemma_value_of_at(e, j as int);
            } else {
                assert forall|i: int| 0 <= i < e.len() implies (#[trigger] e[i]).0 != name@ by {
                    if i < j {
                        lemma_name_less_asymmetric(e[i].0, name@);
                    } else if i > j {
                        lemma_name_less_total(e[j as int].0, name@);
                        lemma_name_less_transitive(name@, e[j as int].0, e[i].0);
                        lemma_name_less_asymmetric(name@, e[i].0);
                    }
                }
                lemma_value_of_absent(e, name@);
            }
            assert(figures == span_after(e, name@, elapsed_us));
            lemma_upsert_at(e, name@, figures, j as int);
        }
        if found {
            spans.set(j, span);
            proof {
                assert(span_entries(spans@) =~= e.update(j as int, (name@, figures)));
            }
        } else {
            spans.insert(j, span);
            proof {
                assert(span_entries(spans@) =~= e.insert(j as int, (name@, figures)));
            }
        }
        self.spans = spans;
    }

    /// Records the time since `started_at` for span `name`; the measured
    /// time is whatever the clock tells.
    pub fn record_span_elapsed(&mut self, name: &str, started_at: std::time::Instant)
        ensures
            exists|us: u64| final(self)@.spans == upsert(old(self)@.spans, name@, span_after(old(self)@.spans, name@, us)),
            final(self)@.counters == old(self)@.counters,
    {
        let elapsed = instant_elapsed(&started_at);
        let micros = duration_micros(&elapsed);
        let us = #[verifier::truncate] (micros as u64);
        self.record_span_us(name, us);
    }

    /// A report of the counters and spans, in name order.
    pub fn snapshot(&self, collection_id: u64, identity: RendererHello, plugin_kind: &str) -> (r: PluginStatsSnapshot)
        ensures
            r.collection_id == collection_id,
            r.plugin_id == identity.plugin_id,
            r.client_id == identity.client_id,
            r.plugin_kind@ == plugin_kind@,
            counter_entries(r.counters@) == self@.counters,
            ascending(counter_entries(r.counters@)),
            span_entries(r.spans@) == self@.spans,
            ascending(span_entries(r.spans@)),
            r.spans@.len() == self@.spans.len(),
            forall|i: int| 0 <= i < r.spans@.len() ==> (#[trigger] r.spans@[i]).name@ == self@.spans[i].0,
    {
        proof {
            use_type_invariant(self);
        }
        let mut counters: Vec<(String, u64)> = Vec::new();
        let mut i: usize = 0;
        while i < self.counters.len()
            invariant
                i <= self.counters.len(),
                counter_entries(counters@) == counter_entries(self.counters@).take(i as int),
            decreases self.counters.len() - i,
        {
            let entry = (self.counters[i].0.clone(), self.counters[i].1);
            proof {
                assert(entry.0@ == self.counters@[i as int].0@);
                assert(counter_entries(counters@.push(entry)) =~= counter_entries(counters@).push((entry.0@, entry.1)));
                assert(counter_entries(self.counters@).take(i + 1) =~= counter_entries(self.counters@).take(i as int).push(counter_entries(self.counters@)[i as int]));
            }
            counters.push(entry);
            i = i + 1;
        }
        let mut spans: Vec<PluginStatsSpan> = Vec::new();
        let mut k: usize = 0;
        while k < self.spans.len()
            invariant
                k <= self.spans.len(),
                span_entries(spans@) == span_entries(self.spans@).take(k as int),
            decreases self.spans.len() - k,
        {
            let span = PluginStatsSpan {
                name: self.spans[k].name.clone(),
                count: self.spans[k].count,
                total_us: self.spans[k].total_us,
                max_us: self.spans[k].max_us,
            };
            proof {
                assert(span_entries(spans@.push(span)) =~= span_entries(spans@).push(span_entries(self.spans@)[k as int]));
                assert(span_entries(self.spans@).take(k + 1) =~= span_entries(self.spans@).take(k as int).push(span_entries(self.spans@)[k as int]));
            }
            spans.push(span);
            k = k + 1;
        }
        proof {
            assert(counter_entries(self.counters@).take(self.counters.len() as int) =~= counter_entries(self.counters@));
            assert(span_entries(self.spans@).take(self.spans.len() as int) =~= span_entries(self.spans@));
            assert forall|x: int| 0 <= x < spans@.len() implies (#[trigger] spans@[x]).name@ == self@.spans[x].0 by {
                assert(span_entries(spans@)[x].0 == spans@[x].name@);
            }
        }
        PluginStatsSnapshot {
            collection_id,
            plugin_id: identity.plugin_id,
            client_id: identity.client_id,
            plugin_kind: plugin_kind.to_owned(),
            counters,
            spans,
        }
    }
}

impl Default for PluginStatsRecorder {
    fn default() -> (r: Self)
        ensures
            r@.counters.len() == 0,
            r@.spans.len() == 0,
    {
        let r = PluginStatsRecorder { counters: Vec::new(), spans: Vec::new() };
        proof {
            assert(counter_entries(r.counters@).len() == 0);
            assert(span_entries(r.spans@).len() == 0);
        }
        r
    }
}

// ---------------------------------------------------------------------------
// Order of calls

proof fn lemma_value_of_found<V>(e: Seq<(Seq<char>, V)>, k: Seq<char>)
    requires
        value_of(e, k) is Some,
    ensures
        exists|i: int| 0 <= i < e.len() && (#[trigger] e[i]).0 == k && Some(e[i].1) == value_of(e, k),
    decreases e.len(),
{
    if e.last().0 == k {
        assert(e[e.len() - 1].0 == k);
    } else {
        let d = e.drop_last();
        lemma_value_of_found(d, k);
        let i = choose|i: int| 0 <= i < d.len() && (#[trigger] d[i]).0 == k && Some(d[i].1) == value_of(d, k);
        assert(e[i] == d[i]);
    }
}

proof fn lemma_ascending_drop_last<V>(e: Seq<(Seq<char>, V)>)
    requires
        ascending(e),
        e.len() > 0,
    ensures
        ascending(e.drop_last()),
        forall|k: Seq<char>| k != e.last().0 ==> value_of(e.drop_last(), k) == value_of(e, k),
        value_of(e.drop_last(), e.last().0) is None,
{
    let d = e.drop_last();
    assert forall|i: int, j: int| 0 <= i < j < d.len() implies name_less(d[i].0, d[j].0) by {
        assert(d[i] == e[i] && d[j] == e[j]);
    }
    assert forall|i: int| 0 <= i < d.len() implies (#[trigger] d[i]).0 != e.last().0 by {
        assert(d[i] == e[i]);
        assert(name_less(e[i].0, e[e.len() - 1].0));
        lemma_name_less_irreflexive(e[i].0);
    }
    lemma_value_of_absent(d, e.last().0);
}

/// Entries held in name order are fixed by what they store under each name.
proof fn lemma_entries_determined<V>(e1: Seq<(Seq<char>, V)>, e2: Seq<(Seq<char>, V)>)
    requires
        ascending(e1),
        ascending(e2),
        forall|k: Seq<char>| value_of(e1, k) == value_of(e2, k),
    ensures
        e1 == e2,
    decreases e1.len() + e2.len(),
{
    if e1.len() == 0 && e2.len() == 0 {
        assert(e1 =~= e2);
    } else if e1.len() == 0 {
        assert(value_of(e2, e2.last().0) is Some);
        assert(value_of(e1, e2.last().0) is None);
    } else if e2.len() == 0 {
        assert(value_of(e1, e1.last().0) is Some);
        assert(value_of(e2, e1.last().0) is None);
    } else {
        let l1 = e1.last().0;
        let l2 = e2.last().0;
        if l1 != l2 {
            lemma_name_less_total(l1, l2);
            if name_less(l1, l2) {
                assert(value_of(e2, l2) is Some);
                lemma_value_of_found(e1, l2);
                let i = choose|i: int| 0 <= i < e1.len() && (#[trigger] e1[i]).0 == l2 && Some(e1[i].1) == value_of(e1, l2);
                if i < e1.len() - 1 {
                    assert(name_less(e1[i].0, e1[e1.len() - 1].0));
                }
                lemma_name_less_asymmetric(l1, l2);
            } else {
                assert(value_of(e1, l1) is Some);
                lemma_value_of_found(e2, l1);
                let i = choose|i: int| 0 <= i < e2.len() && (#[trigger] e2[i]).0 == l1 && Some(e2[i].1) == value_of(e2, l1);
                if i < e2.len() - 1 {
                    assert(name_less(e2[i].0, e2[e2.len() - 1].0));
                }
                lemma_name_less_asymmetric(l2, l1);
            }
        }
        assert(value_of(e1, l1) == Some(e1.last().1));
        assert(value_of(e2, l1) == Some(e2.last().1));
        lemma_ascending_drop_last(e1);
        lemma_ascending_drop_last(e2);
        let d1 = e1.drop_last();
        let d2 = e2.drop_last();
        assert forall|k: Seq<char>| value_of(d1, k) == value_of(d2, k) by {
            if k != l1 {
                assert(value_of(e1, k) == value_of(e2, k));
            }
        }
        lemma_entries_determined(d1, d2);
        assert(e1 =~= d1.push(e1.last()));
        assert(e2 =~= d2.push(e2.last()));
    }
}

/// One call made on a recorder: adding to a counter (`increment` adds one)
/// or recording a span.
pub enum StatsCall {
    Add(Seq<char>, u64),
    RecordSpan(Seq<char>, u64),
}

/// The recorder after one call.
pub open spec fn after_call(v: RecorderView, c: StatsCall) -> RecorderView {
    match c {
        StatsCall::Add(name, value) => RecorderView {
            counters: upsert(v.counters, name, counter_after_add(v.counters, name, value)),
            spans: v.spans,
        },
        StatsCall::RecordSpan(name, us) => RecorderView {
            counters: v.counters,
            spans: upsert(v.spans, name, span_after(v.spans, name, us)),
        },
    }
}

/// The recorder after the calls, in order.
pub open spec fn after_calls(v: RecorderView, cs: Seq<StatsCall>) -> RecorderView
    decreases cs.len(),
{
    if cs.len() == 0 {
        v
    } else {
        after_call(after_calls(v, cs.drop_last()), cs.last())
    }
}

pub open spec fn well_ordered(v: RecorderView) -> bool {
    ascending(v.counters) && ascending(v.spans)
}

proof fn lemma_after_call_ordered(v: RecorderView, c: StatsCall)
    requires
        well_ordered(v),
    ensures
        well_ordered(after_call(v, c)),
{
    match c {
        StatsCall::Add(n, x) => {
            lemma_value_of_upsert(v.counters, n, counter_after_add(v.counters, n, x), n);
        },
        StatsCall::RecordSpan(n, us) => {
            lemma_value_of_upsert(v.spans, n, span_after(v.spans, n, us), n);
        },
    }
}

proof fn lemma_after_calls_ordered(v: RecorderView, cs: Seq<StatsCall>)
    requires
        well_ordered(v),
    ensures
        well_ordered(after_calls(v, cs)),
    decreases cs.len(),
{
    if cs.len() > 0 {
        lemma_after_calls_ordered(v, cs.drop_last());
        lemma_after_call_ordered(after_calls(v, cs.drop_last()), cs.last());
    }
}

/// Two calls give the same recorder in either order: counters and span
/// totals are (saturating) sums, span counts are counted and the largest
/// span is a maximum, whatever the order.
pub proof fn lemma_calls_commute(v: RecorderView, a: StatsCall, b: StatsCall)
    requires
        well_ordered(v),
    ensures
        after_call(after_call(v, a), b) == after_call(after_call(v, b), a),
{
    let ab = after_call(after_call(v, a), b);
    let ba = after_call(after_call(v, b), a);
    lemma_after_call_ordered(v, a);
    lemma_after_call_ordered(v, b);
    lemma_after_call_ordered(after_call(v, a), b);
    lemma_after_call_ordered(after_call(v, b), a);
    let va = after_call(v, a);
    let vb = after_call(v, b);
    assert forall|k: Seq<char>| value_of(ab.counters, k) == value_of(ba.counters, k) by {
        match a {
            StatsCall::Add(na, xa) => {
                lemma_value_of_upsert(v.counters, na, counter_after_add(v.counters, na, xa), k);
                match b {
                    StatsCall::Add(nb, xb) => {
                        lemma_value_of_upsert(v.counters, na, counter_after_add(v.counters, na, xa), nb);
                        lemma_value_of_upsert(v.counters, nb, counter_after_add(v.counters, nb, xb), na);
                        lemma_value_of_upsert(v.counters, nb, counter_after_add(v.counters, nb, xb), k);
                        lemma_value_of_upsert(va.counters, nb, counter_after_add(va.counters, nb, xb), k);
                        lemma_value_of_upsert(vb.counters, na, counter_after_add(vb.counters, na, xa), k);
                    },
                    StatsCall::RecordSpan(_, _) => {
                        lemma_value_of_upsert(vb.counters, na, counter_after_add(vb.counters, na, xa), k);
                    },
                }
            },
            StatsCall::RecordSpan(_, _) => {
                match b {
                    StatsCall::Add(nb, xb) => {
                        lemma_value_of_upsert(v.counters, nb, counter_after_add(v.counters, nb, xb), k);
                        lemma_value_of_upsert(va.counters, nb, counter_after_add(va.counters, nb, xb), k);
                    },
                    StatsCall::RecordSpan(_, _) => {},
                }
            },
        }
    }
    assert forall|k: Seq<char>| value_of(ab.spans, k) == value_of(ba.spans, k) by {
        match a {
            StatsCall::RecordSpan(na, ua) => {
                lemma_value_of_upsert(v.spans, na, span_after(v.spans, na, ua), k);
                match b {
                    StatsCall::RecordSpan(nb, ub) => {
                        lemma_value_of_upsert(v.spans, na, span_after(v.spans, na, ua), nb);
                        lemma_value_of_upsert(v.spans, nb, span_after(v.spans, nb, ub), na);
                        lemma_value_of_upsert(v.spans, nb, span_after(v.spans, nb, ub), k);
                        lemma_value_of_upsert(va.spans, nb, span_after(va.spans, nb, ub), k);
                        lemma_value_of_upsert(vb.spans, na, span_after(vb.spans, na, ua), k);
                    },
                    StatsCall::Add(_, _) => {
                        lemma_value_of_upsert(vb.spans, na, span_after(vb.spans, na, ua), k);
                    },
                }
            },
            StatsCall::Add(_, _) => {
                match b {
                    StatsCall::RecordSpan(nb, ub) => {
                        lemma_value_of_upsert(v.spans, nb, span_after(v.spans, nb, ub), k);
                        lemma_value_of_upsert(va.spans, nb, span_after(va.spans, nb, ub), k);
                    },
                    StatsCall::Add(_, _) => {},
                }
            },
        }
    }
    lemma_entries_determined(ab.counters, ba.counters);
    lemma_entries_determined(ab.spans, ba.spans);
}

proof fn lemma_move_call_to_end(v: RecorderView, cs: Seq<StatsCall>, i: int)
    requires
        well_ordered(v),
        0 <= i < cs.len(),
    ensures
        after_calls(v, cs) == after_calls(v, cs.remove(i).push(cs[i])),
    decreases cs.len(),
{
    if i == cs.len() - 1 {
        assert(cs.remove(i).push(cs[i]) =~= cs);
    } else {
        let d = cs.drop_last();
        let c = cs.last();
        let x = cs[i];
        lemma_move_call_to_end(v, d, i);
        assert(d[i] == x);
        let r = d.remove(i);
        assert(r.push(x).drop_last() =~= r);
        lemma_after_calls_ordered(v, r);
        let a = after_calls(v, r);
        lemma_calls_commute(a, x, c);
        assert(after_calls(v, r.push(x)) == after_call(a, x));
        assert(after_calls(v, cs) == after_call(after_calls(v, d), c));
        assert(after_calls(v, cs) == after_call(after_call(a, x), c));
        assert(r.push(c) =~= cs.remove(i));
        assert(r.push(c).drop_last() =~= r);
        assert(after_calls(v, r.push(c)) == after_call(a, c));
        let m = cs.remove(i).push(x);
        assert(m.drop_last() =~= r.push(c));
        assert(m.last() == x);
        assert(after_calls(v, m) == after_call(after_calls(v, r.push(c)), x));
    }
}

/// The order of the calls does not matter: calls that are a reordering of
/// each other leave the recorder, and so its snapshot, the same.
pub proof fn lemma_reordered_calls_same_recorder(v: RecorderView, c1: Seq<StatsCall>, c2: Seq<StatsCall>)
    requires
        well_ordered(v),
        c1.to_multiset() == c2.to_multiset(),
    ensures
        after_calls(v, c1) == after_calls(v, c2),
    decreases c2.len(),
{
    c1.to_multiset_ensures();
    c2.to_multiset_ensures();
    if c2.len() == 0 {
        assert(c1 =~= Seq::<StatsCall>::empty());
        assert(c2 =~= Seq::<StatsCall>::empty());
    } else {
        let x = c2.last();
        let d2 = c2.drop_last();
        d2.to_multiset_ensures();
        assert(d2.push(x) =~= c2);
        assert(c2.contains(x)) by {
            assert(c2[c2.len() - 1] == x);
        }
        assert(c2.to_multiset().count(x) > 0);
        assert(c1.to_multiset().count(x) > 0);
        assert(c1.contains(x));
        let i = choose|i: int| 0 <= i < c1.len() && c1[i] == x;
        lemma_move_call_to_end(v, c1, i);
        let r = c1.remove(i);
        assert(r.to_multiset() =~= d2.to_multiset()) by {
            broadcast use vstd::multiset::group_multiset_axioms;
            assert(r.to_multiset() == c1.to_multiset().remove(x));
            assert(c2.to_multiset() =~= d2.to_multiset().insert(x));
        }
        lemma_reordered_calls_same_recorder(v, r, d2);
        assert(r.push(x).drop_last() =~= r);
    }
}

} // verus!
