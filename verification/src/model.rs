//! The view model that the controller shares with its rails: tabs, rows,
//! statuses, metadata, and rail configuration.

use vstd::prelude::*;
use std::collections::BTreeMap;
use vstd::std_specs::cmp::PartialEqSpec;
use crate::text::{string_views, bool_text, bool_text_spec, signed_decimal, signed_decimal_text, joined, join_texts};

verus! {

pub const MSG_RENDERER_HELLO: &'static str = "tabs-renderer-hello";
pub const MSG_CONFIG_EDITOR_HELLO: &'static str = "tabs-config-editor-hello";
pub const MSG_REQUEST_STATE: &'static str = "tabs-request-state";
pub const MSG_VIEW_MODEL: &'static str = "tabs-view-model";
pub const MSG_TOGGLE_PIN: &'static str = "tabs-toggle-pin";
pub const MSG_SET_SORT_MODE: &'static str = "andamento-set-sort-mode";
pub const MSG_SET_RAIL_CONFIG: &'static str = "andamento-set-rail-config";
pub const MSG_SET_PANE_STATUS: &'static str = "andamento-set-pane-status";
pub const MSG_CLEAR_PANE_STATUS: &'static str = "andamento-clear-pane-status";
pub const MSG_APPLY_METADATA_PATCH: &'static str = "andamento-apply-metadata-patch";
pub const MSG_CONTROLLER_BOOTSTRAP_REQUEST: &'static str = "andamento-controller-bootstrap-request";
pub const MSG_CONTROLLER_BOOTSTRAP_STATE: &'static str = "andamento-controller-bootstrap-state";
pub const MSG_OBSERVED_IDENTITIES: &'static str = "andamento-observed-identities";
pub const MSG_STATS_COLLECT: &'static str = "andamento-stats-collect";
pub const MSG_STATS_REQUEST: &'static str = "andamento-stats-request";
pub const MSG_STATS_REPORT: &'static str = "andamento-stats-report";
pub const MSG_RAIL_SIZE_OBSERVED: &'static str = "andamento-rail-size-observed";
pub const MSG_RAIL_SIZE_TARGET: &'static str = "andamento-rail-size-target";

/// Status importance, least important first.
#[derive(Debug, Clone, Copy, PartialEq, Eq, PartialOrd, Ord, Structural)]
pub enum Priority {
    Idle,
    Info,
    Success,
    Waiting,
    Warning,
    Error,
}

#[derive(Debug, Clone, Copy, PartialEq, Eq, PartialOrd, Ord, Hash, Structural)]
pub enum PaneTarget {
    Terminal(u32),
    Plugin(u32),
}

#[derive(Debug, Clone, PartialEq, Eq)]
pub struct SetPaneStatus {
    pub pane_id: PaneTarget,
    pub priority: Priority,
    pub title: String,
    pub detail: Option<String>,
    pub icon: Option<StatusIcon>,
    pub timestamp_ms: Option<u64>,
}

#[derive(Debug, Clone, PartialEq, Eq)]
pub enum ExternalMessage {
    SetPaneStatus(SetPaneStatus),
    ClearPaneStatus { pane_id: PaneTarget },
    MetadataPatch(MetadataPatch),
}

#[derive(Debug, Clone, Copy, PartialEq, Eq, Structural)]
pub struct RendererHello {
    pub plugin_id: u32,
    pub client_id: u16,
}

#[derive(Debug, Clone, PartialEq, Eq)]
pub struct ControllerBootstrapSnapshot {
    pub sort_mode: SortMode,
    pub config: RailConfig,
    pub pinned_tabs: Vec<u64>,
    pub pane_statuses: Vec<SetPaneStatus>,
    pub metadata_patches: Vec<MetadataPatch>,
}

#[derive(Debug, Clone, PartialEq, Eq)]
pub struct TabStatusSummary {
    pub priority: Priority,
    pub title: String,
    pub detail: Option<String>,
    pub icon: Option<StatusIcon>,
    pub source_pane: PaneTarget,
}

/// A status icon: a built-in icon name, or the path of a PNG file.
#[derive(Debug, Clone, PartialEq, Eq, PartialOrd, Ord, Hash)]
pub enum StatusIcon {
    Builtin(String),
    PngFile(String),
}

#[derive(Debug, Clone, PartialEq, Eq)]
pub struct TabCard {
    pub tab_id: u64,
    pub position: usize,
    pub name: String,
    pub active: bool,
    pub pinned: bool,
    pub status: Option<TabStatusSummary>,
    pub grouping: Option<TabGroupingInfo>,
    pub templates: ResolvedTemplateSlots,
}

#[derive(Debug, Clone, PartialEq, Eq)]
pub struct TabGroupingInfo {
    pub key: String,
    pub path: GroupPath,
    pub label: String,
    pub full_label: String,
}

#[derive(Debug, Clone, Copy, PartialEq, Eq, Structural)]
pub enum SortMode {
    Controller,
    Position,
    PinnedFirst,
    LatestStatus,
}

impl Default for SortMode {
    fn default() -> (r: Self)
        ensures
            r == SortMode::Position,
    {
        Self::Position
    }
}

#[derive(Debug, Clone, Copy, PartialEq, Eq, Structural)]
pub enum RailStructure {
    JoinedCells,
    SplitAroundActive,
    BoxPerTab,
}

impl Default for RailStructure {
    fn default() -> (r: Self)
        ensures
            r == RailStructure::JoinedCells,
    {
        Self::JoinedCells
    }
}

#[derive(Debug, Clone, Copy, PartialEq, Eq, Structural)]
pub enum RailSizingPreset {
    Compact,
    Large,
    ActiveLarge,
    PinnedLarge,
}

impl Default for RailSizingPreset {
    fn default() -> (r: Self)
        ensures
            r == RailSizingPreset::ActiveLarge,
    {
        Self::ActiveLarge
    }
}

#[derive(Debug, Clone, PartialOrd, Ord)]
pub enum MetadataValue {
    Text(String),
    Bool(bool),
    Integer(i64),
    StringList(Vec<String>),
    GroupPath(Vec<MetadataPathSegmentValue>),
}

/// One step of a group path carried as a metadata value; its label is for
/// display only and takes no part in equality.
#[derive(Debug, Clone, PartialOrd, Ord)]
pub struct MetadataPathSegmentValue {
    pub key: String,
    pub value: MetadataPathValue,
    pub label: Option<String>,
}

#[derive(Debug, Clone, PartialOrd, Ord, Hash)]
pub enum MetadataPathValue {
    Text(String),
    Bool(bool),
    Integer(i64),
    StringList(Vec<String>),
}


/// The mathematical content of a [`MetadataPathValue`].
pub enum PathValueView {
    Text(Seq<char>),
    Bool(bool),
    Integer(i64),
    StringList(Seq<Seq<char>>),
}

impl View for MetadataPathValue {
    type V = PathValueView;

    open spec fn view(&self) -> PathValueView {
        match self {
            MetadataPathValue::Text(t) => PathValueView::Text(t@),
            MetadataPathValue::Bool(b) => PathValueView::Bool(*b),
            MetadataPathValue::Integer(n) => PathValueView::Integer(*n),
            MetadataPathValue::StringList(v) => PathValueView::StringList(string_views(v@)),
        }
    }
}

/// What identifies a path segment value: its key and value.
pub open spec fn segment_identity(s: MetadataPathSegmentValue) -> (Seq<char>, PathValueView) {
    (s.key@, s.value@)
}

/// The mathematical content of a [`MetadataValue`]; path segments are taken
/// by their identity.
pub enum MetadataValueView {
    Text(Seq<char>),
    Bool(bool),
    Integer(i64),
    StringList(Seq<Seq<char>>),
    GroupPath(Seq<(Seq<char>, PathValueView)>),
}

impl View for MetadataValue {
    type V = MetadataValueView;

    open spec fn view(&self) -> MetadataValueView {
        match self {
            MetadataValue::Text(t) => MetadataValueView::Text(t@),
            MetadataValue::Bool(b) => MetadataValueView::Bool(*b),
            MetadataValue::Integer(n) => MetadataValueView::Integer(*n),
            MetadataValue::StringList(v) => MetadataValueView::StringList(string_views(v@)),
            MetadataValue::GroupPath(v) => MetadataValueView::GroupPath(
                v@.map_values(|s: MetadataPathSegmentValue| segment_identity(s)),
            ),
        }
    }
}

fn strings_equal(a: &Vec<String>, b: &Vec<String>) -> (r: bool)
    ensures
        r == (string_views(a@) == string_views(b@)),
{
    if a.len() != b.len() {
        proof {
            assert(string_views(a@).len() != string_views(b@).len());
        }
        return false;
    }
    let mut i: usize = 0;
    while i < a.len()
        invariant
            a.len() == b.len(),
            i <= a.len(),
            forall|k: int| 0 <= k < i ==> a@[k]@ == b@[k]@,
        decreases a.len() - i,
    {
        if a[i] != b[i] {
            proof {
                assert(string_views(a@)[i as int] != string_views(b@)[i as int]);
            }
            return false;
        }
        i = i + 1;
    }
    proof {
        assert(string_views(a@) =~= string_views(b@));
    }
    true
}

impl PartialEq for MetadataPathValue {
    fn eq(&self, other: &Self) -> (r: bool) {
        match self {
            MetadataPathValue::Text(a) => match other {
                MetadataPathValue::Text(b) => *a == *b,
                _ => false,
            },
            MetadataPathValue::Bool(a) => match other {
                MetadataPathValue::Bool(b) => *a == *b,
                _ => false,
            },
            MetadataPathValue::Integer(a) => match other {
                MetadataPathValue::Integer(b) => *a == *b,
                _ => false,
            },
            MetadataPathValue::StringList(a) => match other {
                MetadataPathValue::StringList(b) => strings_equal(a, b),
                _ => false,
            },
        }
    }
}

impl vstd::std_specs::cmp::PartialEqSpecImpl for MetadataPathValue {
    open spec fn obeys_eq_spec() -> bool {
        true
    }

    open spec fn eq_spec(&self, other: &Self) -> bool {
        self@ == other@
    }
}

impl Eq for MetadataPathValue {}

impl PartialEq for MetadataPathSegmentValue {
    fn eq(&self, other: &Self) -> (r: bool) {
        self.key == other.key && self.value == other.value
    }
}

impl vstd::std_specs::cmp::PartialEqSpecImpl for MetadataPathSegmentValue {
    open spec fn obeys_eq_spec() -> bool {
        true
    }

    open spec fn eq_spec(&self, other: &Self) -> bool {
        segment_identity(*self) == segment_identity(*other)
    }
}

impl Eq for MetadataPathSegmentValue {}

impl From<MetadataPathValue> for MetadataValue {
    fn from(value: MetadataPathValue) -> (r: Self) {
        match value {
            MetadataPathValue::Text(value) => MetadataValue::Text(value),
            MetadataPathValue::Bool(value) => MetadataValue::Bool(value),
            MetadataPathValue::Integer(value) => MetadataValue::Integer(value),
            MetadataPathValue::StringList(values) => MetadataValue::StringList(values),
        }
    }
}

impl vstd::std_specs::convert::FromSpecImpl<MetadataPathValue> for MetadataValue {
    open spec fn obeys_from_spec() -> bool {
        true
    }

    open spec fn from_spec(value: MetadataPathValue) -> Self {
        match value {
            MetadataPathValue::Text(value) => MetadataValue::Text(value),
            MetadataPathValue::Bool(value) => MetadataValue::Bool(value),
            MetadataPathValue::Integer(value) => MetadataValue::Integer(value),
            MetadataPathValue::StringList(values) => MetadataValue::StringList(values),
        }
    }
}

/// How a path value reads: text as it is, a boolean as `true` or `false`,
/// an integer in decimal and a list joined with `, `.
pub open spec fn path_value_text(value: PathValueView) -> Seq<char> {
    match value {
        PathValueView::Text(t) => t,
        PathValueView::Bool(b) => bool_text_spec(b),
        PathValueView::Integer(n) => signed_decimal(n as int),
        PathValueView::StringList(items) => joined(items, seq![',', ' ']),
    }
}

impl MetadataPathValue {
    pub fn display(&self) -> (s: String)
        ensures
            s@ == path_value_text(self@),
    {
        match self {
            MetadataPathValue::Text(value) => value.clone(),
            MetadataPathValue::Bool(value) => bool_text(*value).to_owned(),
            MetadataPathValue::Integer(value) => signed_decimal_text(*value),
            MetadataPathValue::StringList(values) => {
                proof {
                    reveal_strlit(", ");
                    assert(", "@ =~= seq![',', ' ']);
                }
                join_texts(values, ", ")
            },
        }
    }
}

fn segments_equal(a: &Vec<MetadataPathSegmentValue>, b: &Vec<MetadataPathSegmentValue>) -> (r: bool)
    ensures
        r == (a@.map_values(|s: MetadataPathSegmentValue| segment_identity(s)) == b@.map_values(
            |s: MetadataPathSegmentValue| segment_identity(s),
        )),
{
    let ghost va = a@.map_values(|s: MetadataPathSegmentValue| segment_identity(s));
    let ghost vb = b@.map_values(|s: MetadataPathSegmentValue| segment_identity(s));
    if a.len() != b.len() {
        proof {
            assert(va.len() != vb.len());
        }
        return false;
    }
    let mut i: usize = 0;
    while i < a.len()
        invariant
            a.len() == b.len(),
            va == a@.map_values(|s: MetadataPathSegmentValue| segment_identity(s)),
            vb == b@.map_values(|s: MetadataPathSegmentValue| segment_identity(s)),
            i <= a.len(),
            forall|k: int| 0 <= k < i ==> va[k] == vb[k],
        decreases a.len() - i,
    {
        if !a[i].eq(&b[i]) {
            proof {
                assert(va[i as int] != vb[i as int]);
            }
            return false;
        }
        i = i + 1;
    }
    proof {
        assert(va =~= vb);
    }
    true
}

impl PartialEq for MetadataValue {
    fn eq(&self, other: &Self) -> (r: bool) {
        match self {
            MetadataValue::Text(a) => match other {
                MetadataValue::Text(b) => *a == *b,
                _ => false,
            },
            MetadataValue::Bool(a) => match other {
                MetadataValue::Bool(b) => *a == *b,
                _ => false,
            },
            MetadataValue::Integer(a) => match other {
                MetadataValue::Integer(b) => *a == *b,
                _ => false,
            },
            MetadataValue::StringList(a) => match other {
                MetadataValue::StringList(b) => strings_equal(a, b),
                _ => false,
            },
            MetadataValue::GroupPath(a) => match other {
                MetadataValue::GroupPath(b) => segments_equal(a, b),
                _ => false,
            },
        }
    }
}

impl vstd::std_specs::cmp::PartialEqSpecImpl for MetadataValue {
    open spec fn obeys_eq_spec() -> bool {
        true
    }

    open spec fn eq_spec(&self, other: &Self) -> bool {
        self@ == other@
    }
}

impl Eq for MetadataValue {}


#[derive(Debug, Clone, Default)]
pub struct GroupPath(pub Vec<GroupSegment>);

/// What identifies a group path: the key and value of each segment, in
/// order; labels are for display only.
pub open spec fn path_identity(path: GroupPath) -> Seq<(Seq<char>, MetadataValueView)> {
    path.0@.map_values(|s: GroupSegment| (s.key@, s.value@))
}

/// One level of a group path; its label is for display only and takes no
/// part in equality.
#[derive(Debug, Clone)]
pub struct GroupSegment {
    pub key: String,
    pub value: MetadataValue,
    pub label: Option<String>,
}

impl PartialEq for GroupSegment {
    fn eq(&self, other: &Self) -> (r: bool) {
        self.key == other.key && self.value == other.value
    }
}

impl vstd::std_specs::cmp::PartialEqSpecImpl for GroupSegment {
    open spec fn obeys_eq_spec() -> bool {
        true
    }

    open spec fn eq_spec(&self, other: &Self) -> bool {
        self.key@ == other.key@ && self.value@ == other.value@
    }
}

impl Eq for GroupSegment {}

impl PartialEq for GroupPath {
    fn eq(&self, other: &Self) -> (r: bool) {
        if self.0.len() != other.0.len() {
            proof {
                assert(path_identity(*self).len() != path_identity(*other).len());
            }
            return false;
        }
        let mut i: usize = 0;
        while i < self.0.len()
            invariant
                self.0@.len() == other.0@.len(),
                i <= self.0@.len(),
                forall|k: int| 0 <= k < i ==> path_identity(*self)[k] == path_identity(*other)[k],
            decreases self.0.len() - i,
        {
            if self.0[i] != other.0[i] {
                proof {
                    assert(path_identity(*self)[i as int] != path_identity(*other)[i as int]);
                }
                return false;
            }
            i = i + 1;
        }
        proof {
            assert(path_identity(*self) =~= path_identity(*other));
        }
        true
    }
}

impl vstd::std_specs::cmp::PartialEqSpecImpl for GroupPath {
    open spec fn obeys_eq_spec() -> bool {
        true
    }

    open spec fn eq_spec(&self, other: &Self) -> bool {
        path_identity(*self) == path_identity(*other)
    }
}

impl Eq for GroupPath {}

/// Group paths that differ only in the labels of their segments are equal.
pub proof fn lemma_group_path_identity_ignores_labels(a: GroupPath, b: GroupPath)
    requires
        a.0@.len() == b.0@.len(),
        forall|k: int| 0 <= k < a.0@.len() ==> #[trigger] a.0@[k].key@ == b.0@[k].key@ && a.0@[k].value@ == b.0@[k].value@,
    ensures
        a.eq_spec(&b),
{
    assert(path_identity(a) =~= path_identity(b));
}

#[derive(Debug, Clone, PartialEq, Eq, PartialOrd, Ord)]
pub struct MetadataIdentity {
    pub key: String,
    pub value: MetadataValue,
}

#[derive(Debug, Clone, PartialEq, Eq)]
pub enum MetadataTarget {
    Pane(PaneTarget),
    Tab(u64),
    Group(GroupPath),
    Identity(MetadataIdentity),
}

#[derive(Debug, Clone, PartialEq, Eq)]
pub struct MetadataValueUpdate {
    pub value: MetadataValue,
    pub ttl_ms: Option<u64>,
    pub precedence: Option<i64>,
    pub ordinal: Option<i64>,
}

#[derive(Debug, Clone, PartialEq, Eq)]
pub struct MetadataPatch {
    pub target: MetadataTarget,
    pub source_id: String,
    pub set: BTreeMap<String, MetadataValueUpdate>,
    pub unset: Vec<String>,
}

#[derive(Debug, Clone, PartialEq, Eq)]
pub struct MetadataEntry {
    pub value: MetadataValue,
    pub updated_at: u64,
    pub ttl_ms: Option<u64>,
    pub precedence: i64,
    pub ordinal: i64,
}

#[derive(Debug, Clone, PartialEq, Eq)]
pub struct ResolvedMetadata {
    pub target: MetadataTarget,
    pub values: BTreeMap<String, MetadataEntry>,
    pub source_entries: BTreeMap<String, Vec<MetadataSourceEntry>>,
    pub reachable_identities: Vec<ReachableMetadataIdentity>,
}

#[derive(Debug, Clone, PartialEq, Eq)]
pub struct MetadataSourceEntry {
    pub source_id: String,
    pub entry: MetadataEntry,
}

#[derive(Debug, Clone, PartialEq, Eq)]
pub struct ReachableMetadataIdentity {
    pub identity: MetadataIdentity,
    pub distance: usize,
}

#[derive(Debug, Clone, PartialEq, Eq)]
pub struct ObservedMetadataIdentity {
    pub identity: MetadataIdentity,
    pub target_count: usize,
    pub nearest_distance: usize,
}

#[derive(Debug, Clone, Copy, PartialEq, Eq, Structural)]
pub enum RailGroupingMode {
    NoGrouping,
    Directory,
}

impl Default for RailGroupingMode {
    fn default() -> (r: Self)
        ensures
            r == RailGroupingMode::NoGrouping,
    {
        Self::NoGrouping
    }
}

#[derive(Debug, Clone, Copy, PartialEq, Eq, Structural)]
pub enum RailViewMode {
    Normal,
    Metadata,
}

impl Default for RailViewMode {
    fn default() -> (r: Self)
        ensures
            r == RailViewMode::Normal,
    {
        Self::Normal
    }
}

#[derive(Debug, Clone, PartialEq, Eq)]
pub enum RailRow {
    GroupHeader {
        group_id: String,
        path: GroupPath,
        label: String,
        full_label: String,
        tab_count: usize,
        templates: ResolvedTemplateSlots,
    },
    Tab {
        tab_id: u64,
        indent: usize,
        parent_path: Option<GroupPath>,
    },
}

#[derive(Debug, Clone, Default, PartialEq, Eq)]
pub struct ResolvedTemplateSlots {
    pub group_header: Option<ResolvedTemplateSlot>,
    pub tab_title: Option<ResolvedTemplateSlot>,
    pub tab_status: Option<ResolvedTemplateSlot>,
}

#[derive(Debug, Clone, PartialEq, Eq)]
pub struct ResolvedTemplateSlot {
    pub template_name: String,
    pub fields: Vec<ResolvedTemplateField>,
}

#[derive(Debug, Clone, PartialEq, Eq)]
pub struct ResolvedTemplateField {
    pub text: String,
    pub priority: i64,
    pub source: Option<ResolvedTemplateFieldSource>,
}

#[derive(Debug, Clone, PartialEq, Eq, PartialOrd, Ord)]
pub struct ResolvedTemplateFieldSource {
    pub key: String,
    pub value: MetadataValue,
}

impl View for ResolvedTemplateFieldSource {
    type V = (Seq<char>, MetadataValueView);

    open spec fn view(&self) -> (Seq<char>, MetadataValueView) {
        (self.key@, self.value@)
    }
}

impl ResolvedTemplateFieldSource {
    /// Whether two sources name the same key and value.
    pub(crate) fn same_as(&self, other: &Self) -> (r: bool)
        ensures
            r == (self@ == other@),
    {
        self.key == other.key && self.value == other.value
    }

    /// A copy of this source.
    pub(crate) fn copied(&self) -> (r: Self)
        ensures
            r@ == self@,
    {
        ResolvedTemplateFieldSource { key: self.key.clone(), value: copy_metadata_value(&self.value) }
    }
}

fn copy_strings(v: &Vec<String>) -> (r: Vec<String>)
    ensures
        string_views(r@) == string_views(v@),
{
    let mut r: Vec<String> = Vec::new();
    let mut i: usize = 0;
    while i < v.len()
        invariant
            i <= v.len(),
            r@.len() == i,
            forall|k: int| 0 <= k < i ==> r@[k]@ == v@[k]@,
        decreases v.len() - i,
    {
        r.push(v[i].clone());
        i = i + 1;
    }
    proof {
        assert(string_views(r@) =~= string_views(v@));
    }
    r
}

fn copy_path_value(v: &MetadataPathValue) -> (r: MetadataPathValue)
    ensures
        r@ == v@,
{
    match v {
        MetadataPathValue::Text(t) => MetadataPathValue::Text(t.clone()),
        MetadataPathValue::Bool(b) => MetadataPathValue::Bool(*b),
        MetadataPathValue::Integer(n) => MetadataPathValue::Integer(*n),
        MetadataPathValue::StringList(items) => MetadataPathValue::StringList(copy_strings(items)),
    }
}

fn copy_segments(v: &Vec<MetadataPathSegmentValue>) -> (r: Vec<MetadataPathSegmentValue>)
    ensures
        r@.map_values(|s: MetadataPathSegmentValue| segment_identity(s)) == v@.map_values(
            |s: MetadataPathSegmentValue| segment_identity(s),
        ),
{
    let mut r: Vec<MetadataPathSegmentValue> = Vec::new();
    let mut i: usize = 0;
    while i < v.len()
        invariant
            i <= v.len(),
            r@.len() == i,
            forall|k: int| 0 <= k < i ==> segment_identity(r@[k]) == segment_identity(v@[k]),
        decreases v.len() - i,
    {
        let label = match &v[i].label {
            Some(l) => Some(l.clone()),
            None => None,
        };
        r.push(MetadataPathSegmentValue { key: v[i].key.clone(), value: copy_path_value(&v[i].value), label });
        i = i + 1;
    }
    proof {
        assert(r@.map_values(|s: MetadataPathSegmentValue| segment_identity(s)) =~= v@.map_values(
            |s: MetadataPathSegmentValue| segment_identity(s),
        ));
    }
    r
}

/// A copy of a metadata value.
pub(crate) fn copy_metadata_value(v: &MetadataValue) -> (r: MetadataValue)
    ensures
        r@ == v@,
{
    match v {
        MetadataValue::Text(t) => MetadataValue::Text(t.clone()),
        MetadataValue::Bool(b) => MetadataValue::Bool(*b),
        MetadataValue::Integer(n) => MetadataValue::Integer(*n),
        MetadataValue::StringList(items) => MetadataValue::StringList(copy_strings(items)),
        MetadataValue::GroupPath(segments) => MetadataValue::GroupPath(copy_segments(segments)),
    }
}

#[derive(Debug, Clone, Default, PartialEq, Eq)]
pub struct TemplateConfigDiagnostics {
    pub path: Option<String>,
    pub state: TemplateConfigState,
    pub template_count: usize,
    pub template_names: Vec<String>,
    pub last_error: Option<String>,
}

#[derive(Debug, Clone, Copy, Default, PartialEq, Eq, Structural)]
pub enum TemplateConfigState {
    #[default]
    NotConfigured,
    PendingPermission,
    Loaded,
    Error,
}

#[derive(Debug, Clone, Copy, PartialEq, Eq, Structural)]
pub struct RailConfig {
    pub structure: RailStructure,
    pub sizing: RailSizingPreset,
    pub grouping: RailGroupingMode,
    pub view: RailViewMode,
}

impl Default for RailConfig {
    /// Joined cells, a large active cell, no grouping, the normal view.
    fn default() -> (r: Self)
        ensures
            r == (RailConfig {
                structure: RailStructure::JoinedCells,
                sizing: RailSizingPreset::ActiveLarge,
                grouping: RailGroupingMode::NoGrouping,
                view: RailViewMode::Normal,
            }),
    {
        Self {
            structure: RailStructure::default(),
            sizing: RailSizingPreset::default(),
            grouping: RailGroupingMode::default(),
            view: RailViewMode::default(),
        }
    }
}

#[derive(Debug, Clone, PartialEq, Eq)]
pub struct ControllerViewModel {
    pub sort_mode: SortMode,
    pub config: RailConfig,
    pub template_config: TemplateConfigDiagnostics,
    pub tabs: Vec<TabCard>,
    pub rows: Vec<RailRow>,
    pub resolved_metadata: Vec<ResolvedMetadata>,
    pub observed_identities: Vec<ObservedMetadataIdentity>,
}

impl ControllerViewModel {
    /// The first tab with id `tab_id`.
    pub fn tab_by_id(&self, tab_id: u64) -> (r: Option<&TabCard>)
        ensures
            match r {
                Some(tab) => exists|i: int| {
                    &&& 0 <= i < self.tabs@.len()
                    &&& self.tabs@[i] == *tab
                    &&& tab.tab_id == tab_id
                    &&& forall|j: int| 0 <= j < i ==> self.tabs@[j].tab_id != tab_id
                },
                None => forall|j: int| 0 <= j < self.tabs@.len() ==> self.tabs@[j].tab_id != tab_id,
            },
    {
        let mut i: usize = 0;
        while i < self.tabs.len()
            invariant
                i <= self.tabs@.len(),
                forall|j: int| 0 <= j < i ==> self.tabs@[j].tab_id != tab_id,
            decreases self.tabs.len() - i,
        {
            if self.tabs[i].tab_id == tab_id {
                return Some(&self.tabs[i]);
            }
            i = i + 1;
        }
        None
    }

    /// The tab a tab row stands for; none for a group header.
    pub fn tab_for_row(&self, row: &RailRow) -> (r: Option<&TabCard>)
        ensures
            match row {
                RailRow::Tab { tab_id, .. } => match r {
                    Some(tab) => exists|i: int| {
                        &&& 0 <= i < self.tabs@.len()
                        &&& self.tabs@[i] == *tab
                        &&& tab.tab_id == *tab_id
                        &&& forall|j: int| 0 <= j < i ==> self.tabs@[j].tab_id != *tab_id
                    },
                    None => forall|j: int| 0 <= j < self.tabs@.len() ==> self.tabs@[j].tab_id != *tab_id,
                },
                RailRow::GroupHeader { .. } => r is None,
            },
    {
        match row {
            RailRow::Tab { tab_id, .. } => self.tab_by_id(*tab_id),
            RailRow::GroupHeader { .. } => None,
        }
    }
}

#[derive(Debug, Clone, PartialEq, Eq)]
pub struct StatsCollectRequest {
    pub requester: RendererHello,
    pub collection_id: u64,
}

} // verus!
