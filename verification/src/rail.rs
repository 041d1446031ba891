//! Decisions of the rail plugin: where it sits, how the wheel scrolls it or
//! switches tabs, and when a size request from the controller applies.

use vstd::prelude::*;
use crate::render::{HitAction, HitRegion, LocalTab, RenderedRail, VisibleCard, VisibleIconRect, status_icon_is_renderable};
use crate::model::StatusIcon;
use crate::text::{push_char, push_decimal, push_text, decimal};
use crate::model::RendererHello;
use crate::stats::{counter_entries, span_entries, upsert, PluginStatsRecorder, PluginStatsSnapshot};

verus! {

/// Graphics are only synchronised once a controller can answer.
pub fn should_sync_graphics(controller_available: bool) -> (r: bool)
    ensures
        r == controller_available,
{
    controller_available
}

/// `a + b` kept within the range of an `isize`.
pub open spec fn saturating_sum(a: int, b: int) -> int {
    if a + b > isize::MAX {
        isize::MAX as int
    } else if a + b < isize::MIN {
        isize::MIN as int
    } else {
        a + b
    }
}

fn saturating_add_isize(a: isize, b: isize) -> (r: isize)
    ensures
        r == saturating_sum(a as int, b as int),
{
    if b > 0 && a > isize::MAX - b {
        isize::MAX
    } else if b < 0 && a < isize::MIN - b {
        isize::MIN
    } else {
        a + b
    }
}

/// The tab (counted from one) that a wheel movement of `delta` lands on
/// from `active_tab_idx`: never before the first tab nor past the last.
pub open spec fn tab_after_scroll(active_tab_idx: int, tab_count: int, delta: int) -> int {
    if delta < 0 {
        let back = if active_tab_idx + delta < 0 { 0 } else { active_tab_idx + delta };
        if back > 1 { back } else { 1 }
    } else {
        let ahead = if active_tab_idx + delta > usize::MAX { usize::MAX as int } else { active_tab_idx + delta };
        if ahead < tab_count { ahead } else { tab_count }
    }
}

pub fn tab_index_after_scroll(active_tab_idx: usize, tab_count: usize, delta: isize) -> (r: usize)
    ensures
        r == tab_after_scroll(active_tab_idx as int, tab_count as int, delta as int),
{
    if delta < 0 {
        let magnitude: usize = ((-(delta + 1)) as usize) + 1;
        let back = active_tab_idx.saturating_sub(magnitude);
        if back > 1 { back } else { 1 }
    } else {
        let ahead = active_tab_idx.saturating_add(delta as usize);
        if ahead < tab_count { ahead } else { tab_count }
    }
}

/// Wheel movement goes to the controller unless the rail is known to fit
/// without scrolling; only then does the wheel switch tabs.
pub fn should_forward_scroll_to_controller(rail_can_scroll: Option<bool>) -> (r: bool)
    ensures
        r == !(rail_can_scroll == Some(false)),
{
    match rail_can_scroll {
        Some(false) => false,
        _ => true,
    }
}

/// What a flush of the queued wheel movement does.
#[derive(Debug, Clone, Copy, PartialEq, Eq, Structural)]
pub enum ScrollFlush {
    /// Nothing was queued, or no tab moves.
    Nothing,
    /// Ask the controller to scroll the rail by the net movement.
    ScrollBy { delta: isize },
    /// Switch to the tab at this position, counted from one.
    SwitchTab { target: usize },
}

/// Wheel movement waiting to be applied: a burst of events is summed and
/// applied once, when the flush that the first event scheduled arrives.
#[derive(Debug, Clone, Copy, PartialEq, Eq, Structural, Default)]
pub struct ScrollQueue {
    pub pending_delta: isize,
    pub flush_scheduled: bool,
}

/// The queue after `delta` more: `delta` added in, and a flush scheduled
/// unless the movement is zero.
pub open spec fn queued(queue: ScrollQueue, delta: int) -> ScrollQueue {
    if delta == 0 {
        queue
    } else {
        ScrollQueue { pending_delta: saturating_sum(queue.pending_delta as int, delta) as isize, flush_scheduled: true }
    }
}

/// What flushing `pending` does, given whether the rail can scroll, the
/// active tab (counted from one) and the number of tabs.
pub open spec fn flush_outcome(pending: int, rail_can_scroll: Option<bool>, active_tab_idx: Option<usize>, tab_count: int) -> ScrollFlush {
    if pending == 0 {
        ScrollFlush::Nothing
    } else if !(rail_can_scroll == Some(false)) {
        ScrollFlush::ScrollBy { delta: pending as isize }
    } else {
        match active_tab_idx {
            Some(active) => {
                let target = tab_after_scroll(active as int, tab_count, pending);
                if target != active { ScrollFlush::SwitchTab { target: target as usize } } else { ScrollFlush::Nothing }
            },
            None => ScrollFlush::Nothing,
        }
    }
}

impl ScrollQueue {
    pub fn new() -> (q: Self)
        ensures
            q.pending_delta == 0,
            !q.flush_scheduled,
    {
        ScrollQueue { pending_delta: 0, flush_scheduled: false }
    }

    /// Adds wheel movement; returns whether a flush must be scheduled now,
    /// which is the case for the first non-zero movement of a burst.
    pub fn queue_scroll_delta(&mut self, delta: isize) -> (schedule: bool)
        ensures
            *final(self) == queued(*old(self), delta as int),
            schedule == (delta != 0 && !old(self).flush_scheduled),
    {
        if delta == 0 {
            return false;
        }
        self.pending_delta = saturating_add_isize(self.pending_delta, delta);
        if !self.flush_scheduled {
            self.flush_scheduled = true;
            return true;
        }
        false
    }

    /// Applies the queued movement once and empties the queue.
    pub fn flush_pending_scroll(&mut self, rail_can_scroll: Option<bool>, active_tab_idx: Option<usize>, tab_count: usize) -> (r: ScrollFlush)
        ensures
            final(self).pending_delta == 0,
            !final(self).flush_scheduled,
            r == flush_outcome(old(self).pending_delta as int, rail_can_scroll, active_tab_idx, tab_count as int),
    {
        self.flush_scheduled = false;
        let delta = self.pending_delta;
        self.pending_delta = 0;
        if delta == 0 {
            return ScrollFlush::Nothing;
        }
        if should_forward_scroll_to_controller(rail_can_scroll) {
            return ScrollFlush::ScrollBy { delta };
        }
        match active_tab_idx {
            Some(active) => {
                let target = tab_index_after_scroll(active, tab_count, delta);
                if target != active {
                    ScrollFlush::SwitchTab { target }
                } else {
                    ScrollFlush::Nothing
                }
            },
            None => ScrollFlush::Nothing,
        }
    }

    /// Drops movement queued before an explicit navigation.
    pub fn reset_scroll_position(&mut self)
        ensures
            final(self).pending_delta == 0,
            !final(self).flush_scheduled,
    {
        self.pending_delta = 0;
        self.flush_scheduled = false;
    }
}

/// The queue after each of `deltas` in turn.
pub open spec fn queued_all(queue: ScrollQueue, deltas: Seq<isize>) -> ScrollQueue
    decreases deltas.len(),
{
    if deltas.len() == 0 {
        queue
    } else {
        queued(queued_all(queue, deltas.drop_last()), deltas.last() as int)
    }
}

/// The net movement of `deltas`, summed as the queue sums them.
pub open spec fn net_movement(start: int, deltas: Seq<isize>) -> int
    decreases deltas.len(),
{
    if deltas.len() == 0 {
        start
    } else {
        let before = net_movement(start, deltas.drop_last());
        if deltas.last() == 0 { before } else { saturating_sum(before, deltas.last() as int) }
    }
}

/// A burst of wheel events only sums into the queue: whatever the events,
/// the queue then holds their net movement, a flush is scheduled once any
/// of them moved, and the single flush applies that net movement once.
pub proof fn lemma_burst_applies_net_movement(
    deltas: Seq<isize>,
    rail_can_scroll: Option<bool>,
    active_tab_idx: Option<usize>,
    tab_count: usize,
)
    ensures
        queued_all(ScrollQueue { pending_delta: 0, flush_scheduled: false }, deltas).pending_delta == net_movement(0, deltas),
        queued_all(ScrollQueue { pending_delta: 0, flush_scheduled: false }, deltas).flush_scheduled
            == (exists|i: int| 0 <= i < deltas.len() && deltas[i] != 0),
        flush_outcome(
            queued_all(ScrollQueue { pending_delta: 0, flush_scheduled: false }, deltas).pending_delta as int,
            rail_can_scroll,
            active_tab_idx,
            tab_count as int,
        ) == flush_outcome(net_movement(0, deltas), rail_can_scroll, active_tab_idx, tab_count as int),
    decreases deltas.len(),
{
    if deltas.len() > 0 {
        let rest = deltas.drop_last();
        lemma_burst_applies_net_movement(rest, rail_can_scroll, active_tab_idx, tab_count);
        assert forall|i: int| 0 <= i < rest.len() implies rest[i] == deltas[i] by {}
        if exists|i: int| 0 <= i < deltas.len() && deltas[i] != 0 {
            if deltas.last() == 0 {
                let i = choose|i: int| 0 <= i < deltas.len() && deltas[i] != 0;
                assert(i < rest.len());
                assert(rest[i] != 0);
            }
        } else {
            assert(deltas[deltas.len() - 1] == 0);
            assert(!(exists|i: int| 0 <= i < rest.len() && rest[i] != 0)) by {
                assert forall|i: int| 0 <= i < rest.len() implies rest[i] == 0 by {
                    assert(deltas[i] == 0);
                }
            }
        }
    }
}

/// Where the rail sits on the screen.
#[derive(Debug, Clone, Copy, PartialEq, Eq, Structural)]
pub enum RailPlacement {
    Left,
    Right,
    Top,
    Bottom,
}

impl Default for RailPlacement {
    fn default() -> (r: Self)
        ensures
            r == RailPlacement::Left,
    {
        RailPlacement::Left
    }
}

/// The configuration word for each placement.
pub open spec fn placement_word(placement: RailPlacement) -> Seq<char> {
    match placement {
        RailPlacement::Left => seq!['l', 'e', 'f', 't'],
        RailPlacement::Right => seq!['r', 'i', 'g', 'h', 't'],
        RailPlacement::Top => seq!['t', 'o', 'p'],
        RailPlacement::Bottom => seq!['b', 'o', 't', 't', 'o', 'm'],
    }
}

impl RailPlacement {
    pub fn as_str(self) -> (s: &'static str)
        ensures
            s@ == placement_word(self),
    {
        proof {
            reveal_strlit("left");
            reveal_strlit("right");
            reveal_strlit("top");
            reveal_strlit("bottom");
        }
        match self {
            RailPlacement::Left => "left",
            RailPlacement::Right => "right",
            RailPlacement::Top => "top",
            RailPlacement::Bottom => "bottom",
        }
    }
}

/// The placement a configuration value names: one of the four words,
/// exactly; anything else names none.
pub fn parse_rail_placement(value: &str) -> (r: Option<RailPlacement>)
    ensures
        r matches Some(p) ==> value@ == placement_word(p),
        r is None ==> forall|p: RailPlacement| value@ != #[trigger] placement_word(p),
{
    proof {
        reveal_strlit("left");
        reveal_strlit("right");
        reveal_strlit("top");
        reveal_strlit("bottom");
    }
    if crate::text::text_equals(value, "left") {
        Some(RailPlacement::Left)
    } else if crate::text::text_equals(value, "right") {
        Some(RailPlacement::Right)
    } else if crate::text::text_equals(value, "top") {
        Some(RailPlacement::Top)
    } else if crate::text::text_equals(value, "bottom") {
        Some(RailPlacement::Bottom)
    } else {
        proof {
            assert forall|p: RailPlacement| value@ != #[trigger] placement_word(p) by {
                match p {
                    RailPlacement::Left => assert(placement_word(p) =~= "left"@),
                    RailPlacement::Right => assert(placement_word(p) =~= "right"@),
                    RailPlacement::Top => assert(placement_word(p) =~= "top"@),
                    RailPlacement::Bottom => assert(placement_word(p) =~= "bottom"@),
                }
            }
        }
        None
    }
}

/// Each placement has its own word, so a placement written out with
/// `as_str` reads back as itself through `parse_rail_placement`.
pub proof fn lemma_placement_words_are_distinct(a: RailPlacement, b: RailPlacement)
    ensures
        placement_word(a) == placement_word(b) ==> a == b,
{
    if placement_word(a) == placement_word(b) {
        assert(placement_word(a).len() == placement_word(b).len());
        assert(placement_word(a)[0] == placement_word(b)[0]);
    }
}

/// A side of a pane.
#[derive(Debug, Clone, Copy, PartialEq, Eq, Structural)]
pub enum Direction {
    Left,
    Right,
    Up,
    Down,
}

/// The side of the rail's pane that faces the rest of the screen, which
/// is the one a resize moves.
pub open spec fn boundary_of(placement: RailPlacement) -> Direction {
    match placement {
        RailPlacement::Left => Direction::Right,
        RailPlacement::Right => Direction::Left,
        RailPlacement::Top => Direction::Down,
        RailPlacement::Bottom => Direction::Up,
    }
}

pub fn rail_resize_boundary(placement: RailPlacement) -> (d: Direction)
    ensures
        d == boundary_of(placement),
{
    match placement {
        RailPlacement::Left => Direction::Right,
        RailPlacement::Right => Direction::Left,
        RailPlacement::Top => Direction::Down,
        RailPlacement::Bottom => Direction::Up,
    }
}

pub open spec fn direction_word(direction: Direction) -> Seq<char> {
    match direction {
        Direction::Left => seq!['l', 'e', 'f', 't'],
        Direction::Right => seq!['r', 'i', 'g', 'h', 't'],
        Direction::Up => seq!['u', 'p'],
        Direction::Down => seq!['d', 'o', 'w', 'n'],
    }
}

pub fn direction_name(direction: Direction) -> (s: &'static str)
    ensures
        s@ == direction_word(direction),
{
    proof {
        reveal_strlit("left");
        reveal_strlit("right");
        reveal_strlit("up");
        reveal_strlit("down");
    }
    match direction {
        Direction::Left => "left",
        Direction::Right => "right",
        Direction::Up => "up",
        Direction::Down => "down",
    }
}

/// The size constraint that measures the rail: its width beside the
/// screen, its height above or below it.
pub fn rail_size_from_constraints<T>(placement: RailPlacement, rows: Option<T>, columns: Option<T>) -> (r: Option<T>)
    ensures
        r == match placement {
            RailPlacement::Left | RailPlacement::Right => columns,
            RailPlacement::Top | RailPlacement::Bottom => rows,
        },
{
    match placement {
        RailPlacement::Left | RailPlacement::Right => columns,
        RailPlacement::Top | RailPlacement::Bottom => rows,
    }
}

/// Whether a size target applies: it is meant for this client, newer than
/// the last version dealt with, and the current size is not already within
/// tolerance of it.
pub open spec fn size_target_applies(target_client_id: u16, target_version: u64, own_client_id: Option<u16>, current_matches: Option<bool>, applied_version: u64) -> bool {
    own_client_id == Some(target_client_id) && target_version > applied_version && current_matches != Some(true)
}

/// The version dealt with once a target has been considered.
pub open spec fn version_after(applied_version: u64, target_version: u64, applied: bool) -> u64 {
    if applied || target_version > applied_version { target_version } else { applied_version }
}

/// Whether a size target from the controller is applied: it must be
/// meant for this client, newer than the last one applied, and differ from
/// the current size. `current_matches` says whether the current size is
/// within tolerance of the target, and is `None` when the size is unknown.
pub fn rail_size_target_should_apply(
    target_client_id: u16,
    target_version: u64,
    own_client_id: Option<u16>,
    current_matches: Option<bool>,
    applied_version: u64,
) -> (r: bool)
    ensures
        r == size_target_applies(target_client_id, target_version, own_client_id, current_matches, applied_version),
{
    match own_client_id {
        Some(own) => {
            if own != target_client_id || target_version <= applied_version {
                return false;
            }
        },
        None => {
            return false;
        },
    }
    match current_matches {
        Some(true) => false,
        _ => true,
    }
}

/// A size target from the controller: for which client, which version,
/// and the size, of whatever kind the host measures in.
#[derive(Debug, Clone, Copy, PartialEq, Eq, Structural)]
pub struct SizeTarget<T> {
    pub client_id: u16,
    pub version: u64,
    pub size: T,
}

/// The rail's record of size targets: the newest one meant for it, and the
/// newest version it has dealt with.
#[derive(Debug, Clone, Copy, PartialEq, Eq, Structural)]
pub struct RailSizeSync<T> {
    pub latest_target: Option<SizeTarget<T>>,
    pub applied_version: u64,
}

impl<T: Copy> RailSizeSync<T> {
    pub fn new() -> (r: Self)
        ensures
            r.latest_target is None,
            r.applied_version == 0,
    {
        RailSizeSync { latest_target: None, applied_version: 0 }
    }

    /// Keeps `target` when it is meant for this client and newer than the
    /// one kept; a target for another client is ignored.
    pub fn handle_rail_size_target(&mut self, target: SizeTarget<T>, own_client_id: Option<u16>)
        ensures
            final(self).applied_version == old(self).applied_version,
            final(self).latest_target == if own_client_id == Some(target.client_id) && (match old(self).latest_target {
                Some(current) => current.version < target.version,
                None => true,
            }) {
                Some(target)
            } else {
                old(self).latest_target
            },
    {
        match own_client_id {
            Some(own) => {
                if own != target.client_id {
                    return;
                }
            },
            None => {
                return;
            },
        }
        let newer = match self.latest_target {
            Some(current) => current.version < target.version,
            None => true,
        };
        if newer {
            self.latest_target = Some(target);
        }
    }

    /// Deals with the kept target: returns the size to resize the rail to
    /// when it applies, and marks its version as dealt with either way.
    /// `plugin_known` says whether the rail knows its own pane; without it
    /// nothing happens. `current_matches` says whether the current size is
    /// within tolerance of the kept target's size.
    pub fn reconcile_rail_size_target(&mut self, plugin_known: bool, own_client_id: Option<u16>, current_matches: Option<bool>) -> (r: Option<T>)
        ensures
            final(self).latest_target == old(self).latest_target,
            match old(self).latest_target {
                None => r is None && final(self).applied_version == old(self).applied_version,
                Some(target) => if !plugin_known {
                    r is None && final(self).applied_version == old(self).applied_version
                } else {
                    let applies = size_target_applies(target.client_id, target.version, own_client_id, current_matches, old(self).applied_version);
                    &&& r == if applies { Some(target.size) } else { None::<T> }
                    &&& final(self).applied_version == version_after(old(self).applied_version, target.version, applies)
                },
            },
    {
        let target = match self.latest_target {
            Some(target) => target,
            None => {
                return None;
            },
        };
        if !plugin_known {
            return None;
        }
        if !rail_size_target_should_apply(target.client_id, target.version, own_client_id, current_matches, self.applied_version) {
            if target.version > self.applied_version {
                self.applied_version = target.version;
            }
            return None;
        }
        self.applied_version = target.version;
        Some(target.size)
    }
}

/// Once the rail has dealt with a target, dealing with it again resizes
/// nothing, whatever the size is then: each target is applied at most once,
/// and the version dealt with never goes back.
pub proof fn lemma_size_target_applies_once(
    target_client_id: u16,
    target_version: u64,
    applied_version: u64,
    own_client_id: Option<u16>,
    first_matches: Option<bool>,
    second_matches: Option<bool>,
)
    ensures
        ({
            let first = size_target_applies(target_client_id, target_version, own_client_id, first_matches, applied_version);
            let after = version_after(applied_version, target_version, first);
            &&& after >= applied_version
            &&& !size_target_applies(target_client_id, target_version, own_client_id, second_matches, after)
        }),
{
}

/// The statistics report of a rail: its recorder's counters and spans, with
/// counters for its placement and the boundary it resizes, and the counter
/// for its observed size when there is one.
pub open spec fn rail_report_counters(
    counters: Seq<(Seq<char>, u64)>,
    placement: RailPlacement,
    size_counter: Option<(Seq<char>, u64)>,
) -> Seq<(Seq<char>, u64)> {
    let placed = upsert(counters, seq!['r', 'a', 'i', 'l', '.', 'p', 'l', 'a', 'c', 'e', 'm', 'e', 'n', 't', '.'] + placement_word(placement), 1);
    let bounded = upsert(placed, seq!['r', 'a', 'i', 'l', '.', 'b', 'o', 'u', 'n', 'd', 'a', 'r', 'y', '.'] + direction_word(boundary_of(placement)), 1);
    match size_counter {
        Some((name, value)) => upsert(bounded, name, value),
        None => bounded,
    }
}

pub fn rail_stats_snapshot(
    recorder: &PluginStatsRecorder,
    collection_id: u64,
    identity: RendererHello,
    placement: RailPlacement,
    size_counter: Option<(&str, u64)>,
) -> (r: PluginStatsSnapshot)
    ensures
        r.collection_id == collection_id,
        r.plugin_id == identity.plugin_id,
        r.client_id == identity.client_id,
        r.plugin_kind@ == seq!['r', 'a', 'i', 'l'],
        counter_entries(r.counters@) == rail_report_counters(
            recorder@.counters,
            placement,
            match size_counter {
                Some((name, value)) => Some((name@, value)),
                None => None,
            },
        ),
        span_entries(r.spans@) == recorder@.spans,
{
    proof {
        reveal_strlit("rail");
        reveal_strlit("rail.placement.");
        reveal_strlit("rail.boundary.");
    }
    let mut snapshot = recorder.snapshot(collection_id, identity, "rail");
    let mut placement_name = "rail.placement.".to_owned();
    push_text(&mut placement_name, placement.as_str());
    snapshot.insert_counter(placement_name.as_str(), 1);
    let mut boundary_name = "rail.boundary.".to_owned();
    push_text(&mut boundary_name, direction_name(rail_resize_boundary(placement)));
    snapshot.insert_counter(boundary_name.as_str(), 1);
    match size_counter {
        Some((name, value)) => snapshot.insert_counter(name, value),
        None => {},
    }
    proof {
        assert(placement_name@ =~= seq!['r', 'a', 'i', 'l', '.', 'p', 'l', 'a', 'c', 'e', 'm', 'e', 'n', 't', '.'] + placement_word(placement));
        assert(boundary_name@ =~= seq!['r', 'a', 'i', 'l', '.', 'b', 'o', 'u', 'n', 'd', 'a', 'r', 'y', '.'] + direction_word(boundary_of(placement)));
    }
    snapshot
}

/// The position, counted from one, of the first active tab.
pub open spec fn first_active(tabs: Seq<LocalTab>, from: int) -> Option<int>
    decreases tabs.len() - from,
{
    if from < 0 || from >= tabs.len() {
        None
    } else if tabs[from].active {
        Some(from)
    } else {
        first_active(tabs, from + 1)
    }
}

/// The active tab's position among `tabs`, counted from one.
pub fn active_tab_idx(tabs: &Vec<LocalTab>) -> (r: Option<usize>)
    ensures
        r == (match first_active(tabs@, 0) {
            Some(i) => Some((i + 1) as usize),
            None => None,
        }),
{
    let mut i: usize = 0;
    while i < tabs.len()
        invariant
            i <= tabs@.len(),
            first_active(tabs@, 0) == first_active(tabs@, i as int),
        decreases tabs.len() - i,
    {
        if tabs[i].active {
            return Some(i + 1);
        }
        i = i + 1;
    }
    None
}

/// The id of the first active tab.
pub fn active_tab_id(tabs: &Vec<LocalTab>) -> (r: Option<u64>)
    ensures
        r == (match first_active(tabs@, 0) {
            Some(i) => Some(tabs@[i].tab_id),
            None => None,
        }),
{
    let mut i: usize = 0;
    while i < tabs.len()
        invariant
            i <= tabs@.len(),
            first_active(tabs@, 0) == first_active(tabs@, i as int),
        decreases tabs.len() - i,
    {
        if tabs[i].active {
            return Some(tabs[i].tab_id);
        }
        i = i + 1;
    }
    None
}

/// What the rail compares of a tab: its id, position, name and whether it is active.
pub open spec fn local_tab_key(tab: LocalTab) -> (u64, usize, Seq<char>, bool) {
    (tab.tab_id, tab.position, tab.name@, tab.active)
}

/// The host's tabs as the rail records them, compared as `local_tab_key`.
pub open spec fn projected_keys(tabs: Seq<HostTab>) -> Seq<(u64, usize, Seq<char>, bool)> {
    tabs.map_values(|t: HostTab| (t.tab_id as u64, t.position, tab_display_name(t.name@, t.position as int), t.active))
}

/// Whether the host's tabs differ from what the rail last drew.
pub fn local_tabs_need_render(current: &Vec<LocalTab>, host_tabs: &Vec<HostTab>) -> (r: bool)
    requires
        forall|i: int| 0 <= i < host_tabs@.len() ==> #[trigger] host_tabs@[i].position < usize::MAX,
    ensures
        r == (current@.map_values(|t: LocalTab| local_tab_key(t)) != projected_keys(host_tabs@)),
{
    let projected = local_tabs_from_zellij(host_tabs);
    let ghost a = current@.map_values(|t: LocalTab| local_tab_key(t));
    let ghost b = projected_keys(host_tabs@);
    if current.len() != projected.len() {
        proof {
            assert(a.len() != b.len());
        }
        return true;
    }
    let mut i: usize = 0;
    while i < current.len()
        invariant
            current@.len() == projected@.len(),
            projected@.len() == host_tabs@.len(),
            a == current@.map_values(|t: LocalTab| local_tab_key(t)),
            b == projected_keys(host_tabs@),
            forall|k: int|
                0 <= k < host_tabs@.len() ==> {
                    &&& #[trigger] projected@[k].tab_id == host_tabs@[k].tab_id as u64
                    &&& projected@[k].position == host_tabs@[k].position
                    &&& projected@[k].name@ == tab_display_name(host_tabs@[k].name@, host_tabs@[k].position as int)
                    &&& projected@[k].active == host_tabs@[k].active
                },
            i <= current@.len(),
            forall|k: int| 0 <= k < i ==> a[k] == b[k],
        decreases current.len() - i,
    {
        let x = &current[i];
        let y = &projected[i];
        if x.tab_id != y.tab_id || x.position != y.position || x.name != y.name || x.active != y.active {
            proof {
                assert(projected@[i as int].tab_id == host_tabs@[i as int].tab_id as u64);
                assert(a[i as int] != b[i as int]);
                assert(a != b);
            }
            return true;
        }
        proof {
            assert(projected@[i as int].tab_id == host_tabs@[i as int].tab_id as u64);
        }
        i = i + 1;
    }
    proof {
        assert(a =~= b);
    }
    false
}

/// A tab as the host reports it.
#[derive(Debug, Clone)]
pub struct HostTab {
    pub tab_id: usize,
    pub position: usize,
    pub name: String,
    pub active: bool,
}

/// The name a tab shows: its own, or `Tab <n>` by its position when it has none.
pub open spec fn tab_display_name(name: Seq<char>, position: int) -> Seq<char> {
    if name.len() == 0 {
        seq!['T', 'a', 'b', ' '] + decimal((position + 1) as nat)
    } else {
        name
    }
}

/// The rail's own record of the host's tabs, unnamed tabs named by position.
pub fn local_tabs_from_zellij(tabs: &Vec<HostTab>) -> (r: Vec<LocalTab>)
    requires
        forall|i: int| 0 <= i < tabs@.len() ==> #[trigger] tabs@[i].position < usize::MAX,
    ensures
        r@.len() == tabs@.len(),
        forall|i: int|
            0 <= i < tabs@.len() ==> {
                &&& #[trigger] r@[i].tab_id == tabs@[i].tab_id as u64
                &&& r@[i].position == tabs@[i].position
                &&& r@[i].name@ == tab_display_name(tabs@[i].name@, tabs@[i].position as int)
                &&& r@[i].active == tabs@[i].active
            },
{
    let mut out: Vec<LocalTab> = Vec::new();
    let mut i: usize = 0;
    while i < tabs.len()
        invariant
            i <= tabs@.len(),
            out@.len() == i,
            forall|i: int| 0 <= i < tabs@.len() ==> #[trigger] tabs@[i].position < usize::MAX,
            forall|k: int|
                0 <= k < i ==> {
                    &&& #[trigger] out@[k].tab_id == tabs@[k].tab_id as u64
                    &&& out@[k].position == tabs@[k].position
                    &&& out@[k].name@ == tab_display_name(tabs@[k].name@, tabs@[k].position as int)
                    &&& out@[k].active == tabs@[k].active
                },
        decreases tabs.len() - i,
    {
        let tab = &tabs[i];
        let name = if tab.name.as_str().is_empty() {
            let mut name = String::new();
            push_char(&mut name, 'T');
            push_char(&mut name, 'a');
            push_char(&mut name, 'b');
            push_char(&mut name, ' ');
            push_decimal(&mut name, (tab.position + 1) as u64);
            proof {
                assert(name@ =~= tab_display_name(tab.name@, tab.position as int));
            }
            name
        } else {
            tab.name.clone()
        };
        assert(name@ == tab_display_name(tabs@[i as int].name@, tabs@[i as int].position as int));
        let local = LocalTab { tab_id: tab.tab_id as u64, position: tab.position, name, active: tab.active };
        out.push(local);
        assert(out@[i as int] == local);
        i = i + 1;
    }
    out
}

/// An icon drawn on the rail: its placement id, where and which.
#[derive(Debug, Clone)]
pub struct GraphicsSignatureEntry {
    pub placement_id: u32,
    pub rect: VisibleIconRect,
    pub icon: StatusIcon,
}

/// What identifies a status icon: whether it is a PNG file, and its text.
pub open spec fn icon_key(icon: StatusIcon) -> (bool, Seq<char>) {
    match icon {
        StatusIcon::Builtin(name) => (false, name@),
        StatusIcon::PngFile(path) => (true, path@),
    }
}

pub open spec fn entry_key(entry: GraphicsSignatureEntry) -> (u32, VisibleIconRect, (bool, Seq<char>)) {
    (entry.placement_id, entry.rect, icon_key(entry.icon))
}

/// The icons that the visible cards draw: each card with a placed PNG icon,
/// numbered from ten thousand by the card's position.
pub open spec fn graphics_signature(cards: Seq<VisibleCard>, n: int) -> Seq<(u32, VisibleIconRect, (bool, Seq<char>))>
    decreases n,
{
    if n <= 0 || n > cards.len() {
        Seq::empty()
    } else {
        let before = graphics_signature(cards, n - 1);
        let card = cards[n - 1];
        match (card.status_icon_rect, card.status_icon) {
            (Some(rect), Some(icon)) => if icon is PngFile {
                before.push(((10000 + n - 1) as u32, rect, icon_key(icon)))
            } else {
                before
            },
            _ => before,
        }
    }
}

fn clone_icon(icon: &StatusIcon) -> (r: StatusIcon)
    ensures
        icon_key(r) == icon_key(*icon),
{
    match icon {
        StatusIcon::Builtin(name) => StatusIcon::Builtin(name.clone()),
        StatusIcon::PngFile(path) => StatusIcon::PngFile(path.clone()),
    }
}

pub fn visible_graphics_signature(visible_cards: &Vec<VisibleCard>) -> (r: Vec<GraphicsSignatureEntry>)
    requires
        visible_cards@.len() + 10000 <= u32::MAX,
    ensures
        r@.map_values(|e: GraphicsSignatureEntry| entry_key(e)) == graphics_signature(visible_cards@, visible_cards@.len() as int),
{
    let mut out: Vec<GraphicsSignatureEntry> = Vec::new();
    let mut index: usize = 0;
    while index < visible_cards.len()
        invariant
            index <= visible_cards@.len(),
            visible_cards@.len() + 10000 <= u32::MAX,
            out@.map_values(|e: GraphicsSignatureEntry| entry_key(e)) == graphics_signature(visible_cards@, index as int),
        decreases visible_cards.len() - index,
    {
        let card = &visible_cards[index];
        match (card.status_icon_rect, &card.status_icon) {
            (Some(rect), Some(icon)) => {
                if status_icon_is_renderable(icon) {
                    let entry = GraphicsSignatureEntry { placement_id: 10000 + index as u32, rect, icon: clone_icon(icon) };
                    proof {
                        assert(out@.push(entry).map_values(|e: GraphicsSignatureEntry| entry_key(e)) =~= out@.map_values(
                            |e: GraphicsSignatureEntry| entry_key(e),
                        ).push(entry_key(entry)));
                    }
                    out.push(entry);
                }
            },
            _ => {},
        }
        index = index + 1;
    }
    out
}

fn icons_equal(a: &StatusIcon, b: &StatusIcon) -> (r: bool)
    ensures
        r == (icon_key(*a) == icon_key(*b)),
{
    match (a, b) {
        (StatusIcon::Builtin(x), StatusIcon::Builtin(y)) => crate::text::text_equals(x.as_str(), y.as_str()),
        (StatusIcon::PngFile(x), StatusIcon::PngFile(y)) => crate::text::text_equals(x.as_str(), y.as_str()),
        _ => false,
    }
}

/// Whether the icons must be drawn again: always the first time, then
/// whenever the visible icons differ from the last ones drawn.
pub fn graphics_signature_needs_sync(previous: Option<&Vec<GraphicsSignatureEntry>>, visible_cards: &Vec<VisibleCard>) -> (r: bool)
    requires
        visible_cards@.len() + 10000 <= u32::MAX,
    ensures
        r == match previous {
            Some(p) => p@.map_values(|e: GraphicsSignatureEntry| entry_key(e)) != graphics_signature(
                visible_cards@,
                visible_cards@.len() as int,
            ),
            None => true,
        },
{
    let current = visible_graphics_signature(visible_cards);
    let prev = match previous {
        Some(p) => p,
        None => {
            return true;
        },
    };
    let ghost pk = prev@.map_values(|e: GraphicsSignatureEntry| entry_key(e));
    let ghost ck = current@.map_values(|e: GraphicsSignatureEntry| entry_key(e));
    if prev.len() != current.len() {
        proof {
            assert(pk.len() != ck.len());
        }
        return true;
    }
    let mut i: usize = 0;
    while i < current.len()
        invariant
            prev@.len() == current@.len(),
            pk == prev@.map_values(|e: GraphicsSignatureEntry| entry_key(e)),
            ck == current@.map_values(|e: GraphicsSignatureEntry| entry_key(e)),
            ck == graphics_signature(visible_cards@, visible_cards@.len() as int),
            previous == Some(prev),
            i <= current@.len(),
            forall|k: int| 0 <= k < i ==> pk[k] == ck[k],
        decreases current.len() - i,
    {
        let a = &prev[i];
        let b = &current[i];
        if a.placement_id != b.placement_id || a.rect != b.rect || !icons_equal(&a.icon, &b.icon) {
            proof {
                assert(pk[i as int] != ck[i as int]);
                assert(pk != ck);
            }
            return true;
        }
        i = i + 1;
    }
    proof {
        assert(pk =~= ck);
    }
    false
}

/// What a click on a hit region asks the rail to do.
#[derive(Debug, Clone, Copy, PartialEq, Eq, Structural)]
pub enum ClickEffect {
    /// Switch to the tab at this position, counted from one.
    SwitchTab { position: u32 },
    /// Activate the entity the region inspects.
    ActivateEntity,
    /// Materialize the latent tab the region offers.
    Materialize,
    TogglePin { tab_id: u64 },
    /// Collapse or expand the region's group.
    ToggleGroup,
    /// Collapse or expand the region's placement.
    TogglePlacement,
    OpenConfig,
    ScrollBy { delta: isize },
    /// Open the configuration for the region's node.
    InspectNode,
    /// Select the region's node for the detail surface; the rail is drawn again.
    ShowDetail,
    ToggleVariable { index: usize },
}

pub open spec fn click_effect_of(hit: HitRegion) -> ClickEffect {
    match hit.action {
        HitAction::SwitchTab => ClickEffect::SwitchTab { position: (hit.tab_position + 1) as u32 },
        HitAction::ActivateEntity => ClickEffect::ActivateEntity,
        HitAction::Materialize => ClickEffect::Materialize,
        HitAction::TogglePin => ClickEffect::TogglePin { tab_id: hit.tab_id },
        HitAction::ToggleGroup => ClickEffect::ToggleGroup,
        HitAction::TogglePlacement => ClickEffect::TogglePlacement,
        HitAction::OpenConfig => ClickEffect::OpenConfig,
        HitAction::ScrollRailUp => ClickEffect::ScrollBy { delta: -1isize },
        HitAction::ScrollRailDown => ClickEffect::ScrollBy { delta: 1isize },
        HitAction::InspectNode => ClickEffect::InspectNode,
        HitAction::ShowDetail => ClickEffect::ShowDetail,
        HitAction::ToggleVariable(index) => ClickEffect::ToggleVariable { index },
    }
}

/// What a click on `hit` does; tabs are switched to by their position
/// counted from one.
pub fn click_effect(hit: &HitRegion) -> (r: ClickEffect)
    requires
        hit.tab_position < usize::MAX,
    ensures
        r == click_effect_of(*hit),
{
    match hit.action {
        HitAction::SwitchTab => ClickEffect::SwitchTab { position: (hit.tab_position + 1) as u32 },
        HitAction::ActivateEntity => ClickEffect::ActivateEntity,
        HitAction::Materialize => ClickEffect::Materialize,
        HitAction::TogglePin => ClickEffect::TogglePin { tab_id: hit.tab_id },
        HitAction::ToggleGroup => ClickEffect::ToggleGroup,
        HitAction::TogglePlacement => ClickEffect::TogglePlacement,
        HitAction::OpenConfig => ClickEffect::OpenConfig,
        HitAction::ScrollRailUp => ClickEffect::ScrollBy { delta: -1 },
        HitAction::ScrollRailDown => ClickEffect::ScrollBy { delta: 1 },
        HitAction::InspectNode => ClickEffect::InspectNode,
        HitAction::ShowDetail => ClickEffect::ShowDetail,
        HitAction::ToggleVariable(index) => ClickEffect::ToggleVariable { index },
    }
}

/// The movement of a wheel event of `lines` lines: negative upwards,
/// `isize::MAX` lines at most.
pub fn wheel_delta(lines: usize, up: bool) -> (delta: isize)
    ensures
        delta == (if up { -(if lines > isize::MAX { isize::MAX as int } else { lines as int }) } else {
            if lines > isize::MAX { isize::MAX as int } else { lines as int }
        }),
{
    let magnitude: isize = if lines > isize::MAX as usize { isize::MAX } else { lines as isize };
    if up { -magnitude } else { magnitude }
}

// ---------------------------------------------------------------------------
// After a render

/// A request to reveal the active tab is only made while the rail sits in
/// the active tab.
pub fn should_ensure_active_visible(latched: bool, own_tab_id: Option<u64>, active_tab_id: Option<u64>) -> (r: bool)
    ensures
        r == (latched && own_tab_id == active_tab_id),
{
    latched && match own_tab_id {
        Some(own) => match active_tab_id {
            Some(active) => own == active,
            None => false,
        },
        None => active_tab_id.is_none(),
    }
}

/// What the rail does once a render is done.
#[derive(Debug, Clone, Copy, PartialEq, Eq, Structural)]
pub struct RenderFollowUp {
    /// Whether the request to reveal the active tab stays pending.
    pub ensure_active_visible: bool,
    /// A scroll offset to ask the controller for.
    pub scroll_offset_request: Option<isize>,
    /// What the rail knows of whether its window can scroll.
    pub rail_can_scroll: Option<bool>,
    /// Whether the visible cards' graphics are synchronised.
    pub sync_graphics: bool,
}

/// The decisions that follow a render: the reveal request stays pending
/// until a render that was asked to reveal the active tab found it; a new
/// offset the render needs is sent to the controller; scrollability is known
/// only while a controller is available; graphics follow the controller.
pub fn render_follow_up(latched: bool, ensure_requested: bool, controller_available: bool, rendered: &RenderedRail) -> (r: RenderFollowUp)
    ensures
        r.ensure_active_visible == (latched && !(ensure_requested && rendered.ensure_active_resolved)),
        r.scroll_offset_request == rendered.ensure_visible_offset,
        r.rail_can_scroll == (if controller_available { Some(rendered.content_height > rendered.available_rows) } else { None }),
        r.sync_graphics == controller_available,
{
    let ensure_active_visible = if ensure_requested && rendered.ensure_active_resolved { false } else { latched };
    RenderFollowUp {
        ensure_active_visible,
        scroll_offset_request: rendered.ensure_visible_offset,
        rail_can_scroll: if controller_available { Some(rendered.can_scroll()) } else { None },
        sync_graphics: should_sync_graphics(controller_available),
    }
}

// ---------------------------------------------------------------------------
// Shared rail state

/// The revision of the rail state the controller broadcasts: a sequence
/// number, with the writing client breaking ties.
#[derive(Debug, Clone, Copy, PartialEq, Eq, Structural)]
pub struct RailUiRevision {
    pub sequence: u64,
    pub writer_client_id: u16,
}

/// `a` comes after `b`: a higher sequence, or the same sequence written by
/// a higher client.
pub open spec fn revision_after(a: RailUiRevision, b: RailUiRevision) -> bool {
    a.sequence > b.sequence || (a.sequence == b.sequence && a.writer_client_id > b.writer_client_id)
}

/// A broadcast rail state replaces the one held only when its revision
/// comes after it; an equal or older one is ignored.
pub fn accepts_rail_ui_revision(current: RailUiRevision, incoming: RailUiRevision) -> (r: bool)
    ensures
        r == revision_after(incoming, current),
{
    incoming.sequence > current.sequence
        || (incoming.sequence == current.sequence && incoming.writer_client_id > current.writer_client_id)
}

/// Revisions are totally ordered: of two different revisions exactly one
/// comes after the other, and none comes after itself, so rails that see
/// the same broadcasts in any order end on the same state.
pub proof fn lemma_revisions_totally_ordered(a: RailUiRevision, b: RailUiRevision, c: RailUiRevision)
    ensures
        !revision_after(a, a),
        a != b ==> (revision_after(a, b) != revision_after(b, a)),
        revision_after(a, b) && revision_after(b, c) ==> revision_after(a, c),
{
}

/// The hit action an effect carries out: each effect is named after its
/// action, and a scroll goes up for a negative movement.
pub open spec fn action_of_effect(e: ClickEffect) -> HitAction {
    match e {
        ClickEffect::SwitchTab { .. } => HitAction::SwitchTab,
        ClickEffect::ActivateEntity => HitAction::ActivateEntity,
        ClickEffect::Materialize => HitAction::Materialize,
        ClickEffect::TogglePin { .. } => HitAction::TogglePin,
        ClickEffect::ToggleGroup => HitAction::ToggleGroup,
        ClickEffect::TogglePlacement => HitAction::TogglePlacement,
        ClickEffect::OpenConfig => HitAction::OpenConfig,
        ClickEffect::ScrollBy { delta } => if delta < 0 { HitAction::ScrollRailUp } else { HitAction::ScrollRailDown },
        ClickEffect::InspectNode => HitAction::InspectNode,
        ClickEffect::ShowDetail => HitAction::ShowDetail,
        ClickEffect::ToggleVariable { index } => HitAction::ToggleVariable(index),
    }
}

/// A click does what its region's action says: the effect is the one
/// named after the action, so different actions never share an effect; a
/// tab switch goes to the region's tab, counted from one; a pin toggles the
/// region's tab; a scroll moves one row.
pub proof fn lemma_click_does_what_the_hit_says(a: HitRegion, b: HitRegion)
    ensures
        action_of_effect(click_effect_of(a)) == a.action,
        click_effect_of(a) == click_effect_of(b) ==> a.action == b.action,
        a.action == HitAction::SwitchTab ==> click_effect_of(a) == (ClickEffect::SwitchTab { position: (a.tab_position + 1) as u32 }),
        a.action == HitAction::TogglePin ==> click_effect_of(a) == (ClickEffect::TogglePin { tab_id: a.tab_id }),
        (a.action == HitAction::ScrollRailUp || a.action == HitAction::ScrollRailDown) ==> (click_effect_of(a) matches ClickEffect::ScrollBy {
            delta,
        } && (delta == 1 || delta == -1)),
{
}

} // verus!
