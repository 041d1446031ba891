//! Terminal drawing helpers of the rail: styles, truncation with ellipses,
//! viewport arithmetic, strip segments and metadata panels.

use vstd::prelude::*;
use crate::width::{str_width, char_cols, text_width, char_display_width};
use crate::text::{string_views, split_words, words, bool_text, bool_text_spec, decimal, push_decimal, signed_decimal, signed_decimal_text, joined, join_texts, chars_of, string_from_chars, push_text, push_char, spaces, blank, padded, pad_to_width, text_equals};
use crate::inline_layout::InlineHit;
use crate::segment_bar::SegmentItem;
use crate::model::{Priority, StatusIcon, TabStatusSummary, ReachableMetadataIdentity, MetadataValue, MetadataPathSegmentValue, GroupSegment, GroupPath, PaneTarget, path_value_text};

verus! {

/// Terminal-owned colors; the host adapter translates its theme.
#[derive(Debug, Clone, Copy, PartialEq, Eq)]
pub enum PaletteColor {
    Rgb((u8, u8, u8)),
    EightBit(u8),
}

#[derive(Debug, Clone, Copy, PartialEq, Eq, Structural)]
pub struct SizeInPixels {
    pub height: usize,
    pub width: usize,
}

#[derive(Debug, Clone, PartialEq, Eq)]
pub struct LocalTab {
    pub tab_id: u64,
    pub position: usize,
    pub name: String,
    pub active: bool,
}

#[derive(Debug, Clone, Copy, PartialEq, Eq, Structural)]
pub enum HitAction {
    SwitchTab,
    ActivateEntity,
    Materialize,
    TogglePin,
    ToggleGroup,
    TogglePlacement,
    OpenConfig,
    ScrollRailUp,
    ScrollRailDown,
    InspectNode,
    ShowDetail,
    ToggleVariable(usize),
}

/// A clickable region of the rendered rail, in rows and columns, both ends included.
#[derive(Debug, Clone, PartialEq, Eq)]
pub struct HitRegion {
    pub row_start: usize,
    pub row_end: usize,
    pub col_start: usize,
    pub col_end: usize,
    pub tab_id: u64,
    pub tab_position: usize,
    pub group_path: Option<GroupPath>,
    pub action: HitAction,
}

#[derive(Debug, Clone, Copy, PartialEq, Eq, Structural)]
pub struct VisibleIconRect {
    pub x: usize,
    pub y: usize,
    pub columns: usize,
    pub rows: usize,
}

/// A card the rail shows, with where its status icon is drawn.
#[derive(Debug, Clone)]
pub struct VisibleCard {
    pub tab_id: u64,
    pub tab_position: usize,
    pub row_start: usize,
    pub status_row: Option<usize>,
    pub status_icon_rect: Option<VisibleIconRect>,
    pub status_priority: Option<Priority>,
    pub status_icon: Option<StatusIcon>,
}

/// What one render of the rail produced: its lines, where clicks land and
/// which cards are on screen.
#[derive(Debug, Clone)]
pub struct RenderedRail {
    pub lines: Vec<String>,
    pub hit_regions: Vec<HitRegion>,
    pub visible_cards: Vec<VisibleCard>,
    /// Rows the whole content would take.
    pub content_height: usize,
    /// Rows the rail has on screen.
    pub available_rows: usize,
    /// A new shared absolute offset needed to reveal a newly active tab.
    pub ensure_visible_offset: Option<isize>,
    /// Whether an ensure-visible request found its tab or group header.
    pub ensure_active_resolved: bool,
}

impl RenderedRail {
    /// The rail window can scroll exactly when its content is taller than the
    /// rows it has; otherwise the wheel switches tabs.
    pub fn can_scroll(&self) -> (r: bool)
        ensures
            r == (self.content_height > self.available_rows),
    {
        self.content_height > self.available_rows
    }
}

#[derive(Debug, Clone, Copy)]
pub struct RenderTheme {
    pub active_border: PaletteColor,
    pub inactive_border: PaletteColor,
    pub body_foreground: PaletteColor,
    pub segment_active_background: PaletteColor,
    pub segment_active_foreground: PaletteColor,
    pub segment_inactive_background: PaletteColor,
    pub segment_inactive_foreground: PaletteColor,
    pub segment_between_background: PaletteColor,
}

// ---------------------------------------------------------------------------
// Styling

/// A terminal color as the ANSI styles use it.
#[derive(Debug, Clone, Copy, PartialEq, Eq, Structural)]
pub enum AnsiColor {
    Red,
    Fixed(u8),
    Rgb(u8, u8, u8),
}

/// The part of a terminal text style that the rail uses.
#[derive(Debug, Clone, Copy, PartialEq, Eq, Structural)]
pub struct TextStyle {
    pub foreground: Option<AnsiColor>,
    pub background: Option<AnsiColor>,
    pub bold: bool,
    pub dimmed: bool,
}

pub open spec fn plain_style() -> TextStyle {
    TextStyle { foreground: None, background: None, bold: false, dimmed: false }
}

/// The text that `ansi_term` writes for `text` painted in `style`.
pub uninterp spec fn ansi_painted(style: TextStyle, text: Seq<char>) -> Seq<char>;

/// Calls `ansi_term::Style::paint` and writes the result out as a string.
/// The result is named by `ansi_painted`; the crate documents that a style
/// with no properties set leaves the text as it is.
#[verifier::external_body]
pub(crate) fn paint(style: TextStyle, text: &str) -> (s: String)
    ensures
        s@ == ansi_painted(style, text@),
        style == plain_style() ==> s@ == text@,
{
    let colour = |c: Option<AnsiColor>| match c {
        Some(AnsiColor::Red) => Some(ansi_term::Colour::Red),
        Some(AnsiColor::Fixed(n)) => Some(ansi_term::Colour::Fixed(n)),
        Some(AnsiColor::Rgb(r, g, b)) => Some(ansi_term::Colour::RGB(r, g, b)),
        None => None,
    };
    ansi_term::Style {
        foreground: colour(style.foreground),
        background: colour(style.background),
        is_bold: style.bold,
        is_dimmed: style.dimmed,
        ..ansi_term::Style::default()
    }.paint(text).to_string()
}

pub open spec fn ansi_color_of(color: PaletteColor) -> AnsiColor {
    match color {
        PaletteColor::Rgb((r, g, b)) => AnsiColor::Rgb(r, g, b),
        PaletteColor::EightBit(n) => AnsiColor::Fixed(n),
    }
}

pub fn ansi_color(color: PaletteColor) -> (c: AnsiColor)
    ensures
        c == ansi_color_of(color),
{
    match color {
        PaletteColor::Rgb((r, g, b)) => AnsiColor::Rgb(r, g, b),
        PaletteColor::EightBit(n) => AnsiColor::Fixed(n),
    }
}

pub open spec fn foreground_spec(color: PaletteColor) -> TextStyle {
    TextStyle { foreground: Some(ansi_color_of(color)), ..plain_style() }
}

pub fn foreground_style(color: PaletteColor) -> (s: TextStyle)
    ensures
        s == foreground_spec(color),
{
    TextStyle { foreground: Some(ansi_color(color)), background: None, bold: false, dimmed: false }
}

/// Foreground `foreground` on background `background`, bold when asked.
pub fn style_cell(foreground: PaletteColor, background: PaletteColor, bold: bool) -> (s: TextStyle)
    ensures
        s == (TextStyle { foreground: Some(ansi_color_of(foreground)), background: Some(ansi_color_of(background)), bold: bold, dimmed: false }),
{
    TextStyle { foreground: Some(ansi_color(foreground)), background: Some(ansi_color(background)), bold, dimmed: false }
}

/// The style of a tab that only exists as a latent entry: dimmed.
pub fn latent_tab_style(style: TextStyle) -> (s: TextStyle)
    ensures
        s == (TextStyle { dimmed: true, ..style }),
{
    TextStyle { dimmed: true, ..style }
}

pub open spec fn body_text_spec(line: Seq<char>, theme: Option<RenderTheme>) -> Seq<char> {
    match theme {
        None => line,
        Some(theme) => ansi_painted(foreground_spec(theme.body_foreground), line),
    }
}

/// Body text in the theme's body color; unstyled without a theme.
pub fn style_body_text(line: String, theme: Option<RenderTheme>) -> (s: String)
    ensures
        s@ == body_text_spec(line@, theme),
{
    match theme {
        None => line,
        Some(theme) => paint(foreground_style(theme.body_foreground), line.as_str()),
    }
}

pub open spec fn border_style_spec(active: bool, theme: RenderTheme) -> TextStyle {
    TextStyle { bold: true, ..foreground_spec(if active { theme.active_border } else { theme.inactive_border }) }
}

pub open spec fn border_text_spec(line: Seq<char>, active: bool, theme: Option<RenderTheme>) -> Seq<char> {
    match theme {
        None => line,
        Some(theme) => ansi_painted(border_style_spec(active, theme), line),
    }
}

/// Border text in bold, in the active or inactive border color.
pub fn style_border_text(line: String, active: bool, theme: Option<RenderTheme>) -> (s: String)
    ensures
        s@ == border_text_spec(line@, active, theme),
{
    match theme {
        None => line,
        Some(theme) => {
            let style = foreground_style(if active { theme.active_border } else { theme.inactive_border });
            paint(TextStyle { bold: true, ..style }, line.as_str())
        },
    }
}

pub open spec fn title_style_spec(active: bool, dimmed: bool, theme: Option<RenderTheme>) -> TextStyle {
    let base = match theme {
        Some(theme) => border_style_spec(active, theme),
        None => plain_style(),
    };
    if dimmed { TextStyle { dimmed: true, ..base } } else { base }
}

/// A title in the border style (dimmed for latent tabs); painting with no
/// theme and no dimming leaves it unstyled.
pub fn style_title_text(line: String, active: bool, dimmed: bool, theme: Option<RenderTheme>) -> (s: String)
    ensures
        s@ == ansi_painted(title_style_spec(active, dimmed, theme), line@),
        theme is None && !dimmed ==> s@ == line@,
{
    let mut style = match theme {
        Some(theme) => {
            let base = foreground_style(if active { theme.active_border } else { theme.inactive_border });
            TextStyle { bold: true, ..base }
        },
        None => TextStyle { foreground: None, background: None, bold: false, dimmed: false },
    };
    if dimmed {
        style = latent_tab_style(style);
    }
    paint(style, line.as_str())
}

pub open spec fn group_header_text_spec(line: Seq<char>, contains_active_tab: bool, theme: Option<RenderTheme>) -> Seq<char> {
    match theme {
        None => line,
        Some(theme) => if contains_active_tab {
            ansi_painted(border_style_spec(true, theme), line)
        } else {
            ansi_painted(foreground_spec(theme.body_foreground), line)
        },
    }
}

/// A group header: bold in the active border color when the group holds
/// the active tab, in the body color otherwise.
pub fn style_group_header_text(line: String, contains_active_tab: bool, theme: Option<RenderTheme>) -> (s: String)
    ensures
        s@ == group_header_text_spec(line@, contains_active_tab, theme),
{
    match theme {
        None => line,
        Some(theme) => if contains_active_tab {
            let style = foreground_style(theme.active_border);
            paint(TextStyle { bold: true, ..style }, line.as_str())
        } else {
            paint(foreground_style(theme.body_foreground), line.as_str())
        },
    }
}

/// How a border cell is styled.
#[derive(Debug, Clone, Copy, PartialEq, Eq, Structural)]
pub enum CellStyle {
    Border { active: bool },
    Title { active: bool, dimmed: bool },
    Body,
}

/// Which border row is drawn.
#[derive(Debug, Clone, Copy, PartialEq, Eq, Structural)]
pub enum BorderKind {
    Top { active: bool, first_cell: bool },
    Bottom { active: bool },
    Footer,
}

/// A run of border text in its cell style.
pub open spec fn span_text(text: Seq<char>, style: CellStyle, theme: Option<RenderTheme>) -> Seq<char> {
    match style {
        CellStyle::Border { active } => border_text_spec(text, active, theme),
        CellStyle::Title { active, dimmed } => ansi_painted(title_style_spec(active, dimmed, theme), text),
        CellStyle::Body => body_text_spec(text, theme),
    }
}

pub fn style_span(text: String, style: CellStyle, theme: Option<RenderTheme>) -> (s: String)
    ensures
        s@ == span_text(text@, style, theme),
{
    match style {
        CellStyle::Border { active } => style_border_text(text, active, theme),
        CellStyle::Title { active, dimmed } => style_title_text(text, active, dimmed, theme),
        CellStyle::Body => style_body_text(text, theme),
    }
}

/// The left corner glyph of a border row: `┌` on the first cell's top, `├`
/// on a later top, `└` at the bottom; a footer has none.
pub open spec fn left_corner(kind: BorderKind) -> Option<(char, CellStyle)> {
    match kind {
        BorderKind::Top { active, first_cell } => Some((if first_cell { '┌' } else { '├' }, CellStyle::Border { active })),
        BorderKind::Bottom { active } => Some(('└', CellStyle::Border { active })),
        BorderKind::Footer => None,
    }
}

/// The right corner glyph of a border row: `┐`, `┤` or `┘`; a footer has none.
pub open spec fn right_corner(kind: BorderKind) -> Option<(char, CellStyle)> {
    match kind {
        BorderKind::Top { active, first_cell } => Some((if first_cell { '┐' } else { '┤' }, CellStyle::Border { active })),
        BorderKind::Bottom { active } => Some(('┘', CellStyle::Border { active })),
        BorderKind::Footer => None,
    }
}

pub fn corner_left(kind: BorderKind) -> (r: Option<(char, CellStyle)>)
    ensures
        r == left_corner(kind),
{
    match kind {
        BorderKind::Top { active, first_cell } => Some((if first_cell { '┌' } else { '├' }, CellStyle::Border { active })),
        BorderKind::Bottom { active } => Some(('└', CellStyle::Border { active })),
        BorderKind::Footer => None,
    }
}

pub fn corner_right(kind: BorderKind) -> (r: Option<(char, CellStyle)>)
    ensures
        r == right_corner(kind),
{
    match kind {
        BorderKind::Top { active, first_cell } => Some((if first_cell { '┐' } else { '┤' }, CellStyle::Border { active })),
        BorderKind::Bottom { active } => Some(('┘', CellStyle::Border { active })),
        BorderKind::Footer => None,
    }
}

// ---------------------------------------------------------------------------
// Viewport arithmetic

/// The first visible row for a shared scroll offset, kept within `0..=max_start`.
pub fn absolute_viewport_start(scroll_offset: isize, max_start: usize) -> (start: usize)
    requires
        max_start <= isize::MAX,
    ensures
        start == (if scroll_offset < 0 { 0 } else if scroll_offset > max_start { max_start as int } else { scroll_offset as int }),
{
    if scroll_offset < 0 {
        0
    } else if scroll_offset as usize > max_start {
        max_start
    } else {
        scroll_offset as usize
    }
}

pub open spec fn ensure_visible_spec(visible_start: int, target_start: int, target_end: int, available_rows: int, max_start: int) -> int {
    let visible_end = if visible_start + available_rows > usize::MAX { usize::MAX as int } else { visible_start + available_rows };
    if target_end < visible_start {
        if target_start < max_start { target_start } else { max_start }
    } else if target_start >= visible_end {
        let below = if target_end + 1 > usize::MAX { usize::MAX as int } else { target_end + 1 };
        let start = if below >= available_rows { below - available_rows } else { 0 };
        if start < max_start { start } else { max_start }
    } else {
        visible_start
    }
}

/// The first visible row after bringing rows `target_start..=target_end`
/// into a view of `available_rows` rows: unchanged when the target overlaps
/// the view, else moved just far enough.
pub fn ensure_visible_start(
    visible_start: usize,
    target_start: usize,
    target_end: usize,
    available_rows: usize,
    max_start: usize,
) -> (start: usize)
    ensures
        start == ensure_visible_spec(visible_start as int, target_start as int, target_end as int, available_rows as int, max_start as int),
{
    let visible_end = visible_start.saturating_add(available_rows);
    if target_end < visible_start {
        if target_start < max_start { target_start } else { max_start }
    } else if target_start >= visible_end {
        let start = target_end.saturating_add(1).saturating_sub(available_rows);
        if start < max_start { start } else { max_start }
    } else {
        visible_start
    }
}

/// Terminal columns that make a square of `rows` rows, given the pixel size
/// of a cell; `rows` itself when the cell size is unknown or degenerate.
pub open spec fn square_columns(rows: int, terminal_cell_size: Option<SizeInPixels>) -> int {
    match terminal_cell_size {
        Some(size) => if size.width == 0 || size.height == 0 {
            rows
        } else {
            (((rows * size.height + size.width - 1) / (size.width as int)) as u64) as usize as int
        },
        None => rows,
    }
}

pub fn square_columns_for_rows(rows: usize, terminal_cell_size: Option<SizeInPixels>) -> (columns: usize)
    requires
        terminal_cell_size matches Some(size) ==> rows * size.height + size.width <= u64::MAX,
    ensures
        columns == square_columns(rows as int, terminal_cell_size),
{
    let cell_size = match terminal_cell_size {
        Some(size) => size,
        None => {
            return rows;
        },
    };
    if cell_size.width == 0 || cell_size.height == 0 {
        return rows;
    }
    proof {
        assert(rows * cell_size.height <= u64::MAX) by (nonlinear_arith)
            requires
                rows * cell_size.height + cell_size.width <= u64::MAX,
                cell_size.width >= 0;
    }
    let product = (rows as u64) * (cell_size.height as u64);
    let columns = (product + (cell_size.width as u64) - 1) / (cell_size.width as u64);
    #[verifier::truncate] (columns as usize)
}

// ---------------------------------------------------------------------------
// Small decisions


/// How a group lays out its direct child tabs.
#[derive(Debug, Clone, Copy, PartialEq, Eq, Structural)]
pub enum ChildLayoutMode {
    Cards,
    Strip,
}

/// The child layout named by a layout variable: `cards` or `strip`.
pub fn child_layout_from_text(value: &str) -> (r: Option<ChildLayoutMode>)
    ensures
        r == (if value@ == seq!['c', 'a', 'r', 'd', 's'] {
            Some(ChildLayoutMode::Cards)
        } else if value@ == seq!['s', 't', 'r', 'i', 'p'] {
            Some(ChildLayoutMode::Strip)
        } else {
            None
        }),
{
    proof {
        reveal_strlit("cards");
        reveal_strlit("strip");
        assert("cards"@ =~= seq!['c', 'a', 'r', 'd', 's']);
        assert("strip"@ =~= seq!['s', 't', 'r', 'i', 'p']);
    }
    if text_equals(value, "cards") {
        Some(ChildLayoutMode::Cards)
    } else if text_equals(value, "strip") {
        Some(ChildLayoutMode::Strip)
    } else {
        None
    }
}

/// The tab index an inline hit switches to, if it switches tabs.
pub fn inline_switch_tab_index(hit: Option<InlineHit>) -> (r: Option<usize>)
    ensures
        r == match hit {
            Some(InlineHit::SwitchTab { index }) => Some(index),
            _ => None,
        },
{
    match hit {
        Some(InlineHit::SwitchTab { index }) => Some(index),
        Some(InlineHit::GroupToggle) | Some(InlineHit::InspectNode) | None => None,
    }
}

/// Where a card's status icon is drawn: a square of the body's rows one
/// cell in from the card's left edge, below its top border; nowhere when the
/// card has no body rows, the icon is not a PNG file, or it would not fit
/// between the borders.
pub open spec fn status_icon_place(status: TabStatusSummary, card_row: int, body_rows: int, cols: int, icon_columns: int) -> Option<VisibleIconRect> {
    if body_rows == 0 || (if cols >= 2 { cols - 2 } else { 0 }) < icon_columns || !(status.icon matches Some(icon) && icon is PngFile) {
        None
    } else {
        Some(VisibleIconRect { x: 1, y: (card_row + 1) as usize, columns: icon_columns as usize, rows: body_rows as usize })
    }
}

pub fn status_icon_rect(
    status: &TabStatusSummary,
    card_row: usize,
    body_rows: usize,
    cols: usize,
    terminal_cell_size: Option<SizeInPixels>,
) -> (r: Option<VisibleIconRect>)
    requires
        card_row < usize::MAX,
        terminal_cell_size matches Some(size) ==> body_rows * size.height + size.width <= u64::MAX,
    ensures
        r == status_icon_place(*status, card_row as int, body_rows as int, cols as int, square_columns(body_rows as int, terminal_cell_size)),
{
    let icon_columns = square_columns_for_rows(body_rows, terminal_cell_size);
    let renderable = match &status.icon {
        Some(icon) => status_icon_is_renderable(icon),
        None => false,
    };
    if body_rows == 0 || cols.saturating_sub(2) < icon_columns || !renderable {
        return None;
    }
    Some(VisibleIconRect { x: 1, y: card_row + 1, columns: icon_columns, rows: body_rows })
}

/// Whether the icon can be drawn as an image: only PNG files can.
pub fn status_icon_is_renderable(icon: &StatusIcon) -> (r: bool)
    ensures
        r == (icon is PngFile),
{
    match icon {
        StatusIcon::PngFile(_) => true,
        StatusIcon::Builtin(_) => false,
    }
}

/// The separator between a group label and the niche text that follows it:
/// a space when the niche opens with a rule, ` ─ ` otherwise.
pub fn header_niche_separator(niche_text: &str) -> (s: &'static str)
    ensures
        s@ == (if niche_text@.len() > 0 && niche_text@[0] == '─' { seq![' '] } else { seq![' ', '─', ' '] }),
{
    proof {
        reveal_strlit(" ");
        reveal_strlit(" ─ ");
    }
    let chars = chars_of(niche_text);
    if chars.len() > 0 && chars[0] == '─' {
        " "
    } else {
        " ─ "
    }
}

/// A parent group label joined to its only child's label.
pub fn conflated_group_label(parent: &str, child: &str) -> (s: String)
    ensures
        s@ == parent@ + seq!['─'] + child@,
{
    let mut label = parent.to_owned();
    push_char(&mut label, '─');
    push_text(&mut label, child);
    label
}

/// An already styled line padded with spaces from its visible width to `width`.
pub fn pad_styled_line_to_width(line: &str, visible_width: usize, width: usize) -> (s: String)
    ensures
        s@ == (if visible_width >= width { line@ } else { line@ + spaces((width - visible_width) as nat) }),
{
    if visible_width >= width {
        return line.to_owned();
    }
    let mut out = line.to_owned();
    let fill = blank(width - visible_width);
    push_text(&mut out, fill.as_str());
    out
}

/// The columns a strip segment takes: its label with a space and an arrow
/// on each side.
pub fn strip_segment_width(label: &str) -> (w: usize)
    ensures
        w == (if str_width(label@) + 4 > usize::MAX { usize::MAX as int } else { str_width(label@) + 4 }),
{
    text_width(label).saturating_add(4)
}


// ---------------------------------------------------------------------------
// Truncation

/// How many leading characters fit before a `...` suffix: characters are
/// kept while the columns used, the next character and three dots fit in `w`.
pub open spec fn dotted_keep(chars: Seq<char>, used: int, w: int) -> nat
    decreases chars.len(),
{
    if chars.len() == 0 {
        0
    } else if used + char_cols(chars[0]) + 3 > w {
        0
    } else {
        1 + dotted_keep(chars.drop_first(), used + char_cols(chars[0]), w)
    }
}

/// `text` cut to `w` columns and ended with `...`; only dots when `w` is
/// three or less; unchanged when it fits.
pub open spec fn dotted(text: Seq<char>, w: int) -> Seq<char> {
    if str_width(text) <= w {
        text
    } else if w <= 3 {
        Seq::new(w as nat, |i: int| '.')
    } else {
        text.take(dotted_keep(text, 0, w) as int) + seq!['.', '.', '.']
    }
}

proof fn lemma_dotted_keep_step(chars: Seq<char>, i: int, used: int, w: int)
    requires
        0 <= i < chars.len(),
        used + char_cols(chars[i]) + 3 <= w,
    ensures
        dotted_keep(chars.skip(i), used, w) == 1 + dotted_keep(chars.skip(i + 1), used + char_cols(chars[i]), w),
{
    assert(chars.skip(i).drop_first() =~= chars.skip(i + 1));
}

/// Cuts `text` to `max_width` columns, ending in `...` when anything was cut.
pub fn truncate_to_width(text: &str, max_width: usize) -> (out: String)
    ensures
        out@ == dotted(text@, max_width as int),
{
    if text_width(text) <= max_width {
        return text.to_owned();
    }
    if max_width <= 3 {
        let mut dots = String::new();
        let mut k: usize = 0;
        while k < max_width
            invariant
                k <= max_width,
                dots@ == Seq::new(k as nat, |i: int| '.'),
            decreases max_width - k,
        {
            push_char(&mut dots, '.');
            proof {
                assert(dots@ =~= Seq::new((k + 1) as nat, |i: int| '.'));
            }
            k = k + 1;
        }
        return dots;
    }
    let chars = chars_of(text);
    let ghost all = chars@;
    let mut current_width: usize = 0;
    let mut i: usize = 0;
    proof {
        assert(all.skip(0) =~= all);
    }
    while i < chars.len()
        invariant
            all == chars@,
            i <= chars.len(),
            current_width + 3 <= max_width,
            dotted_keep(all, 0, max_width as int) == i + dotted_keep(all.skip(i as int), current_width as int, max_width as int),
        ensures
            i <= chars.len(),
            dotted_keep(all, 0, max_width as int) == i,
        decreases chars.len() - i,
    {
        let c = chars[i];
        let ch_width = match char_display_width(c) {
            Some(w) => w,
            None => 0,
        };
        if ch_width + 3 > max_width - current_width {
            proof {
                assert(all.skip(i as int)[0] == c);
            }
            break;
        }
        proof {
            lemma_dotted_keep_step(all, i as int, current_width as int, max_width as int);
        }
        current_width = current_width + ch_width;
        i = i + 1;
        proof {
            if i == chars.len() {
                assert(all.skip(i as int).len() == 0);
            }
        }
    }
    let mut out = string_from_chars(&chars, 0, i);
    push_char(&mut out, '.');
    push_char(&mut out, '.');
    push_char(&mut out, '.');
    proof {
        assert(out@ =~= all.take(i as int) + seq!['.', '.', '.']);
    }
    out
}

/// How many leading characters fit in `budget` columns.
pub open spec fn front_fit(chars: Seq<char>, used: int, budget: int) -> nat
    decreases chars.len(),
{
    if chars.len() == 0 {
        0
    } else if used + char_cols(chars[0]) > budget {
        0
    } else {
        1 + front_fit(chars.drop_first(), used + char_cols(chars[0]), budget)
    }
}

/// How many trailing characters fit in `budget` columns.
pub open spec fn back_fit(chars: Seq<char>, used: int, budget: int) -> nat
    decreases chars.len(),
{
    if chars.len() == 0 {
        0
    } else if used + char_cols(chars.last()) > budget {
        0
    } else {
        1 + back_fit(chars.drop_last(), used + char_cols(chars.last()), budget)
    }
}

/// `text` cut to `w` columns by replacing its middle with `…`: the front
/// gets the larger half of the room, the back the rest.
pub open spec fn middle_elided(text: Seq<char>, w: int) -> Seq<char> {
    if str_width(text) <= w {
        text
    } else if w == 0 {
        Seq::empty()
    } else if w == 1 {
        seq!['…']
    } else {
        let content = w - 1;
        let left = front_fit(text, 0, (content + 1) / 2);
        let rest = text.skip(left as int);
        let right = back_fit(rest, 0, content / 2);
        text.take(left as int) + seq!['…'] + rest.skip(rest.len() - right)
    }
}

proof fn lemma_front_fit_le(chars: Seq<char>, used: int, budget: int)
    ensures
        front_fit(chars, used, budget) <= chars.len(),
    decreases chars.len(),
{
    if chars.len() > 0 && used + char_cols(chars[0]) <= budget {
        lemma_front_fit_le(chars.drop_first(), used + char_cols(chars[0]), budget);
    }
}

proof fn lemma_back_fit_le(chars: Seq<char>, used: int, budget: int)
    ensures
        back_fit(chars, used, budget) <= chars.len(),
    decreases chars.len(),
{
    if chars.len() > 0 && used + char_cols(chars.last()) <= budget {
        lemma_back_fit_le(chars.drop_last(), used + char_cols(chars.last()), budget);
    }
}

/// Cuts `text` to `width` columns by replacing its middle with `…`.
pub fn middle_elide_to_width(text: &str, width: usize) -> (out: String)
    ensures
        out@ == middle_elided(text@, width as int),
{
    proof {
        reveal_strlit("…");
    }
    if text_width(text) <= width {
        return text.to_owned();
    }
    if width == 0 {
        return String::new();
    }
    if width == 1 {
        return "…".to_owned();
    }
    let characters = chars_of(text);
    let ghost all = characters@;
    let content_width = width - 1;
    let left_budget = content_width / 2 + content_width % 2;
    let right_budget = content_width / 2;
    let mut used: usize = 0;
    let mut left_count: usize = 0;
    proof {
        assert(all.skip(0) =~= all);
        assert(left_budget == (content_width + 1) / 2);
    }
    while left_count < characters.len()
        invariant
            all == characters@,
            left_count <= characters.len(),
            used <= left_budget,
            left_budget <= usize::MAX / 2 + 1,
            front_fit(all, 0, left_budget as int) == left_count + front_fit(all.skip(left_count as int), used as int, left_budget as int),
        ensures
            left_count <= characters.len(),
            front_fit(all, 0, left_budget as int) == left_count,
        decreases characters.len() - left_count,
    {
        let c = characters[left_count];
        let character_width = match char_display_width(c) {
            Some(w) => w,
            None => 0,
        };
        proof {
            assert(all.skip(left_count as int)[0] == c);
            assert(all.skip(left_count as int).drop_first() =~= all.skip(left_count + 1));
        }
        if used + character_width > left_budget {
            break;
        }
        used = used + character_width;
        left_count = left_count + 1;
        proof {
            if left_count == characters.len() {
                assert(all.skip(left_count as int).len() == 0);
            }
        }
    }
    let ghost rest = all.skip(left_count as int);
    let mut right_start: usize = characters.len();
    used = 0;
    proof {
        assert(rest.take(rest.len() as int) =~= rest);
    }
    while right_start > left_count
        invariant
            all == characters@,
            rest == all.skip(left_count as int),
            left_count <= right_start <= characters.len(),
            used <= right_budget,
            right_budget <= usize::MAX / 2,
            back_fit(rest, 0, right_budget as int) == (characters.len() - right_start) + back_fit(
                rest.take(right_start - left_count),
                used as int,
                right_budget as int,
            ),
        ensures
            left_count <= right_start <= characters.len(),
            back_fit(rest, 0, right_budget as int) == characters.len() - right_start,
        decreases right_start - left_count,
    {
        let c = characters[right_start - 1];
        let character_width = match char_display_width(c) {
            Some(w) => w,
            None => 0,
        };
        proof {
            let t = rest.take(right_start - left_count);
            assert(t.last() == c);
            assert(t.drop_last() =~= rest.take(right_start - 1 - left_count));
        }
        if used + character_width > right_budget {
            break;
        }
        used = used + character_width;
        right_start = right_start - 1;
        proof {
            if right_start == left_count {
                assert(rest.take(right_start - left_count).len() == 0);
            }
        }
    }
    let mut out = string_from_chars(&characters, 0, left_count);
    push_char(&mut out, '…');
    let right = string_from_chars(&characters, right_start, characters.len());
    push_text(&mut out, right.as_str());
    proof {
        lemma_back_fit_le(rest, 0, right_budget as int);
        assert(all.subrange(0, left_count as int) =~= all.take(left_count as int));
        assert(all.subrange(right_start as int, all.len() as int) =~= rest.skip(rest.len() - (characters.len() - right_start)));
    }
    out
}


// ---------------------------------------------------------------------------
// Strip segments

pub open spec fn arrow() -> Seq<char> {
    seq!['\u{e0b0}']
}

/// A bold cell in `fg` on `bg`.
pub open spec fn bold_cell(fg: PaletteColor, bg: PaletteColor) -> TextStyle {
    TextStyle { foreground: Some(ansi_color_of(fg)), background: Some(ansi_color_of(bg)), bold: true, dimmed: false }
}

pub open spec fn spaced(label: Seq<char>) -> Seq<char> {
    seq![' '] + label + seq![' ']
}

/// The text of a strip segment drawn in at most `max_width` columns, and
/// the columns it takes: unstyled, the spaced label cut with dots; with a
/// theme, an arrow into the segment, the spaced label and an arrow out, in
/// the segment's colors.
pub open spec fn strip_segment_spec(item: crate::segment_bar::SegmentItemView, max_width: int, theme: Option<RenderTheme>) -> (Seq<char>, int) {
    let full = if str_width(item.label) + 4 > usize::MAX { usize::MAX as int } else { str_width(item.label) + 4 };
    let visible_width = if full < max_width { full } else { max_width };
    if max_width == 0 {
        (Seq::empty(), 0)
    } else {
        match theme {
            None => (dotted(spaced(item.label), max_width), visible_width),
            Some(theme) => {
                let segment_bg = if item.active { theme.segment_active_background } else { theme.segment_inactive_background };
                let segment_fg = if item.active { theme.segment_active_foreground } else { theme.segment_inactive_foreground };
                let between_bg = theme.segment_between_background;
                let entry = ansi_painted(bold_cell(between_bg, segment_bg), arrow());
                let exit = ansi_painted(bold_cell(segment_bg, between_bg), arrow());
                let remaining = visible_width - 1;
                if remaining == 1 {
                    (entry + exit, visible_width)
                } else if remaining > 1 {
                    (entry + ansi_painted(bold_cell(segment_fg, segment_bg), dotted(spaced(item.label), remaining - 1)) + exit, visible_width)
                } else {
                    (entry, visible_width)
                }
            },
        }
    }
}

/// A strip segment for `item` in at most `max_width` columns; with a theme
/// the label is cut before it is styled, so the escape codes never count
/// against the width.
pub fn render_strip_segment(item: &SegmentItem, max_width: usize, theme: Option<RenderTheme>) -> (r: (String, usize))
    requires
        max_width + 3 <= usize::MAX,
    ensures
        (r.0@, r.1 as int) == strip_segment_spec(item@, max_width as int, theme),
{
    proof {
        reveal_strlit("\u{e0b0}");
        assert("\u{e0b0}"@ =~= arrow());
    }
    if max_width == 0 {
        return (String::new(), 0);
    }
    let full = strip_segment_width(item.label.as_str());
    let visible_width = if full < max_width { full } else { max_width };
    let mut plain = String::new();
    push_char(&mut plain, ' ');
    push_text(&mut plain, item.label.as_str());
    push_char(&mut plain, ' ');
    proof {
        assert(plain@ =~= spaced(item.label@));
    }
    let theme = match theme {
        None => {
            return (truncate_to_width(plain.as_str(), max_width), visible_width);
        },
        Some(theme) => theme,
    };
    let (segment_bg, segment_fg) = if item.active {
        (theme.segment_active_background, theme.segment_active_foreground)
    } else {
        (theme.segment_inactive_background, theme.segment_inactive_foreground)
    };
    let between_bg = theme.segment_between_background;
    let mut remaining_width = visible_width;
    let mut rendered = String::new();
    let entry = paint(style_cell(between_bg, segment_bg, true), "\u{e0b0}");
    push_text(&mut rendered, entry.as_str());
    remaining_width = remaining_width - 1;
    if remaining_width == 1 {
        let exit = paint(style_cell(segment_bg, between_bg, true), "\u{e0b0}");
        push_text(&mut rendered, exit.as_str());
        return (rendered, visible_width);
    }
    if remaining_width > 1 {
        let text = truncate_to_width(plain.as_str(), remaining_width - 1);
        let body = paint(style_cell(segment_fg, segment_bg, true), text.as_str());
        push_text(&mut rendered, body.as_str());
        let exit = paint(style_cell(segment_bg, between_bg, true), "\u{e0b0}");
        push_text(&mut rendered, exit.as_str());
    }
    (rendered, visible_width)
}

// ---------------------------------------------------------------------------
// Metadata panels

pub open spec fn meta_bar_spec(theme: Option<RenderTheme>) -> Seq<char> {
    match theme {
        None => seq!['│'],
        Some(_) => ansi_painted(TextStyle { foreground: Some(AnsiColor::Red), background: None, bold: true, dimmed: false }, seq!['│']),
    }
}

/// The bar that marks a metadata panel: red and bold when themed.
fn style_meta_panel_bar(theme: Option<RenderTheme>) -> (s: String)
    ensures
        s@ == meta_bar_spec(theme),
{
    proof {
        reveal_strlit("│");
        assert("│"@ =~= seq!['│']);
    }
    if theme.is_none() {
        return "│".to_owned();
    }
    paint(TextStyle { foreground: Some(AnsiColor::Red), background: None, bold: true, dimmed: false }, "│")
}

pub open spec fn min_int(a: int, b: int) -> int {
    if a < b { a } else { b }
}

/// The row of a metadata panel showing `content`.
pub open spec fn meta_panel_row(content: Seq<char>, outer_indent: int, cols: int, theme: Option<RenderTheme>) -> Seq<char> {
    let bar_col = min_int(outer_indent, cols);
    let content_col = min_int(bar_col + 2, cols);
    let content_width = if cols > content_col { cols - content_col } else { 0 };
    spaces(bar_col as nat) + meta_bar_spec(theme) + seq![' '] + body_text_spec(padded(dotted(content, content_width), content_width), theme)
}

/// The rows of a metadata panel: one per panel line, in order.
pub open spec fn meta_panel_rows(panel: Seq<Seq<char>>, outer_indent: int, cols: int, theme: Option<RenderTheme>) -> Seq<Seq<char>> {
    panel.map_values(|content: Seq<char>| meta_panel_row(content, outer_indent, cols, theme))
}

/// Appends a metadata panel, one row per panel line: each content line
/// behind a `│` bar and a space at `outer_indent`, cut and padded to the
/// columns left (nothing of it when no column is left).
pub fn append_meta_panel(
    lines: &mut Vec<String>,
    outer_indent: usize,
    cols: usize,
    panel_lines: Vec<String>,
    theme: Option<RenderTheme>,
)
    requires
        cols + 3 <= usize::MAX,
    ensures
        string_views(final(lines)@) == string_views(old(lines)@) + meta_panel_rows(
            string_views(panel_lines@),
            outer_indent as int,
            cols as int,
            theme,
        ),
{
    let ghost panel = string_views(panel_lines@);
    let ghost before = string_views(lines@);
    let outer_indent = if outer_indent < cols { outer_indent } else { cols };
    let bar_col = outer_indent;
    let content_col = if outer_indent + 2 < cols { outer_indent + 2 } else { cols };
    let content_width = cols.saturating_sub(content_col);
    proof {
        assert(before + meta_panel_rows(panel, outer_indent as int, cols as int, theme).take(0) =~= before);
    }
    let mut i: usize = 0;
    while i < panel_lines.len()
        invariant
            panel == string_views(panel_lines@),
            i <= panel_lines.len(),
            bar_col == outer_indent,
            content_width == cols - content_col,
            content_col == min_int(bar_col + 2, cols as int),
            bar_col <= cols,
            content_col <= cols,
            cols + 3 <= usize::MAX,
            string_views(lines@) == before + meta_panel_rows(panel, outer_indent as int, cols as int, theme).take(i as int),
        decreases panel_lines.len() - i,
    {
        let mut line = blank(bar_col);
        let bar = style_meta_panel_bar(theme);
        push_text(&mut line, bar.as_str());
        push_char(&mut line, ' ');
        let text = truncate_to_width(panel_lines[i].as_str(), content_width);
        let padded_text = pad_to_width(text.as_str(), content_width);
        let body = style_body_text(padded_text, theme);
        push_text(&mut line, body.as_str());
        proof {
            assert(line@ =~= meta_panel_row(panel[i as int], outer_indent as int, cols as int, theme));
            let rows = meta_panel_rows(panel, outer_indent as int, cols as int, theme);
            assert(rows.take(i + 1) =~= rows.take(i as int).push(line@));
            assert(string_views(lines@.push(line)) =~= string_views(lines@).push(line@));
        }
        lines.push(line);
        i = i + 1;
    }
    proof {
        let rows = meta_panel_rows(panel, outer_indent as int, cols as int, theme);
        assert(rows.take(panel_lines.len() as int) =~= rows);
    }
}

/// Appends `key: value` at `indent`.
pub fn push_metadata_text_line(lines: &mut Vec<String>, indent: usize, key: &str, value: &str)
    ensures
        final(lines)@.len() == old(lines)@.len() + 1,
        forall|i: int| 0 <= i < old(lines)@.len() ==> final(lines)@[i] == old(lines)@[i],
        final(lines)@.last()@ == spaces(indent as nat) + key@ + seq![':', ' '] + value@,
{
    let mut line = blank(indent);
    push_text(&mut line, key);
    push_char(&mut line, ':');
    push_char(&mut line, ' ');
    push_text(&mut line, value);
    proof {
        assert(line@ =~= spaces(indent as nat) + key@ + seq![':', ' '] + value@);
    }
    lines.push(line);
}

/// Appends `[label]` at `indent`.
pub fn push_metadata_section_header(lines: &mut Vec<String>, indent: usize, label: &str)
    ensures
        final(lines)@.len() == old(lines)@.len() + 1,
        forall|i: int| 0 <= i < old(lines)@.len() ==> final(lines)@[i] == old(lines)@[i],
        final(lines)@.last()@ == spaces(indent as nat) + seq!['['] + label@ + seq![']'],
{
    let mut line = blank(indent);
    push_char(&mut line, '[');
    push_text(&mut line, label);
    push_char(&mut line, ']');
    proof {
        assert(line@ =~= spaces(indent as nat) + seq!['['] + label@ + seq![']']);
    }
    lines.push(line);
}

// ---------------------------------------------------------------------------
// Metadata text

/// How one step of a path value reads: its label, else its value.
pub open spec fn path_segment_label(segment: MetadataPathSegmentValue) -> Seq<char> {
    match segment.label {
        Some(label) => label@,
        None => path_value_text(segment.value@),
    }
}

/// How a metadata value reads in the rail: lists joined with `, `, group
/// paths as their labels joined with ` / `.
pub open spec fn metadata_value_text(value: MetadataValue) -> Seq<char> {
    match value {
        MetadataValue::Text(t) => t@,
        MetadataValue::Bool(b) => bool_text_spec(b),
        MetadataValue::Integer(n) => signed_decimal(n as int),
        MetadataValue::StringList(items) => joined(string_views(items@), seq![',', ' ']),
        MetadataValue::GroupPath(segments) => joined(
            segments@.map_values(|segment: MetadataPathSegmentValue| path_segment_label(segment)),
            seq![' ', '/', ' '],
        ),
    }
}

fn path_segment_text(segment: &MetadataPathSegmentValue) -> (s: String)
    ensures
        s@ == path_segment_label(*segment),
{
    match &segment.label {
        Some(label) => label.clone(),
        None => segment.value.display(),
    }
}

pub fn format_metadata_value(value: &MetadataValue) -> (s: String)
    ensures
        s@ == metadata_value_text(*value),
{
    proof {
        reveal_strlit(", ");
        reveal_strlit(" / ");
        assert(", "@ =~= seq![',', ' ']);
        assert(" / "@ =~= seq![' ', '/', ' ']);
    }
    match value {
        MetadataValue::Text(text) => text.clone(),
        MetadataValue::Bool(b) => bool_text(*b).to_owned(),
        MetadataValue::Integer(n) => signed_decimal_text(*n),
        MetadataValue::StringList(items) => join_texts(items, ", "),
        MetadataValue::GroupPath(segments) => {
            let mut labels: Vec<String> = Vec::new();
            let mut i: usize = 0;
            while i < segments.len()
                invariant
                    i <= segments.len(),
                    labels@.len() == i,
                    forall|k: int| 0 <= k < i ==> #[trigger] labels@[k]@ == path_segment_label(segments@[k]),
                decreases segments.len() - i,
            {
                labels.push(path_segment_text(&segments[i]));
                i = i + 1;
            }
            proof {
                assert(labels@.map_values(|p: String| p@) =~= segments@.map_values(
                    |segment: MetadataPathSegmentValue| path_segment_label(segment),
                ));
            }
            join_texts(&labels, " / ")
        },
    }
}

/// How a group segment reads: its label, else its value.
pub open spec fn group_segment_text(segment: GroupSegment) -> Seq<char> {
    match segment.label {
        Some(label) => label@,
        None => metadata_value_text(segment.value),
    }
}

pub fn group_segment_label(segment: &GroupSegment) -> (s: String)
    ensures
        s@ == group_segment_text(*segment),
{
    match &segment.label {
        Some(label) => label.clone(),
        None => format_metadata_value(&segment.value),
    }
}

/// A group path as `key=value` steps joined with ` / `.
pub open spec fn group_path_text(path: GroupPath) -> Seq<char> {
    joined(
        path.0@.map_values(|segment: GroupSegment| segment.key@ + seq!['='] + metadata_value_text(segment.value)),
        seq![' ', '/', ' '],
    )
}

pub fn format_group_path(path: &GroupPath) -> (s: String)
    ensures
        s@ == group_path_text(*path),
{
    proof {
        reveal_strlit(" / ");
        assert(" / "@ =~= seq![' ', '/', ' ']);
    }
    let mut steps: Vec<String> = Vec::new();
    let mut i: usize = 0;
    while i < path.0.len()
        invariant
            i <= path.0.len(),
            steps@.len() == i,
            forall|k: int| 0 <= k < i ==> #[trigger] steps@[k]@ == path.0@[k].key@ + seq!['='] + metadata_value_text(path.0@[k].value),
        decreases path.0.len() - i,
    {
        let mut step = path.0[i].key.clone();
        push_char(&mut step, '=');
        let value = format_metadata_value(&path.0[i].value);
        push_text(&mut step, value.as_str());
        steps.push(step);
        i = i + 1;
    }
    proof {
        assert(steps@.map_values(|p: String| p@) =~= path.0@.map_values(
            |segment: GroupSegment| segment.key@ + seq!['='] + metadata_value_text(segment.value),
        ));
    }
    join_texts(&steps, " / ")
}

/// A pane target as `terminal:<id>` or `plugin:<id>`.
pub open spec fn pane_target_text(target: PaneTarget) -> Seq<char> {
    match target {
        PaneTarget::Terminal(id) => seq!['t', 'e', 'r', 'm', 'i', 'n', 'a', 'l', ':'] + decimal(id as nat),
        PaneTarget::Plugin(id) => seq!['p', 'l', 'u', 'g', 'i', 'n', ':'] + decimal(id as nat),
    }
}

pub fn format_pane_target(pane_target: PaneTarget) -> (s: String)
    ensures
        s@ == pane_target_text(pane_target),
{
    proof {
        reveal_strlit("terminal:");
        reveal_strlit("plugin:");
    }
    let (prefix, id) = match pane_target {
        PaneTarget::Terminal(id) => ("terminal:", id),
        PaneTarget::Plugin(id) => ("plugin:", id),
    };
    let mut s = prefix.to_owned();
    push_decimal(&mut s, id as u64);
    proof {
        match pane_target {
            PaneTarget::Terminal(_) => assert(s@ =~= pane_target_text(pane_target)),
            PaneTarget::Plugin(_) => assert(s@ =~= pane_target_text(pane_target)),
        }
    }
    s
}

// ---------------------------------------------------------------------------
// Aligned tables

#[derive(Debug, Clone, Copy, PartialEq, Eq, Structural)]
pub enum ColumnAlign {
    Left,
    Right,
}

#[derive(Debug, Clone, Copy)]
pub struct TableColumn {
    pub header: &'static str,
    pub align: ColumnAlign,
}

/// The length in bytes of `s` written as UTF-8, as `str::len` gives it.
pub open spec fn byte_len(s: Seq<char>) -> nat {
    vstd::utf8::encode_utf8(s).len()
}

/// The cells of each row, as text.
pub open spec fn row_views(rows: Seq<Vec<String>>) -> Seq<Seq<Seq<char>>> {
    rows.map_values(|row: Vec<String>| string_views(row@))
}

/// The cell of `row` in column `i`; empty where the row is short.
pub open spec fn cell_text(row: Seq<Seq<char>>, i: int) -> Seq<char> {
    if 0 <= i < row.len() {
        row[i]
    } else {
        Seq::empty()
    }
}

/// Whether some row has a non-empty cell in column `i`.
pub open spec fn column_used(rows: Seq<Seq<Seq<char>>>, i: int) -> bool {
    exists|r: int| 0 <= r < rows.len() && #[trigger] cell_text(rows[r], i).len() > 0
}

/// The columns among the first `n` that some row uses, in order.
pub open spec fn kept_columns(rows: Seq<Seq<Seq<char>>>, n: nat) -> Seq<int>
    decreases n,
{
    if n == 0 {
        Seq::empty()
    } else if column_used(rows, n - 1) {
        kept_columns(rows, (n - 1) as nat).push(n - 1)
    } else {
        kept_columns(rows, (n - 1) as nat)
    }
}

/// The widest cell of column `i`, in bytes.
pub open spec fn widest_cell(rows: Seq<Seq<Seq<char>>>, i: int) -> nat
    decreases rows.len(),
{
    if rows.len() == 0 {
        0
    } else {
        let here = byte_len(cell_text(rows.last(), i));
        let rest = widest_cell(rows.drop_last(), i);
        if here > rest { here } else { rest }
    }
}

/// The width of column `i`: its widest cell or its header, in bytes.
pub open spec fn column_width(columns: Seq<TableColumn>, rows: Seq<Seq<Seq<char>>>, i: int) -> nat {
    let header = byte_len(columns[i].header@);
    let cells = widest_cell(rows, i);
    if cells > header { cells } else { header }
}

/// `text` padded with spaces to `width` characters on the side `align` leaves free.
pub open spec fn aligned(text: Seq<char>, width: nat, align: ColumnAlign) -> Seq<char> {
    if text.len() >= width {
        text
    } else {
        match align {
            ColumnAlign::Left => text + spaces((width - text.len()) as nat),
            ColumnAlign::Right => spaces((width - text.len()) as nat) + text,
        }
    }
}

/// The header line: the kept columns' headers, aligned and two spaces apart.
pub open spec fn table_header_line(indent: nat, columns: Seq<TableColumn>, rows: Seq<Seq<Seq<char>>>) -> Seq<char> {
    spaces(indent) + joined(
        kept_columns(rows, columns.len()).map_values(
            |i: int| aligned(columns[i].header@, column_width(columns, rows, i), columns[i].align),
        ),
        seq![' ', ' '],
    )
}

/// The line of `row`: its cells in the kept columns, aligned and two spaces apart.
pub open spec fn table_row_line(indent: nat, columns: Seq<TableColumn>, rows: Seq<Seq<Seq<char>>>, row: Seq<Seq<char>>) -> Seq<char> {
    spaces(indent) + joined(
        kept_columns(rows, columns.len()).map_values(
            |i: int| aligned(cell_text(row, i), column_width(columns, rows, i), columns[i].align),
        ),
        seq![' ', ' '],
    )
}

/// A header line and a line per row; nothing when there are no rows, no
/// columns, or no column that a row uses.
pub open spec fn table_lines(indent: nat, columns: Seq<TableColumn>, rows: Seq<Seq<Seq<char>>>) -> Seq<Seq<char>> {
    if rows.len() == 0 || columns.len() == 0 || kept_columns(rows, columns.len()).len() == 0 {
        Seq::empty()
    } else {
        seq![table_header_line(indent, columns, rows)] + rows.map_values(
            |row: Seq<Seq<char>>| table_row_line(indent, columns, rows, row),
        )
    }
}

fn column_is_used(rows: &[Vec<String>], i: usize) -> (used: bool)
    ensures
        used == column_used(row_views(rows@), i as int),
{
    let mut r: usize = 0;
    while r < rows.len()
        invariant
            r <= rows@.len(),
            forall|k: int| 0 <= k < r ==> #[trigger] cell_text(row_views(rows@)[k], i as int).len() == 0,
        decreases rows.len() - r,
    {
        if i < rows[r].len() && !rows[r][i].as_str().is_empty() {
            proof {
                assert(cell_text(row_views(rows@)[r as int], i as int).len() > 0);
            }
            return true;
        }
        r = r + 1;
    }
    false
}

/// Whether every cell's length in bytes fits in a `usize`.
pub open spec fn cells_fit(rows: Seq<Seq<Seq<char>>>) -> bool {
    forall|r: int, k: int| 0 <= r < rows.len() && 0 <= k < rows[r].len() ==> byte_len(#[trigger] rows[r][k]) <= usize::MAX
}

/// Whether every header's length in bytes fits in a `usize`.
pub open spec fn headers_fit(columns: Seq<TableColumn>) -> bool {
    forall|i: int| 0 <= i < columns.len() ==> byte_len(#[trigger] columns[i].header@) <= usize::MAX
}

fn widest_cell_of(rows: &[Vec<String>], i: usize) -> (w: usize)
    requires
        cells_fit(row_views(rows@)),
    ensures
        w == widest_cell(row_views(rows@), i as int),
{
    let ghost rv = row_views(rows@);
    let mut w: usize = 0;
    let mut r: usize = 0;
    while r < rows.len()
        invariant
            rv == row_views(rows@),
            r <= rows@.len(),
            cells_fit(rv),
            w == widest_cell(rv.take(r as int), i as int),
        decreases rows.len() - r,
    {
        let here: usize = if i < rows[r].len() { rows[r][i].as_str().len() } else { 0 };
        proof {
            let taken = rv.take(r + 1);
            assert(taken.drop_last() =~= rv.take(r as int));
            assert(taken.last() == rv[r as int]);
            if i < rows@[r as int]@.len() {
                assert(rv[r as int][i as int] == rows@[r as int]@[i as int]@);
                assert(byte_len(rv[r as int][i as int]) <= usize::MAX);
            }
        }
        if here > w {
            w = here;
        }
        r = r + 1;
    }
    proof {
        assert(rv.take(rows@.len() as int) =~= rv);
    }
    w
}

/// `text` padded with spaces to `width` characters.
fn align_cell(text: &str, width: usize, align: ColumnAlign) -> (s: String)
    ensures
        s@ == aligned(text@, width as nat, align),
{
    let count = chars_of(text).len();
    if count >= width {
        return text.to_owned();
    }
    let fill = blank(width - count);
    match align {
        ColumnAlign::Left => {
            let mut s = text.to_owned();
            push_text(&mut s, fill.as_str());
            s
        },
        ColumnAlign::Right => {
            let mut s = fill;
            push_text(&mut s, text);
            s
        },
    }
}

/// The indent, then the cells aligned to their widths, two spaces apart.
fn aligned_line(indent: usize, cells: &Vec<String>, widths: &Vec<usize>, aligns: &Vec<ColumnAlign>) -> (s: String)
    requires
        cells@.len() == widths@.len(),
        cells@.len() == aligns@.len(),
    ensures
        s@ == spaces(indent as nat) + joined(
            Seq::new(cells@.len(), |k: int| aligned(cells@[k]@, widths@[k] as nat, aligns@[k])),
            seq![' ', ' '],
        ),
{
    let mut parts: Vec<String> = Vec::new();
    let mut k: usize = 0;
    while k < cells.len()
        invariant
            cells@.len() == widths@.len(),
            cells@.len() == aligns@.len(),
            k <= cells@.len(),
            parts@.len() == k,
            forall|j: int| 0 <= j < k ==> #[trigger] parts@[j]@ == aligned(cells@[j]@, widths@[j] as nat, aligns@[j]),
        decreases cells.len() - k,
    {
        parts.push(align_cell(cells[k].as_str(), widths[k], aligns[k]));
        k = k + 1;
    }
    proof {
        reveal_strlit("  ");
        assert("  "@ =~= seq![' ', ' ']);
        assert(parts@.map_values(|p: String| p@) =~= Seq::new(
            cells@.len(),
            |k: int| aligned(cells@[k]@, widths@[k] as nat, aligns@[k]),
        ));
    }
    let mut s = blank(indent);
    let body = join_texts(&parts, "  ");
    push_text(&mut s, body.as_str());
    s
}

proof fn lemma_kept_columns_bounded(rows: Seq<Seq<Seq<char>>>, n: nat)
    ensures
        forall|k: int| 0 <= k < kept_columns(rows, n).len() ==> 0 <= #[trigger] kept_columns(rows, n)[k] < n,
    decreases n,
{
    if n > 0 {
        lemma_kept_columns_bounded(rows, (n - 1) as nat);
        let prev = kept_columns(rows, (n - 1) as nat);
        assert forall|k: int| 0 <= k < kept_columns(rows, n).len() implies 0 <= #[trigger] kept_columns(rows, n)[k] < n by {
            if k < prev.len() {
                assert(kept_columns(rows, n)[k] == prev[k]);
            }
        }
    }
}

/// Appends a header line and one line per row, the columns aligned across
/// all of them; a column that no row uses is left out.
pub fn push_aligned_table(lines: &mut Vec<String>, indent: usize, columns: &[TableColumn], rows: &[Vec<String>])
    requires
        headers_fit(columns@),
        cells_fit(row_views(rows@)),
    ensures
        string_views(final(lines)@) == string_views(old(lines)@) + table_lines(indent as nat, columns@, row_views(rows@)),
{
    let ghost before = string_views(lines@);
    let ghost rv = row_views(rows@);
    if rows.len() == 0 || columns.len() == 0 {
        proof {
            assert(before + table_lines(indent as nat, columns@, rv) =~= before);
        }
        return;
    }
    let mut keep: Vec<usize> = Vec::new();
    let mut i: usize = 0;
    while i < columns.len()
        invariant
            rv == row_views(rows@),
            i <= columns@.len(),
            keep@.len() == kept_columns(rv, i as nat).len(),
            forall|k: int| 0 <= k < keep@.len() ==> #[trigger] keep@[k] as int == kept_columns(rv, i as nat)[k],
        decreases columns.len() - i,
    {
        if column_is_used(rows, i) {
            keep.push(i);
        }
        i = i + 1;
    }
    let ghost kept = kept_columns(rv, columns@.len() as nat);
    proof {
        lemma_kept_columns_bounded(rv, columns@.len() as nat);
    }
    if keep.len() == 0 {
        proof {
            assert(before + table_lines(indent as nat, columns@, rv) =~= before);
        }
        return;
    }
    let mut widths: Vec<usize> = Vec::new();
    let mut aligns: Vec<ColumnAlign> = Vec::new();
    let mut headers: Vec<String> = Vec::new();
    let mut slot: usize = 0;
    while slot < keep.len()
        invariant
            rv == row_views(rows@),
            kept == kept_columns(rv, columns@.len() as nat),
            forall|k: int| 0 <= k < kept.len() ==> 0 <= #[trigger] kept[k] < columns@.len(),
            keep@.len() == kept.len(),
            forall|k: int| 0 <= k < keep@.len() ==> #[trigger] keep@[k] as int == kept[k],
            headers_fit(columns@),
            cells_fit(rv),
            slot <= keep@.len(),
            widths@.len() == slot,
            aligns@.len() == slot,
            headers@.len() == slot,
            forall|k: int| 0 <= k < slot ==> #[trigger] widths@[k] as nat == column_width(columns@, rv, kept[k]),
            forall|k: int| 0 <= k < slot ==> #[trigger] aligns@[k] == columns@[kept[k]].align,
            forall|k: int| 0 <= k < slot ==> #[trigger] headers@[k]@ == columns@[kept[k]].header@,
        decreases keep.len() - slot,
    {
        let c = keep[slot];
        proof {
            assert(kept[slot as int] == c as int);
            assert(byte_len(columns@[c as int].header@) <= usize::MAX);
        }
        let header_len = columns[c].header.len();
        let cells = widest_cell_of(rows, c);
        widths.push(if cells > header_len { cells } else { header_len });
        aligns.push(columns[c].align);
        headers.push(columns[c].header.to_owned());
        slot = slot + 1;
    }
    let header = aligned_line(indent, &headers, &widths, &aligns);
    proof {
        assert(Seq::new(headers@.len(), |k: int| aligned(headers@[k]@, widths@[k] as nat, aligns@[k])) =~= kept.map_values(
            |i: int| aligned(columns@[i].header@, column_width(columns@, rv, i), columns@[i].align),
        ));
        assert(string_views(lines@.push(header)) =~= string_views(lines@).push(header@));
        assert(table_lines(indent as nat, columns@, rv).take(1) =~= seq![header@]);
    }
    lines.push(header);
    let mut r: usize = 0;
    while r < rows.len()
        invariant
            rv == row_views(rows@),
            kept == kept_columns(rv, columns@.len() as nat),
            forall|k: int| 0 <= k < kept.len() ==> 0 <= #[trigger] kept[k] < columns@.len(),
            keep@.len() == kept.len(),
            forall|k: int| 0 <= k < keep@.len() ==> #[trigger] keep@[k] as int == kept[k],
            widths@.len() == kept.len(),
            aligns@.len() == kept.len(),
            forall|k: int| 0 <= k < kept.len() ==> #[trigger] widths@[k] as nat == column_width(columns@, rv, kept[k]),
            forall|k: int| 0 <= k < kept.len() ==> #[trigger] aligns@[k] == columns@[kept[k]].align,
            r <= rows@.len(),
            rows@.len() > 0,
            columns@.len() > 0,
            kept.len() > 0,
            string_views(lines@) == before + table_lines(indent as nat, columns@, rv).take(r + 1),
        decreases rows.len() - r,
    {
        let row = &rows[r];
        let ghost row_v = rv[r as int];
        let mut cells: Vec<String> = Vec::new();
        let mut slot: usize = 0;
        while slot < keep.len()
            invariant
                row_v == string_views(row@),
                keep@.len() == kept.len(),
                forall|k: int| 0 <= k < keep@.len() ==> #[trigger] keep@[k] as int == kept[k],
                slot <= keep@.len(),
                cells@.len() == slot,
                forall|k: int| 0 <= k < slot ==> #[trigger] cells@[k]@ == cell_text(row_v, kept[k]),
            decreases keep.len() - slot,
        {
            let c = keep[slot];
            if c < row.len() {
                cells.push(row[c].clone());
            } else {
                cells.push(String::new());
            }
            slot = slot + 1;
        }
        let line = aligned_line(indent, &cells, &widths, &aligns);
        proof {
            assert(Seq::new(cells@.len(), |k: int| aligned(cells@[k]@, widths@[k] as nat, aligns@[k])) =~= kept.map_values(
                |i: int| aligned(cell_text(row_v, i), column_width(columns@, rv, i), columns@[i].align),
            ));
            let all = table_lines(indent as nat, columns@, rv);
            assert(all[r + 1] == table_row_line(indent as nat, columns@, rv, row_v));
            assert(all.take(r + 2) =~= all.take(r + 1).push(line@));
            assert(string_views(lines@.push(line)) =~= string_views(lines@).push(line@));
        }
        lines.push(line);
        r = r + 1;
    }
    proof {
        let all = table_lines(indent as nat, columns@, rv);
        assert(all.take(rows@.len() + 1int) =~= all);
    }
}

pub(crate) proof fn lemma_byte_len_bound(s: Seq<char>)
    ensures
        byte_len(s) <= 4 * s.len(),
    decreases s.len(),
{
    if s.len() > 0 {
        lemma_byte_len_bound(s.drop_first());
    }
}

pub open spec fn ten_pow(k: nat) -> nat
    decreases k,
{
    if k == 0 { 1 } else { 10 * ten_pow((k - 1) as nat) }
}

proof fn lemma_decimal_len(n: nat, k: nat)
    requires
        k >= 1,
        n < ten_pow(k),
    ensures
        decimal(n).len() <= k,
    decreases k,
{
    if n >= 10 {
        if k == 1 {
            assert(ten_pow(1) == 10) by {
                reveal_with_fuel(ten_pow, 2);
            }
        } else {
            let t = ten_pow((k - 1) as nat);
            assert(n / 10 < t) by (nonlinear_arith)
                requires
                    n < 10 * t,
            ;
            lemma_decimal_len(n / 10, (k - 1) as nat);
        }
    }
}

/// A `usize` in decimal takes at most twenty bytes.
proof fn lemma_decimal_usize_bytes(n: usize)
    ensures
        byte_len(decimal(n as nat)) <= 80,
{
    assert(ten_pow(20) == 100000000000000000000) by {
        reveal_with_fuel(ten_pow, 21);
    }
    lemma_decimal_len(n as nat, 20);
    lemma_byte_len_bound(decimal(n as nat));
}

/// The columns of the reachable identity table.
pub open spec fn reachable_columns() -> Seq<TableColumn> {
    seq![
        TableColumn { header: "identity", align: ColumnAlign::Left },
        TableColumn { header: "value", align: ColumnAlign::Left },
        TableColumn { header: "distance", align: ColumnAlign::Right },
    ]
}

/// A row per reachable identity: its key, its value and its distance.
pub open spec fn reachable_rows(reachable: Seq<ReachableMetadataIdentity>) -> Seq<Seq<Seq<char>>> {
    reachable.map_values(
        |r: ReachableMetadataIdentity| seq![r.identity.key@, metadata_value_text(r.identity.value), decimal(r.distance as nat)],
    )
}

/// The `[label]` header of a metadata section at `indent`.
pub open spec fn section_header(indent: nat, label: Seq<char>) -> Seq<char> {
    spaces(indent) + seq!['['] + label + seq![']']
}

/// Appends the reachable identities as a section with an aligned table;
/// nothing when there are none.
pub fn push_reachable_identity_lines(lines: &mut Vec<String>, indent: usize, reachable_identities: &[ReachableMetadataIdentity])
    requires
        indent + 2 <= usize::MAX,
        forall|i: int| 0 <= i < reachable_identities@.len() ==> byte_len(#[trigger] reachable_identities@[i].identity.key@) <= usize::MAX
            && byte_len(metadata_value_text(reachable_identities@[i].identity.value)) <= usize::MAX,
    ensures
        reachable_identities@.len() == 0 ==> final(lines)@ == old(lines)@,
        reachable_identities@.len() > 0 ==> string_views(final(lines)@) == string_views(old(lines)@)
            + seq![section_header(indent as nat, "reachable_identities"@)]
            + table_lines((indent + 2) as nat, reachable_columns(), reachable_rows(reachable_identities@)),
{
    if reachable_identities.len() == 0 {
        return;
    }
    let ghost before = string_views(lines@);
    push_metadata_section_header(lines, indent, "reachable_identities");
    proof {
        assert(string_views(lines@) =~= before + seq![section_header(indent as nat, "reachable_identities"@)]);
    }
    let mut rows: Vec<Vec<String>> = Vec::new();
    let mut i: usize = 0;
    while i < reachable_identities.len()
        invariant
            i <= reachable_identities@.len(),
            row_views(rows@) == reachable_rows(reachable_identities@).take(i as int),
        decreases reachable_identities.len() - i,
    {
        let reachable = &reachable_identities[i];
        let mut distance = String::new();
        push_decimal(&mut distance, reachable.distance as u64);
        let row = vec![reachable.identity.key.clone(), format_metadata_value(&reachable.identity.value), distance];
        proof {
            assert(string_views(row@) =~= reachable_rows(reachable_identities@)[i as int]);
            assert(row_views(rows@.push(row)) =~= row_views(rows@).push(string_views(row@)));
            assert(reachable_rows(reachable_identities@).take(i + 1) =~= reachable_rows(reachable_identities@).take(i as int).push(
                reachable_rows(reachable_identities@)[i as int],
            ));
        }
        rows.push(row);
        i = i + 1;
    }
    let columns = vec![
        TableColumn { header: "identity", align: ColumnAlign::Left },
        TableColumn { header: "value", align: ColumnAlign::Left },
        TableColumn { header: "distance", align: ColumnAlign::Right },
    ];
    proof {
        let rv = reachable_rows(reachable_identities@);
        assert(rv.take(reachable_identities@.len() as int) =~= rv);
        assert(columns@ =~= reachable_columns());
        assert forall|i: int| 0 <= i < columns@.len() implies byte_len(#[trigger] columns@[i].header@) <= usize::MAX by {
            lemma_byte_len_bound(columns@[i].header@);
            reveal_strlit("identity");
            reveal_strlit("value");
            reveal_strlit("distance");
        }
        assert forall|r: int, k: int| 0 <= r < rv.len() && 0 <= k < rv[r].len() implies byte_len(#[trigger] rv[r][k]) <= usize::MAX by {
            assert(byte_len(reachable_identities@[r].identity.key@) <= usize::MAX);
            lemma_decimal_usize_bytes(reachable_identities@[r].distance);
        }
    }
    push_aligned_table(lines, indent + 2, columns.as_slice(), rows.as_slice());
}

// ---------------------------------------------------------------------------
// Word wrapping

/// A word as it goes into a wrapped line: cut with dots when wider than `width`.
pub open spec fn fitted_word(word: Seq<char>, width: int) -> Seq<char> {
    if str_width(word) > width { dotted(word, width) } else { word }
}

/// One word added to the lines so far and the line being filled: it goes on
/// the current line, one space after what is there, when that fits in
/// `width`; else the current line is finished and the word starts the next.
/// The third part says that `max_lines` lines are finished.
pub open spec fn wrap_word(
    lines: Seq<Seq<char>>,
    current: Seq<char>,
    word: Seq<char>,
    width: int,
    max_lines: int,
) -> (Seq<Seq<char>>, Seq<char>, bool) {
    let w = fitted_word(word, width);
    if current.len() > 0 && str_width(current) + 1 + str_width(w) > width {
        let finished = lines.push(current);
        if finished.len() == max_lines {
            (finished, Seq::empty(), true)
        } else {
            (finished, w, false)
        }
    } else if current.len() > 0 {
        (lines, current + seq![' '] + w, false)
    } else {
        (lines, w, false)
    }
}

/// The words taken one by one, stopping once `max_lines` lines are finished.
pub open spec fn wrap_words(words: Seq<Seq<char>>, width: int, max_lines: int) -> (Seq<Seq<char>>, Seq<char>, bool)
    decreases words.len(),
{
    if words.len() == 0 {
        (Seq::empty(), Seq::empty(), false)
    } else {
        let (lines, current, full) = wrap_words(words.drop_last(), width, max_lines);
        if full {
            (lines, current, full)
        } else {
            wrap_word(lines, current, words.last(), width, max_lines)
        }
    }
}

/// `n` empty lines.
pub open spec fn empty_lines(n: nat) -> Seq<Seq<char>> {
    Seq::new(n, |i: int| Seq::<char>::empty())
}

/// `text` wrapped at word boundaries into exactly `max_lines` lines of at
/// most `width` columns, blank lines filling what the text leaves.
pub open spec fn wrapped(text: Seq<char>, width: int, max_lines: int) -> Seq<Seq<char>> {
    if max_lines <= 0 {
        Seq::empty()
    } else if width <= 0 {
        empty_lines(max_lines as nat)
    } else {
        let (lines, current, full) = wrap_words(words(text), width, max_lines);
        if full {
            lines
        } else {
            let last = if current.len() > 0 && lines.len() < max_lines { lines.push(current) } else { lines };
            last + empty_lines((max_lines - last.len()) as nat)
        }
    }
}

proof fn lemma_wrap_words_short(words: Seq<Seq<char>>, width: int, max_lines: int)
    requires
        max_lines > 0,
    ensures
        ({
            let (lines, current, full) = wrap_words(words, width, max_lines);
            &&& full ==> lines.len() == max_lines
            &&& !full ==> lines.len() < max_lines
        }),
    decreases words.len(),
{
    if words.len() > 0 {
        lemma_wrap_words_short(words.drop_last(), width, max_lines);
    }
}

/// Wraps `text` into exactly `max_lines` lines of at most `width` columns.
pub fn wrap_to_width(text: &str, width: usize, max_lines: usize) -> (out: Vec<String>)
    requires
        width + 3 <= usize::MAX,
    ensures
        string_views(out@) == wrapped(text@, width as int, max_lines as int),
{
    let mut lines: Vec<String> = Vec::new();
    if max_lines == 0 {
        proof {
            assert(string_views(lines@) =~= wrapped(text@, width as int, max_lines as int));
        }
        return lines;
    }
    if width == 0 {
        let mut k: usize = 0;
        while k < max_lines
            invariant
                k <= max_lines,
                string_views(lines@) == empty_lines(k as nat),
            decreases max_lines - k,
        {
            let e = String::new();
            proof {
                assert(string_views(lines@.push(e)) =~= string_views(lines@).push(e@));
                assert(string_views(lines@).push(e@) =~= empty_lines((k + 1) as nat));
            }
            lines.push(e);
            k = k + 1;
        }
        return lines;
    }
    let words_of_text = split_words(text);
    let ghost ws = words_of_text@.map_values(|w: String| w@);
    let mut current = String::new();
    let mut k: usize = 0;
    while k < words_of_text.len()
        invariant
            ws == words_of_text@.map_values(|w: String| w@),
            ws == words(text@),
            k <= ws.len(),
            width > 0,
            width + 3 <= usize::MAX,
            max_lines > 0,
            (string_views(lines@), current@, false) == wrap_words(ws.take(k as int), width as int, max_lines as int),
            lines@.len() < max_lines,
        decreases words_of_text.len() - k,
    {
        let word_text = words_of_text[k].as_str();
        let word = if text_width(word_text) > width { truncate_to_width(word_text, width) } else { word_text.to_owned() };
        proof {
            let t = ws.take(k + 1);
            assert(t.drop_last() =~= ws.take(k as int));
            assert(t.last() == ws[k as int]);
        }
        let separator: u128 = if current.as_str().is_empty() { 0 } else { 1 };
        if !current.as_str().is_empty()
            && (text_width(current.as_str()) as u128) + separator + (text_width(word.as_str()) as u128) > width as u128 {
            proof {
                assert(string_views(lines@.push(current)) =~= string_views(lines@).push(current@));
            }
            lines.push(current);
            current = String::new();
            if lines.len() == max_lines {
                proof {
                    let t = ws.take(k + 1);
                    lemma_wrap_words_short(t, width as int, max_lines as int);
                    lemma_wrap_words_prefix_full(ws, k + 1, width as int, max_lines as int);
                    assert(ws.take(ws.len() as int) =~= ws);
                }
                return lines;
            }
            current = word;
        } else {
            if !current.as_str().is_empty() {
                push_char(&mut current, ' ');
            }
            push_text(&mut current, word.as_str());
        }
        k = k + 1;
    }
    proof {
        assert(ws.take(ws.len() as int) =~= ws);
    }
    if !current.as_str().is_empty() && lines.len() < max_lines {
        proof {
            assert(string_views(lines@.push(current)) =~= string_views(lines@).push(current@));
        }
        lines.push(current);
    }
    let ghost last = string_views(lines@);
    while lines.len() < max_lines
        invariant
            last.len() <= string_views(lines@).len() <= max_lines,
            string_views(lines@) == last + empty_lines((string_views(lines@).len() - last.len()) as nat),
        decreases max_lines - lines.len(),
    {
        let e = String::new();
        proof {
            assert(string_views(lines@.push(e)) =~= string_views(lines@).push(e@));
            assert(string_views(lines@).push(e@) =~= last + empty_lines((lines@.len() + 1 - last.len()) as nat));
        }
        lines.push(e);
    }
    lines
}

/// Wrapped text always takes exactly the lines asked for.
pub proof fn lemma_wrapped_line_count(text: Seq<char>, width: int, max_lines: int)
    requires
        max_lines >= 0,
    ensures
        wrapped(text, width, max_lines).len() == max_lines,
{
    if max_lines > 0 && width > 0 {
        lemma_wrap_words_short(words(text), width, max_lines);
    }
}

/// Once `max_lines` lines are finished, later words change nothing.
proof fn lemma_wrap_words_prefix_full(words: Seq<Seq<char>>, n: int, width: int, max_lines: int)
    requires
        0 <= n <= words.len(),
        wrap_words(words.take(n), width, max_lines).2,
    ensures
        wrap_words(words, width, max_lines) == wrap_words(words.take(n), width, max_lines),
    decreases words.len() - n,
{
    if n < words.len() {
        let t = words.take(n + 1);
        assert(t.drop_last() =~= words.take(n));
        lemma_wrap_words_prefix_full(words, n + 1, width, max_lines);
    } else {
        assert(words.take(n) =~= words);
    }
}

// ---------------------------------------------------------------------------
// Card body lines

/// The style a dimmed body takes inside a box: the theme's body color, dimmed.
pub open spec fn dimmed_body_style(theme: Option<RenderTheme>) -> TextStyle {
    let base = match theme {
        Some(theme) => foreground_spec(theme.body_foreground),
        None => plain_style(),
    };
    TextStyle { dimmed: true, ..base }
}

/// A body line of a card `width` columns wide. Without a box it is the text
/// cut and padded to the width; in a box, the text sits between two side
/// borders. A dimmed line is drawn dimmed in place of the body color.
pub open spec fn body_line_text(text: Seq<char>, width: int, active: bool, dimmed: bool, theme: Option<RenderTheme>, boxed: bool) -> Seq<char> {
    if !boxed {
        let fitted = padded(dotted(text, width), width);
        if dimmed {
            ansi_painted(TextStyle { dimmed: true, ..plain_style() }, fitted)
        } else {
            body_text_spec(fitted, theme)
        }
    } else if width == 0 {
        Seq::empty()
    } else if width == 1 {
        border_text_spec(seq!['│'], active, theme)
    } else {
        let inner = width - 2;
        let fitted = padded(dotted(text, inner), inner);
        let body = if dimmed { ansi_painted(dimmed_body_style(theme), fitted) } else { body_text_spec(fitted, theme) };
        border_text_spec(seq!['│'], active, theme) + body + border_text_spec(seq!['│'], active, theme)
    }
}

/// A body line of a card; `boxed` says whether the card's chrome draws a box.
pub fn body_line(text: &str, width: usize, active: bool, dimmed: bool, theme: Option<RenderTheme>, boxed: bool) -> (s: String)
    requires
        width + 3 <= usize::MAX,
    ensures
        s@ == body_line_text(text@, width as int, active, dimmed, theme, boxed),
{
    proof {
        reveal_strlit("│");
        assert("│"@ =~= seq!['│']);
    }
    if !boxed {
        let cut = truncate_to_width(text, width);
        let fitted = pad_to_width(cut.as_str(), width);
        if dimmed {
            let style = latent_tab_style(TextStyle { foreground: None, background: None, bold: false, dimmed: false });
            return paint(style, fitted.as_str());
        }
        return style_body_text(fitted, theme);
    }
    if width == 0 {
        return String::new();
    }
    if width == 1 {
        return style_border_text("│".to_owned(), active, theme);
    }
    let inner_width = width - 2;
    let cut = truncate_to_width(text, inner_width);
    let fitted = pad_to_width(cut.as_str(), inner_width);
    let body = if dimmed {
        let base = match theme {
            Some(theme) => foreground_style(theme.body_foreground),
            None => TextStyle { foreground: None, background: None, bold: false, dimmed: false },
        };
        paint(latent_tab_style(base), fitted.as_str())
    } else {
        style_body_text(fitted, theme)
    };
    let mut line = style_border_text("│".to_owned(), active, theme);
    push_text(&mut line, body.as_str());
    let right = style_border_text("│".to_owned(), active, theme);
    push_text(&mut line, right.as_str());
    line
}

/// The body lines of a card: its status text wrapped beside the status
/// icon's square, or, for a tab without a status, its latent summary wrapped
/// to the card's inner width; blank lines otherwise. `status_text` is the
/// status as the card's template writes it.
pub open spec fn body_lines_spec(
    status: Option<TabStatusSummary>,
    latent_summary: Option<Seq<char>>,
    status_text: Seq<char>,
    row: int,
    body_rows: int,
    cols: int,
    terminal_cell_size: Option<SizeInPixels>,
) -> Seq<Seq<char>> {
    let inner = if cols >= 2 { cols - 2 } else { 0 };
    match status {
        None => match latent_summary {
            Some(summary) => wrapped(summary, inner, body_rows),
            None => empty_lines(body_rows as nat),
        },
        Some(status) => if body_rows == 0 || inner == 0 {
            empty_lines(body_rows as nat)
        } else {
            let reserve = match status_icon_place(status, row, body_rows, cols, square_columns(body_rows, terminal_cell_size)) {
                Some(rect) => rect.columns + 1,
                None => 0,
            };
            let text_width = if inner >= reserve { inner - reserve } else { 0 };
            wrapped(status_text, text_width, body_rows).map_values(|line: Seq<char>| spaces(reserve as nat) + line)
        },
    }
}

pub fn body_lines(
    status: Option<&TabStatusSummary>,
    latent_summary: Option<&str>,
    status_text: &str,
    row: usize,
    body_rows: usize,
    cols: usize,
    terminal_cell_size: Option<SizeInPixels>,
) -> (lines: Vec<String>)
    requires
        cols + 3 <= usize::MAX,
        row < usize::MAX,
        terminal_cell_size matches Some(size) ==> body_rows * size.height + size.width <= u64::MAX,
    ensures
        string_views(lines@) == body_lines_spec(
            match status { Some(s) => Some(*s), None => None },
            match latent_summary { Some(s) => Some(s@), None => None },
            status_text@,
            row as int,
            body_rows as int,
            cols as int,
            terminal_cell_size,
        ),
{
    let inner_width = cols.saturating_sub(2);
    let status = match status {
        Some(status) => status,
        None => {
            match latent_summary {
                Some(summary) => {
                    return wrap_to_width(summary, inner_width, body_rows);
                },
                None => {
                    let mut lines: Vec<String> = Vec::new();
                    let mut k: usize = 0;
                    while k < body_rows
                        invariant
                            k <= body_rows,
                            string_views(lines@) == empty_lines(k as nat),
                        decreases body_rows - k,
                    {
                        let e = String::new();
                        proof {
                            assert(string_views(lines@.push(e)) =~= string_views(lines@).push(e@));
                            assert(string_views(lines@).push(e@) =~= empty_lines((k + 1) as nat));
                        }
                        lines.push(e);
                        k = k + 1;
                    }
                    return lines;
                },
            }
        },
    };
    if body_rows == 0 || inner_width == 0 {
        let mut lines: Vec<String> = Vec::new();
        let mut k: usize = 0;
        while k < body_rows
            invariant
                k <= body_rows,
                string_views(lines@) == empty_lines(k as nat),
            decreases body_rows - k,
        {
            let e = String::new();
            proof {
                assert(string_views(lines@.push(e)) =~= string_views(lines@).push(e@));
                assert(string_views(lines@).push(e@) =~= empty_lines((k + 1) as nat));
            }
            lines.push(e);
            k = k + 1;
        }
        return lines;
    }
    let icon_reserve = match status_icon_rect(status, row, body_rows, cols, terminal_cell_size) {
        Some(rect) => rect.columns + 1,
        None => 0,
    };
    let text_width = inner_width.saturating_sub(icon_reserve);
    let text_lines = wrap_to_width(status_text, text_width, body_rows);
    let ghost texts = string_views(text_lines@);
    let mut lines: Vec<String> = Vec::new();
    let mut k: usize = 0;
    while k < text_lines.len()
        invariant
            texts == string_views(text_lines@),
            k <= text_lines@.len(),
            string_views(lines@) == texts.take(k as int).map_values(|line: Seq<char>| spaces(icon_reserve as nat) + line),
        decreases text_lines.len() - k,
    {
        let mut line = blank(icon_reserve);
        push_text(&mut line, text_lines[k].as_str());
        proof {
            assert(texts.take(k + 1).map_values(|line: Seq<char>| spaces(icon_reserve as nat) + line) =~= texts.take(k as int).map_values(
                |line: Seq<char>| spaces(icon_reserve as nat) + line,
            ).push(line@));
            assert(string_views(lines@.push(line)) =~= string_views(lines@).push(line@));
        }
        lines.push(line);
        k = k + 1;
    }
    proof {
        assert(texts.take(text_lines@.len() as int) =~= texts);
    }
    lines
}

// ---------------------------------------------------------------------------
// Hit testing

pub open spec fn region_contains(region: HitRegion, row: int, col: int) -> bool {
    region.row_start <= row <= region.row_end && region.col_start <= col <= region.col_end
}

/// The cells a region covers.
pub open spec fn region_area(region: HitRegion) -> int {
    let rows = (if region.row_end >= region.row_start { region.row_end - region.row_start } else { 0 }) + 1;
    let cols = (if region.col_end >= region.col_start { region.col_end - region.col_start } else { 0 }) + 1;
    rows * cols
}

/// Region `i` is the one a click at `(row, col)` lands on: it contains the
/// cell, no containing region is smaller, and none registered after it is
/// as small.
pub open spec fn is_hit(regions: Seq<HitRegion>, row: int, col: int, i: int) -> bool {
    &&& 0 <= i < regions.len()
    &&& region_contains(regions[i], row, col)
    &&& forall|j: int| 0 <= j < regions.len() && region_contains(#[trigger] regions[j], row, col) ==> region_area(regions[i]) <= region_area(regions[j])
    &&& forall|j: int| i < j < regions.len() && region_contains(#[trigger] regions[j], row, col) ==> region_area(regions[i]) < region_area(regions[j])
}

/// Whether every region's area fits in a `usize`.
pub open spec fn areas_fit(regions: Seq<HitRegion>) -> bool {
    forall|i: int| 0 <= i < regions.len() ==> region_area(#[trigger] regions[i]) <= usize::MAX
        && regions[i].row_end - regions[i].row_start < usize::MAX && regions[i].col_end - regions[i].col_start < usize::MAX
}

fn area_of(region: &HitRegion) -> (a: usize)
    requires
        region_area(*region) <= usize::MAX,
        region.row_end - region.row_start < usize::MAX,
        region.col_end - region.col_start < usize::MAX,
    ensures
        a == region_area(*region),
{
    let rows = region.row_end.saturating_sub(region.row_start) + 1;
    let cols = region.col_end.saturating_sub(region.col_start) + 1;
    rows * cols
}

/// The region a click at `(row, col)` lands on: the smallest that contains
/// it, the one registered last among equals, so that a small control wins
/// over the card it sits on.
pub fn hit_at(hit_regions: &[HitRegion], row: usize, col: usize) -> (r: Option<&HitRegion>)
    requires
        areas_fit(hit_regions@),
    ensures
        r is None <==> forall|j: int| 0 <= j < hit_regions@.len() ==> !region_contains(#[trigger] hit_regions@[j], row as int, col as int),
        r matches Some(h) ==> exists|i: int| is_hit(hit_regions@, row as int, col as int, i) && *h == hit_regions@[i],
{
    let ghost regions = hit_regions@;
    let mut best: Option<usize> = None;
    let mut best_area: usize = 0;
    let mut i: usize = 0;
    while i < hit_regions.len()
        invariant
            regions == hit_regions@,
            areas_fit(regions),
            i <= regions.len(),
            best is None ==> forall|j: int| 0 <= j < i ==> !region_contains(#[trigger] regions[j], row as int, col as int),
            best matches Some(b) ==> {
                &&& b < i
                &&& best_area == region_area(regions[b as int])
                &&& region_contains(regions[b as int], row as int, col as int)
                &&& forall|j: int| 0 <= j < i && region_contains(#[trigger] regions[j], row as int, col as int) ==> best_area <= region_area(regions[j])
                &&& forall|j: int| b < j < i && region_contains(#[trigger] regions[j], row as int, col as int) ==> best_area < region_area(regions[j])
            },
        decreases hit_regions.len() - i,
    {
        let region = &hit_regions[i];
        if row >= region.row_start && row <= region.row_end && col >= region.col_start && col <= region.col_end {
            proof {
                assert(region_area(regions[i as int]) <= usize::MAX);
            }
            let area = area_of(region);
            let replace = match best {
                None => true,
                Some(_) => area <= best_area,
            };
            if replace {
                best = Some(i);
                best_area = area;
            }
        }
        i = i + 1;
    }
    match best {
        Some(b) => {
            proof {
                assert(is_hit(regions, row as int, col as int, b as int));
            }
            Some(&hit_regions[b])
        },
        None => None,
    }
}

/// A themed strip segment with room for its label shows the segment's
/// colours of its own state: an active item between arrows into and out of
/// the theme's active background, its label in the active foreground on
/// that background; an inactive item likewise in the inactive colours.
pub proof fn lemma_strip_segment_colours_follow_activity(item: crate::segment_bar::SegmentItemView, max_width: int, theme: RenderTheme)
    requires
        max_width >= 3,
    ensures
        item.active ==> exists|label: Seq<char>|
            strip_segment_spec(item, max_width, Some(theme)).0 == ansi_painted(
                bold_cell(theme.segment_between_background, theme.segment_active_background),
                arrow(),
            ) + #[trigger] ansi_painted(bold_cell(theme.segment_active_foreground, theme.segment_active_background), label)
                + ansi_painted(bold_cell(theme.segment_active_background, theme.segment_between_background), arrow()),
        !item.active ==> exists|label: Seq<char>|
            strip_segment_spec(item, max_width, Some(theme)).0 == ansi_painted(
                bold_cell(theme.segment_between_background, theme.segment_inactive_background),
                arrow(),
            ) + #[trigger] ansi_painted(bold_cell(theme.segment_inactive_foreground, theme.segment_inactive_background), label)
                + ansi_painted(bold_cell(theme.segment_inactive_background, theme.segment_between_background), arrow()),
{
    let full = if str_width(item.label) + 4 > usize::MAX { usize::MAX as int } else { str_width(item.label) + 4 };
    let visible_width = if full < max_width { full } else { max_width };
    assert(visible_width - 1 > 1);
    let label = dotted(spaced(item.label), visible_width - 2);
    if item.active {
        assert(strip_segment_spec(item, max_width, Some(theme)).0 == ansi_painted(
            bold_cell(theme.segment_between_background, theme.segment_active_background),
            arrow(),
        ) + ansi_painted(bold_cell(theme.segment_active_foreground, theme.segment_active_background), label)
            + ansi_painted(bold_cell(theme.segment_active_background, theme.segment_between_background), arrow()));
    } else {
        assert(strip_segment_spec(item, max_width, Some(theme)).0 == ansi_painted(
            bold_cell(theme.segment_between_background, theme.segment_inactive_background),
            arrow(),
        ) + ansi_painted(bold_cell(theme.segment_inactive_foreground, theme.segment_inactive_background), label)
            + ansi_painted(bold_cell(theme.segment_inactive_background, theme.segment_between_background), arrow()));
    }
}

} // verus!
