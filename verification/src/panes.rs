//! Where the app's dividers sit and where its boxes are drawn: the
//! arithmetic the draw and the hit test share, so a click is judged against
//! the frame that is on screen.
use vstd::prelude::*;

use crate::lists::FileListEntry;
use crate::text::{column_width, counts_columns, adds_of, dels_of};
use crate::width::{str_width, width_of_str};

verus! {

/// A rectangle of terminal cells.
#[derive(Debug, Clone, Copy, PartialEq, Eq)]
pub struct Rect {
    pub x: u16,
    pub y: u16,
    pub width: u16,
    pub height: u16,
}

/// The app's panes: the left pane, the detail, a status row.
#[derive(Debug, Clone, Copy)]
pub struct Panes {
    pub body: Rect,
    pub plan: Rect,
    pub detail: Rect,
    pub status: Rect,
}

/// The left pane's width before the reader moves the divider.
pub const DEFAULT_PLAN_COLS: u16 = 40;

/// The narrowest either pane may be squeezed to.
pub const MIN_PANE: u16 = 20;

/// A divider at `at`, held inside a `span` that keeps `floor` columns each
/// side of it — or, in a span too narrow for two floors, down the middle.
pub open spec fn spec_split_point(at: int, span: int, floor: int) -> int {
    let max = if span < floor { 0 } else { span - floor };
    if max < floor {
        span / 2
    } else if at < floor {
        floor
    } else if at > max {
        max
    } else {
        at
    }
}

/// A divider at `at`, held inside a `span` that keeps `floor` columns each
/// side of it. Both of the app's dividers are this rule; a span too
/// narrow for two floors **splits down the middle**.
pub fn split_point(at: usize, span: usize, floor: usize) -> (r: usize)
    ensures
        r == spec_split_point(at as int, span as int, floor as int),
        r <= span,
{
    let max = if span < floor { 0 } else { span - floor };
    if max < floor {
        return span / 2;
    }
    if at < floor {
        floor
    } else if at > max {
        max
    } else {
        at
    }
}

/// Both sides of a divider keep their floor whenever the span has room for
/// two, and a divider already inside the floors does not move.
pub proof fn lemma_split_point_keeps_floors(at: int, span: int, floor: int)
    requires
        0 <= floor,
        2 * floor <= span,
    ensures
        floor <= spec_split_point(at, span, floor) <= span - floor,
        floor <= at <= span - floor ==> spec_split_point(at, span, floor) == at,
        spec_split_point(spec_split_point(at, span, floor), span, floor) == spec_split_point(at, span, floor),
{
}

/// The divider between the panes, held inside the screen.
pub fn clamp_cols(cols: u16, width: u16) -> (r: u16)
    ensures
        r == spec_split_point(cols as int, width as int, MIN_PANE as int),
        r <= width,
{
    split_point(cols as usize, width as usize, MIN_PANE as usize) as u16
}

/// The two columns the divider paints on: the left pane's right border and
/// the detail pane's left.
pub fn divider(panes: &Panes) -> (r: (u16, u16))
    requires
        panes.plan.x + panes.plan.width <= u16::MAX,
    ensures
        r.1 == panes.plan.x + panes.plan.width,
        r.0 == (if r.1 == 0 { 0 } else { r.1 - 1 }),
{
    let right = panes.plan.x + panes.plan.width;
    (if right == 0 { 0 } else { right - 1 }, right)
}

/// What a drag has hold of.
#[derive(Debug, Clone, Copy, PartialEq, Eq)]
pub enum Grab {
    /// The divider between the panes, carrying which of its two columns the
    /// press landed on as a distance from the left pane's width.
    Panes(i16),
    /// The split view's middle.
    Split,
}

/// Which pane has the keys.
#[derive(Debug, Clone, Copy, PartialEq, Eq)]
pub enum Focus {
    Groups,
    Detail,
}

/// What the left pane lists.
#[derive(Debug, Clone, Copy, PartialEq, Eq)]
pub enum ViewMode {
    /// Semantic groups — the reading plan.
    Groups,
    /// Flattened per-file list, every hunk in file order.
    Files,
}

/// A plan row's relation to the selected group.
#[derive(Debug, Clone, Copy, PartialEq, Eq)]
pub enum Relation {
    Selected,
    /// The selected group follows this one.
    Dependency,
    /// Neither.
    Unrelated,
}

/// The two column widths a split row lays out in, either side of the `│`.
pub fn half_widths(width: usize) -> (r: (usize, usize))
    ensures
        width == 0 ==> r == (0usize, 0usize),
        width > 0 ==> r.0 == (width - 1) / 2 && r.0 + r.1 + 1 == width,
        r.0 <= r.1 <= r.0 + 1,
{
    let inner = if width == 0 { 0 } else { width - 1 };
    let lw = inner / 2;
    (lw, inner - lw)
}

/// Rows the frame takes from a box's height: its top and bottom border.
pub const FRAME_ROWS: u16 = 2;

impl Rect {
    /// The column just past the right edge, held at the last column there is.
    pub fn right(&self) -> (r: u16)
        ensures
            r == (if self.x + self.width > u16::MAX { u16::MAX as int } else { self.x + self.width }),
    {
        if self.width > u16::MAX - self.x { u16::MAX } else { self.x + self.width }
    }

    /// The row just past the bottom edge, held at the last row there is.
    pub fn bottom(&self) -> (r: u16)
        ensures
            r == (if self.y + self.height > u16::MAX { u16::MAX as int } else { self.y + self.height }),
    {
        if self.height > u16::MAX - self.y { u16::MAX } else { self.y + self.height }
    }

    /// Whether `at` is one of this rectangle's cells.
    pub fn contains(&self, at: Position) -> (r: bool)
        ensures
            r == spec_contains(*self, at),
    {
        at.x >= self.x && at.x < self.right() && at.y >= self.y && at.y < self.bottom()
    }
}

/// What a border one cell wide all round leaves inside `area`: a column off
/// each side and a row off the top and the bottom. A side with nothing left
/// to take from stays where it is, and nothing moves past the last cell.
pub open spec fn spec_inner(area: Rect) -> Rect {
    Rect {
        x: if area.width == 0 || area.x == u16::MAX { area.x } else { (area.x + 1) as u16 },
        y: if area.height == 0 || area.y == u16::MAX { area.y } else { (area.y + 1) as u16 },
        width: if area.width < FRAME_ROWS { 0 } else { (area.width - FRAME_ROWS) as u16 },
        height: if area.height < FRAME_ROWS { 0 } else { (area.height - FRAME_ROWS) as u16 },
    }
}

/// The content the frame every pane and box wears leaves inside `area`. The
/// rows a click is mapped onto and the footer row are read from here, so a
/// hit test cannot disagree with the draw about where the border is.
pub fn pane_inner(area: Rect) -> (r: Rect)
    ensures
        r == spec_inner(area),
{
    Rect {
        x: if area.width == 0 || area.x == u16::MAX { area.x } else { area.x + 1 },
        y: if area.height == 0 || area.y == u16::MAX { area.y } else { area.y + 1 },
        width: if area.width < FRAME_ROWS { 0 } else { area.width - FRAME_ROWS },
        height: if area.height < FRAME_ROWS { 0 } else { area.height - FRAME_ROWS },
    }
}

/// A box's footer: the last content row its frame leaves inside it, one row
/// tall and as wide as the content.
pub open spec fn spec_footer_row(area: Rect) -> Rect {
    let inner = spec_inner(area);
    let bottom: int = if inner.y + inner.height > u16::MAX { u16::MAX as int } else { inner.y + inner.height };
    Rect { x: inner.x, y: (if bottom < 1 { 0 } else { bottom - 1 }) as u16, width: inner.width, height: 1 }
}

/// A box's footer: the last content row its frame leaves inside it.
pub fn footer_row(area: Rect) -> (r: Rect)
    ensures
        r == spec_footer_row(area),
        area.x + area.width <= u16::MAX ==> r.x + r.width <= u16::MAX,
{
    let inner = pane_inner(area);
    let bottom = inner.bottom();
    Rect { x: inner.x, y: if bottom < 1 { 0 } else { bottom - 1 }, width: inner.width, height: 1 }
}

/// A cell of the terminal: its column and its row.
#[derive(Debug, Clone, Copy, PartialEq, Eq)]
pub struct Position {
    pub x: u16,
    pub y: u16,
}

/// Whether `at` is one of the cells of `area`: at or right of its left edge
/// and left of its right one, at or below its top and above its bottom (each
/// far edge held at the last cell there is).
pub open spec fn spec_contains(area: Rect, at: Position) -> bool {
    let right: int = if area.x + area.width > u16::MAX { u16::MAX as int } else { area.x + area.width };
    let bottom: int = if area.y + area.height > u16::MAX { u16::MAX as int } else { area.y + area.height };
    area.x <= at.x < right && area.y <= at.y < bottom
}

/// The line of a framed box's content under `at`, counted from the first
/// line inside its frame — or `None` when `at` is on the frame or outside.
pub fn content_line(area: Rect, at: Position) -> (r: Option<usize>)
    ensures
        r == (if spec_contains(spec_inner(area), at) { Some((at.y - spec_inner(area).y) as usize) } else { None::<usize> }),
{
    let inner = pane_inner(area);
    if inner.contains(at) {
        Some((at.y - inner.y) as usize)
    } else {
        None
    }
}

/// A box `width` by `height`, clamped to `area` and centred in it.
pub open spec fn spec_centered(area: Rect, width: u16, height: u16) -> Rect {
    let w = if width < area.width { width } else { area.width };
    let h = if height < area.height { height } else { area.height };
    Rect {
        x: (area.x + (area.width - w) / 2) as u16,
        y: (area.y + (area.height - h) / 2) as u16,
        width: w,
        height: h,
    }
}

/// A box `width` by `height`, clamped to `area` and centred in it.
pub fn centered_rect(area: Rect, width: u16, height: u16) -> (r: Rect)
    requires
        area.x + area.width <= u16::MAX,
        area.y + area.height <= u16::MAX,
    ensures
        r == spec_centered(area, width, height),
        area.x <= r.x && r.x + r.width <= area.x + area.width,
        area.y <= r.y && r.y + r.height <= area.y + area.height,
{
    let w = if width < area.width { width } else { area.width };
    let h = if height < area.height { height } else { area.height };
    Rect { x: area.x + (area.width - w) / 2, y: area.y + (area.height - h) / 2, width: w, height: h }
}

/// A box centred on the body around `lines` of text, `width` wide at most.
fn box_around(body: Rect, width: u16, lines: usize) -> (r: Rect)
    requires
        body.x + body.width <= u16::MAX,
        body.y + body.height <= u16::MAX,
    ensures
        r == spec_centered(body, width, (if lines + FRAME_ROWS > u16::MAX { u16::MAX as int } else { lines + FRAME_ROWS }) as u16),
{
    let rows: u16 = if lines > 65535 { 65535 } else { lines as u16 };
    let height: u16 = if rows > 65535 - FRAME_ROWS { 65535 } else { rows + FRAME_ROWS };
    centered_rect(body, width, height)
}

/// Whether a box `box_around` sized for `lines` was tall enough to hold them
/// all — so its last line, the footer, is on screen to be clicked.
pub fn footer_fits(area: Rect, lines: usize) -> (r: bool)
    ensures
        r == (area.height == lines + FRAME_ROWS),
{
    lines <= 65535 && area.height as usize == lines + FRAME_ROWS as usize
}

/// The publish modal's box, around `lines` of text.
pub fn publish_area(body: Rect, lines: usize) -> (r: Rect)
    requires
        body.x + body.width <= u16::MAX,
        body.y + body.height <= u16::MAX,
    ensures
        r == spec_centered(body, (if body.width < 6 { 0 } else if body.width - 6 > 90 { 90 } else { body.width - 6 }) as u16,
            (if lines + FRAME_ROWS > u16::MAX { u16::MAX as int } else { lines + FRAME_ROWS }) as u16),
{
    let room: u16 = if body.width < 6 { 0 } else { body.width - 6 };
    box_around(body, if room > 90 { 90 } else { room }, lines)
}

/// The delete-comment modal's box, around `lines` of text.
pub fn delete_comment_area(body: Rect, lines: usize) -> (r: Rect)
    requires
        body.x + body.width <= u16::MAX,
        body.y + body.height <= u16::MAX,
    ensures
        r == spec_centered(body, (if body.width < 6 { 0 } else if body.width - 6 > 80 { 80 } else { body.width - 6 }) as u16,
            (if lines + FRAME_ROWS > u16::MAX { u16::MAX as int } else { lines + FRAME_ROWS }) as u16),
{
    let room: u16 = if body.width < 6 { 0 } else { body.width - 6 };
    box_around(body, if room > 80 { 80 } else { room }, lines)
}

/// Where a line `width` columns wide starts when centred in `row`.
pub fn centered_x(row: Rect, width: usize) -> (r: u16)
    requires
        row.x + row.width <= u16::MAX,
    ensures
        r == row.x + (if width > row.width { 0 } else { (row.width - width) / 2 }),
{
    let slack: u16 = if width > row.width as usize { 0 } else { row.width - width as u16 };
    row.x + slack / 2
}

/// The findings modal's box: the entries, their section rules, a title row and
/// the key footer, centred on the body, wide enough for the whole footer.
pub fn findings_modal_area(body: Rect, entries: usize, rules: usize) -> (r: Rect)
    requires
        body.x + body.width <= u16::MAX,
        body.y + body.height <= u16::MAX,
    ensures
        r == spec_centered(body, 86, (if entries + rules + 4 < body.height { entries + rules + 4 } else { body.height as int }) as u16),
{
    let fits = entries < body.height as usize && rules < body.height as usize - entries
        && 4 < body.height as usize - entries - rules;
    let height: u16 = if fits { (entries + rules + 4) as u16 } else { body.height };
    centered_rect(body, 86, height)
}

/// The widest path among `entries`, in columns.
pub open spec fn widest_path(entries: Seq<FileListEntry>) -> nat
    decreases entries.len(),
{
    if entries.len() == 0 {
        0
    } else {
        let rest = widest_path(entries.drop_last());
        let here = str_width(entries.last().path@) as nat;
        if here > rest { here } else { rest }
    }
}

/// The file-list modal's box: as tall as its entries and as wide as its
/// widest path behind the count columns, seventy columns at least, centred
/// on the body.
pub fn file_list_modal_area(body: Rect, entries: &[FileListEntry]) -> (r: Rect)
    requires
        body.x + body.width <= u16::MAX,
        body.y + body.height <= u16::MAX,
    ensures
        ({
            let lead = 2 + (1 + column_width(adds_of(entries@))) + (1 + column_width(dels_of(entries@)) + 1);
            let wide = lead + widest_path(entries@) + 2;
            let w = if wide < 70 { 70 } else { wide };
            r == spec_centered(
                body,
                (if w < body.width { w as int } else { body.width as int }) as u16,
                (if entries@.len() + 2 < body.height { entries@.len() + 2 } else { body.height as nat }) as u16,
            )
        }),
{
    let height: u16 = if entries.len() < body.height as usize && 2 < body.height as usize - entries.len() {
        (entries.len() + 2) as u16
    } else {
        body.height
    };
    let (_, _, lead) = counts_columns(entries);
    let mut widest: usize = 0;
    let mut i: usize = 0;
    while i < entries.len()
        invariant
            i <= entries@.len(),
            widest == widest_path(entries@.take(i as int)),
        decreases entries@.len() - i,
    {
        assert(entries@.take(i + 1).drop_last() =~= entries@.take(i as int));
        let here = width_of_str(entries[i].path.as_str());
        if here > widest {
            widest = here;
        }
        i = i + 1;
    }
    assert(entries@.take(entries@.len() as int) =~= entries@);
    // The box fits its content, as its height already does: 70 columns is a
    // floor, not the size. `lead` is at most 45, so only the path can make the
    // sum reach past the body.
    let w: usize = if widest > usize::MAX - lead - 2 { usize::MAX } else { lead + widest + 2 };
    let w = if w < 70 { 70 } else { w };
    let width: u16 = if w < body.width as usize { w as u16 } else { body.width };
    centered_rect(body, width, height)
}

// ------------------------------------------------------------ the composer

/// How many lines `textwrap::wrap(line, width)` cuts `line` into.
pub uninterp spec fn wrap_line_count(line: Seq<char>, width: usize) -> usize;

/// Calls `textwrap::wrap(line, width)` and counts the lines it returns.
///
/// Trusted: the count is the name [`wrap_line_count`] of the line and the
/// width.
#[verifier::external_body]
fn wrapped_line_count(line: &str, width: usize) -> (n: usize)
    requires
        width >= 1,
    ensures
        n == wrap_line_count(line@, width),
{
    textwrap::wrap(line, width).len()
}

/// The rows `lines` take wrapped to `inner` columns (one at least): each line
/// as many rows as it wraps to, and one when it wraps to none.
pub open spec fn wrapped_rows(lines: Seq<Seq<char>>, inner: usize) -> nat
    decreases lines.len(),
{
    if lines.len() == 0 {
        0
    } else {
        let width = if inner < 1 { 1usize } else { inner };
        let n = wrap_line_count(lines.last(), width);
        wrapped_rows(lines.drop_last(), inner) + if n < 1 { 1nat } else { n as nat }
    }
}

/// The composer box's height for `rows` rows of text: the text, the frame,
/// the footer and a spare row, ten at least and no taller than the body
/// (or ten, on a body shorter than that).
pub open spec fn composer_height(rows: nat, body_height: u16) -> u16 {
    let text: int = if rows > u16::MAX { u16::MAX as int } else { rows as int };
    let wanted: int = if text + FRAME_ROWS + 2 > u16::MAX { u16::MAX as int } else { text + FRAME_ROWS + 2 };
    let top: int = if body_height < 10 { 10 } else { body_height as int };
    (if wanted < 10 { 10 } else if wanted > top { top } else { wanted }) as u16
}

/// The composer's box: three fifths of the body wide, and as tall as its
/// text wrapped to that width, centred on the body. `lines` are the text's
/// lines as typed.
pub fn composer_area(body: Rect, lines: &[String]) -> (r: Rect)
    requires
        body.x + body.width <= u16::MAX,
        body.y + body.height <= u16::MAX,
        body.width * 3 <= u16::MAX,
    ensures
        ({
            let width = (body.width * 3 / 5) as u16;
            let inner = (if width < FRAME_ROWS { 0 } else { width - FRAME_ROWS }) as usize;
            r == spec_centered(body, width, composer_height(wrapped_rows(lines@.map_values(|l: String| l@), inner), body.height))
        }),
{
    let width: u16 = body.width * 3 / 5;
    let inner: usize = if width < FRAME_ROWS { 0 } else { (width - FRAME_ROWS) as usize };
    let wrap_at: usize = if inner < 1 { 1 } else { inner };
    let ghost texts = lines@.map_values(|l: String| l@);
    let mut rows: usize = 0;
    let mut k: usize = 0;
    assert(texts.take(0) =~= Seq::<Seq<char>>::empty());
    while k < lines.len()
        invariant
            k <= lines@.len(),
            texts == lines@.map_values(|l: String| l@),
            wrap_at == (if inner < 1 { 1usize } else { inner }),
            wrap_at >= 1,
            rows <= 65536,
            rows == (if wrapped_rows(texts.take(k as int), inner) > 65536 { 65536 } else { wrapped_rows(texts.take(k as int), inner) }),
        decreases lines@.len() - k,
    {
        assert(texts.take(k + 1).drop_last() =~= texts.take(k as int));
        assert(texts.take(k + 1).last() == lines@[k as int]@);
        let n = wrapped_line_count(lines[k].as_str(), wrap_at);
        let add: usize = if n < 1 { 1 } else { n };
        rows = if add > 65536 - rows { 65536 } else { rows + add };
        k = k + 1;
    }
    assert(texts.take(texts.len() as int) =~= texts);
    let text: u16 = if rows > 65535 { 65535 } else { rows as u16 };
    let wanted: u16 = if text > 65535 - (FRAME_ROWS + 2) { 65535 } else { text + FRAME_ROWS + 2 };
    let top: u16 = if body.height < 10 { 10 } else { body.height };
    let height: u16 = if wanted < 10 { 10 } else if wanted > top { top } else { wanted };
    centered_rect(body, width, height)
}

} // verus!
