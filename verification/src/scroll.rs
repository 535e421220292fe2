//! Where the cursor and the views of the two panes go: the diff pane's rows
//! and the plan pane's blocks, each known here by the screen lines it takes
//! and, for a row, whether the cursor may stand on it.
use vstd::prelude::*;

use std::collections::HashSet;

verus! {

broadcast use vstd::std_specs::hash::group_hash_axioms;

/// Rows kept between the cursor and the top edge of the diff pane.
pub const SCROLL_MARGIN: usize = 3;

/// Floor for the scroll arithmetic, so a three-row window cannot produce
/// nonsense.
pub const MIN_VIEWPORT: usize = 8;

// ------------------------------------------------------------- selectable

/// The first row the cursor may stand on, walking from `i` by `dir`: `None`
/// once the walk leaves the rows.
pub open spec fn selectable_from(selectable: Seq<bool>, i: int, dir: int) -> Option<int>
    decreases (if i < 0 || i >= selectable.len() { 0 } else if dir > 0 { selectable.len() - i } else { i + 1 }),
{
    if i < 0 || i >= selectable.len() {
        None
    } else if selectable[i] {
        Some(i)
    } else if dir == 0 {
        None
    } else {
        selectable_from(selectable, i + dir, dir)
    }
}

/// A row the walk finds is one of the rows, and the cursor may stand on it.
proof fn lemma_selectable_found(selectable: Seq<bool>, i: int, dir: int)
    ensures
        selectable_from(selectable, i, dir) matches Some(j) ==> 0 <= j < selectable.len() && selectable[j],
    decreases (if i < 0 || i >= selectable.len() { 0 } else if dir > 0 { selectable.len() - i } else { i + 1 }),
{
    if 0 <= i < selectable.len() && !selectable[i] && dir != 0 {
        lemma_selectable_found(selectable, i + dir, dir);
    }
}

/// The first row at or after `from`, walking `dir` rows at a time, that the
/// cursor may stand on; `None` once the walk leaves the rows. A walk that
/// stands still on a row the cursor may not stand on would never end, so it
/// is not asked for.
pub fn next_selectable(selectable: &[bool], from: usize, dir: isize) -> (r: Option<usize>)
    requires
        selectable@.len() <= isize::MAX,
        selectable@.len() - 1 + dir <= isize::MAX,
        dir == 0 && from < selectable@.len() ==> selectable@[from as int],
    ensures
        r == (match selectable_from(selectable@, from as int, dir as int) {
            Some(i) => Some(i as usize),
            None => None::<usize>,
        }),
{
    let len = selectable.len();
    let mut i: i128 = from as i128;
    loop
        invariant
            len == selectable@.len(),
            len <= isize::MAX,
            i >= 0,
            dir == 0 ==> i == from,
            dir == 0 && from < len ==> selectable@[from as int],
            selectable_from(selectable@, i as int, dir as int) == selectable_from(selectable@, from as int, dir as int),
        decreases (if i >= len { 0 } else if dir > 0 { len - i } else { i + 1 }),
    {
        if i >= len as i128 {
            return None;
        }
        let k = i as usize;
        if selectable[k] {
            return Some(k);
        }
        let next = i + dir as i128;
        if next < 0 {
            return None;
        }
        i = next;
    }
}

// --------------------------------------------------------------- lines

/// The lines row `i` takes; a row past the end is one line.
pub open spec fn height_at(heights: Seq<usize>, i: int) -> int {
    if 0 <= i < heights.len() { heights[i] as int } else { 1 }
}

/// The lines rows `from..to` take together.
pub open spec fn lines_of(heights: Seq<usize>, from: int, to: int) -> int
    decreases to - from,
{
    if to <= from {
        0
    } else {
        lines_of(heights, from, to - 1) + height_at(heights, to - 1)
    }
}

proof fn lemma_lines_split(heights: Seq<usize>, a: int, b: int, c: int)
    requires
        a <= b <= c,
    ensures
        lines_of(heights, a, c) == lines_of(heights, a, b) + lines_of(heights, b, c),
    decreases c - b,
{
    if b < c {
        lemma_lines_split(heights, a, b, c - 1);
    }
}

proof fn lemma_lines_nonneg(heights: Seq<usize>, a: int, b: int)
    ensures
        lines_of(heights, a, b) >= 0,
    decreases b - a,
{
    if a < b {
        lemma_lines_nonneg(heights, a, b - 1);
    }
}

/// Fewer rows from the same end take no more lines.
proof fn lemma_lines_grow(heights: Seq<usize>, a: int, b: int, c: int, d: int)
    requires
        a <= b <= c <= d,
    ensures
        lines_of(heights, b, c) <= lines_of(heights, a, d),
{
    lemma_lines_split(heights, a, b, d);
    lemma_lines_split(heights, b, c, d);
    lemma_lines_nonneg(heights, a, b);
    lemma_lines_nonneg(heights, c, d);
}

/// The row drawn on screen line `line` of a pane scrolled to `scroll`, a
/// wrapped row being several lines; `None` below the last row.
pub fn row_at_line(heights: &[usize], scroll: usize, line: usize) -> (r: Option<usize>)
    requires
        lines_of(heights@, 0, heights@.len() as int) <= usize::MAX,
    ensures
        match r {
            Some(i) => scroll <= i < heights@.len()
                && lines_of(heights@, scroll as int, i as int) <= line < lines_of(heights@, scroll as int, i + 1),
            None => scroll >= heights@.len() || line >= lines_of(heights@, scroll as int, heights@.len() as int),
        },
{
    let len = heights.len();
    if scroll >= len {
        return None;
    }
    let mut used: usize = 0;
    let mut i: usize = scroll;
    while i < len
        invariant
            scroll <= i <= len,
            len == heights@.len(),
            used == lines_of(heights@, scroll as int, i as int),
            line >= used,
            lines_of(heights@, 0, len as int) <= usize::MAX,
        decreases len - i,
    {
        proof {
            lemma_lines_grow(heights@, 0, scroll as int, i + 1, len as int);
        }
        used = used + heights[i];
        if line < used {
            return Some(i);
        }
        i = i + 1;
    }
    None
}

/// A click on the first line of a row that takes any lines names that row:
/// `row_at_line` is the count of lines above a row run the other way.
pub proof fn lemma_a_rows_first_line_names_it(heights: Seq<usize>, scroll: int, i: int, j: int)
    requires
        scroll <= i < heights.len(),
        scroll <= j < heights.len(),
        heights[i] > 0,
        lines_of(heights, scroll, j) <= lines_of(heights, scroll, i) < lines_of(heights, scroll, j + 1),
    ensures
        j == i,
{
    if j < i {
        lemma_lines_split(heights, scroll, j + 1, i);
        lemma_lines_nonneg(heights, j + 1, i);
    } else if j > i {
        lemma_lines_split(heights, scroll, i + 1, j);
        lemma_lines_nonneg(heights, i + 1, j);
    }
}

// ------------------------------------------------------------- the view

/// The top of the highest view that still holds rows `i..=last`, walking up
/// from `i` while the rows above fit in `h` lines with them.
pub open spec fn climb(heights: Seq<usize>, i: int, last: int, h: int) -> int
    decreases i,
{
    if i <= 0 {
        0
    } else if lines_of(heights, i - 1, last + 1) > h {
        i
    } else {
        climb(heights, i - 1, last, h)
    }
}

/// The highest row a view `h` lines tall can start on and still reach down to
/// row `last`: `last` itself when that row alone is taller than the view.
pub open spec fn top_reaching(heights: Seq<usize>, last: int, h: int) -> int {
    if lines_of(heights, last, last + 1) > h { last } else { climb(heights, last, last, h) }
}

/// The lines the diff pane is counted as, at the least.
pub open spec fn view_lines(rows: int) -> int {
    if rows < MIN_VIEWPORT { MIN_VIEWPORT as int } else { rows }
}

/// The last row the view must reach: `SCROLL_MARGIN` rows past the cursor,
/// or the last row there is.
pub open spec fn reach_of(len: int, cursor: int) -> int {
    let end = if len < 1 { 0 } else { len - 1 };
    if cursor + SCROLL_MARGIN < end { cursor + SCROLL_MARGIN } else { end }
}

/// The furthest the view can be scrolled down and still hold the cursor with
/// its margin below it — never past the cursor.
pub open spec fn spec_highest_scroll(heights: Seq<usize>, detail_rows: int, cursor: int) -> int {
    let top = top_reaching(heights, reach_of(heights.len() as int, cursor), view_lines(detail_rows));
    if top < cursor { top } else { cursor }
}

/// The furthest the diff pane can be scrolled down and still show the cursor
/// and `SCROLL_MARGIN` rows under it, counted in screen lines. A row taller
/// than the whole pane pins to the top of the view rather than scrolling the
/// row the reader is on out of sight.
pub fn highest_scroll(heights: &[usize], detail_rows: usize, cursor: usize) -> (r: usize)
    requires
        cursor <= usize::MAX - SCROLL_MARGIN,
        lines_of(heights@, 0, heights@.len() as int) <= usize::MAX,
    ensures
        r == spec_highest_scroll(heights@, detail_rows as int, cursor as int),
{
    let h = if detail_rows < MIN_VIEWPORT { MIN_VIEWPORT } else { detail_rows };
    let len = heights.len();
    let end = if len < 1 { 0 } else { len - 1 };
    let last = if cursor + SCROLL_MARGIN < end { cursor + SCROLL_MARGIN } else { end };
    let ghost hs = heights@;
    let mut top: usize = last;
    let mut used: usize = 0;
    let mut i: usize = last + 1;
    while i > 0
        invariant
            0 <= i <= last + 1,
            last <= end,
            end == (if len < 1 { 0 } else { len - 1 }),
            len == hs.len(),
            hs == heights@,
            used == lines_of(hs, i as int, last + 1),
            top == (if i == last + 1 { last } else { i }),
            i <= last ==> lines_of(hs, i as int, last + 1) <= h,
            i <= last ==> top_reaching(hs, last as int, h as int) == climb(hs, i as int, last as int, h as int),
            lines_of(hs, 0, len as int) <= usize::MAX,
        ensures
            i == 0 || lines_of(hs, i - 1, last + 1) > h,
        decreases i,
    {
        let k = i - 1;
        let here: usize = if k < len { heights[k] } else { 1 };
        proof {
            assert(lines_of(hs, k as int, i as int) == here) by {
                assert(lines_of(hs, k as int, k as int) == 0);
            }
            lemma_lines_split(hs, k as int, i as int, last + 1);
            if len > 0 {
                lemma_lines_grow(hs, 0, k as int, last + 1, len as int);
            } else {
                assert(lines_of(hs, k as int, last + 1) == 1) by {
                    assert(lines_of(hs, k as int, k as int) == 0);
                }
            }
        }
        let more = used + here;
        if more > h {
            break;
        }
        used = more;
        top = k;
        i = k;
    }
    if top < cursor { top } else { cursor }
}

/// Where the diff pane's view starts once the cursor has moved: up to keep
/// `SCROLL_MARGIN` rows above the cursor, down no further than keeps the
/// cursor and the margin under it in view — and at the very top while the
/// cursor is on the first row it can stand on, so the group's header above
/// it can be read.
pub open spec fn spec_follow_cursor(heights: Seq<usize>, selectable: Seq<bool>, detail_rows: int, cursor: int, scroll: int) -> int {
    let moved = if cursor < scroll + SCROLL_MARGIN {
        if cursor < SCROLL_MARGIN { 0 } else { cursor - SCROLL_MARGIN }
    } else {
        let highest = spec_highest_scroll(heights, detail_rows, cursor);
        if scroll < highest { highest } else { scroll }
    };
    match selectable_from(selectable, 0, 1) {
        Some(first) => if cursor <= first { 0 } else { moved },
        None => 0,
    }
}

/// Scroll the diff pane to follow the cursor.
pub fn follow_cursor(heights: &[usize], selectable: &[bool], detail_rows: usize, cursor: usize, scroll: usize) -> (r: usize)
    requires
        heights@.len() == selectable@.len(),
        selectable@.len() <= isize::MAX,
        cursor <= usize::MAX - SCROLL_MARGIN,
        scroll <= usize::MAX - SCROLL_MARGIN,
        lines_of(heights@, 0, heights@.len() as int) <= usize::MAX,
    ensures
        r == spec_follow_cursor(heights@, selectable@, detail_rows as int, cursor as int, scroll as int),
{
    let moved = if cursor < scroll + SCROLL_MARGIN {
        if cursor < SCROLL_MARGIN { 0 } else { cursor - SCROLL_MARGIN }
    } else {
        let highest = highest_scroll(heights, detail_rows, cursor);
        if scroll < highest { highest } else { scroll }
    };
    proof {
        lemma_selectable_found(selectable@, 0, 1);
    }
    match next_selectable(selectable, 0, 1) {
        Some(first) => if cursor <= first { 0 } else { moved },
        None => 0,
    }
}

/// The cursor stands below the first row it can stand on, past the rows of
/// the group's header.
pub open spec fn past_the_header(selectable: Seq<bool>, cursor: int) -> bool {
    match selectable_from(selectable, 0, 1) {
        Some(first) => cursor > first,
        None => false,
    }
}

/// Where the cursor lands moving `dir` from `cursor`: on the first row it may
/// stand on along the way, or where it was when there is none.
pub open spec fn moved_cursor(selectable: Seq<bool>, cursor: int, dir: int) -> int {
    let start = if cursor + dir < 0 { 0 } else { cursor + dir };
    match selectable_from(selectable, start, dir) {
        Some(i) => i,
        None => cursor,
    }
}

/// Move the cursor `dir` rows at a time to the next row it may stand on, and
/// scroll the diff pane after it: the new cursor and the new scroll.
pub fn move_cursor(heights: &[usize], selectable: &[bool], detail_rows: usize, cursor: usize, scroll: usize, dir: isize) -> (r: (usize, usize))
    requires
        heights@.len() == selectable@.len(),
        selectable@.len() <= isize::MAX,
        cursor <= isize::MAX,
        cursor + dir <= isize::MAX,
        selectable@.len() - 1 + dir <= isize::MAX,
        dir == 0 && cursor < selectable@.len() ==> selectable@[cursor as int],
        scroll <= usize::MAX - SCROLL_MARGIN,
        lines_of(heights@, 0, heights@.len() as int) <= usize::MAX,
    ensures
        r.0 == moved_cursor(selectable@, cursor as int, dir as int),
        r.0 != cursor ==> r.0 < selectable@.len() && selectable@[r.0 as int],
        r.1 == spec_follow_cursor(heights@, selectable@, detail_rows as int, r.0 as int, scroll as int),
{
    let sum: i128 = cursor as i128 + dir as i128;
    let start: usize = if sum < 0 { 0 } else { sum as usize };
    proof {
        lemma_selectable_found(selectable@, start as int, dir as int);
    }
    let next = match next_selectable(selectable, start, dir) {
        Some(i) => i,
        None => cursor,
    };
    (next, follow_cursor(heights, selectable, detail_rows, next, scroll))
}

/// Following the cursor never starts the view below the cursor; and when the
/// cursor stands at least `SCROLL_MARGIN` rows below where the view started,
/// past the group's header, its row starts inside the view — or the view
/// starts on it, when the rows under it are too tall.
pub proof fn lemma_follow_cursor_keeps_the_cursor_in_view(
    heights: Seq<usize>,
    selectable: Seq<bool>,
    detail_rows: int,
    cursor: int,
    scroll: int,
)
    requires
        heights.len() == selectable.len(),
        0 <= cursor < heights.len(),
        0 <= scroll,
    ensures
        spec_follow_cursor(heights, selectable, detail_rows, cursor, scroll) <= cursor,
        ({
            let r = spec_follow_cursor(heights, selectable, detail_rows, cursor, scroll);
            (cursor >= scroll + SCROLL_MARGIN && past_the_header(selectable, cursor))
                ==> (r == cursor || lines_of(heights, r, cursor + 1) <= view_lines(detail_rows))
        }),
{
    let h = view_lines(detail_rows);
    let last = reach_of(heights.len() as int, cursor);
    assert(cursor <= last);
    lemma_top_reaching(heights, last, h);
    let top = top_reaching(heights, last, h);
    if cursor >= scroll + SCROLL_MARGIN && top < cursor {
        let r = if scroll < top { top } else { scroll };
        if r < cursor {
            lemma_lines_grow(heights, top, r, cursor + 1, last + 1);
        }
    }
}

/// The walk up from `i` stops on a row no lower than `i` whose view still
/// reaches `last`.
proof fn lemma_climb(heights: Seq<usize>, i: int, last: int, h: int)
    requires
        0 <= i <= last,
        lines_of(heights, i, last + 1) <= h,
    ensures
        0 <= climb(heights, i, last, h) <= i,
        lines_of(heights, climb(heights, i, last, h), last + 1) <= h,
    decreases i,
{
    if i > 0 && lines_of(heights, i - 1, last + 1) <= h {
        lemma_climb(heights, i - 1, last, h);
    }
}

/// The top a view reaching `last` starts on is at or above `last`, and the
/// rows from it to `last` fit unless it is `last` itself.
proof fn lemma_top_reaching(heights: Seq<usize>, last: int, h: int)
    requires
        0 <= last,
    ensures
        0 <= top_reaching(heights, last, h) <= last,
        top_reaching(heights, last, h) == last || lines_of(heights, top_reaching(heights, last, h), last + 1) <= h,
{
    if lines_of(heights, last, last + 1) <= h {
        lemma_climb(heights, last, last, h);
    }
}

// -------------------------------------------------------------- half a page

/// Where a walk from row `i` by `dir`, having spent `used` of `budget`
/// lines, stops: on the row that spends the budget, or on the last row
/// before the walk would leave the rows.
pub open spec fn half_walk(heights: Seq<usize>, i: int, dir: int, used: int, budget: int) -> int
    decreases (if dir > 0 { heights.len() - i } else { i }),
{
    if used >= budget || dir == 0 {
        i
    } else {
        let next = i + dir;
        if next < 0 || next >= heights.len() {
            i
        } else {
            half_walk(heights, next, dir, used + heights[next] as int, budget)
        }
    }
}

/// The row half a pane away from `from`, walking `dir` — half a pane of
/// screen lines, so a press does not jump a screenful of wrapped prose.
pub fn half_page(heights: &[usize], detail_rows: usize, from: usize, dir: isize) -> (r: usize)
    requires
        heights@.len() <= isize::MAX,
        from <= isize::MAX,
        from + dir <= isize::MAX,
        heights@.len() - 1 + dir <= isize::MAX,
        dir == 0 && from < heights@.len() ==> heights@[from as int] > 0,
    ensures
        r == half_walk(heights@, from as int, dir as int, 0, view_lines(detail_rows as int) / 2),
{
    let h = if detail_rows < MIN_VIEWPORT { MIN_VIEWPORT } else { detail_rows };
    let budget = h / 2;
    if dir == 0 {
        return from;
    }
    let len = heights.len();
    let ghost hs = heights@;
    let ghost mut spent: int = 0;
    let mut used: usize = 0;
    let mut i: usize = from;
    while used < budget
        invariant
            len == hs.len(),
            hs == heights@,
            dir != 0,
            budget < usize::MAX,
            spent >= 0,
            used == (if spent > usize::MAX { usize::MAX as int } else { spent }),
            half_walk(hs, i as int, dir as int, spent, budget as int) == half_walk(hs, from as int, dir as int, 0, budget as int),
        ensures
            half_walk(hs, i as int, dir as int, spent, budget as int) == i,
        decreases (if dir > 0 { if i >= len { 0 } else { len - i } } else { i + 1 }),
    {
        let next: i128 = i as i128 + dir as i128;
        if next < 0 || next >= len as i128 {
            break;
        }
        i = next as usize;
        proof {
            spent = spent + hs[i as int] as int;
        }
        used = used.saturating_add(heights[i]);
    }
    i
}

// ------------------------------------------------------------- the plan pane

/// The lines block `i` of the plan takes; nothing past the last block.
pub open spec fn block_at(blocks: Seq<usize>, i: int) -> int {
    if 0 <= i < blocks.len() { blocks[i] as int } else { 0 }
}

/// The plan's line the block `selected` starts on.
pub open spec fn block_start(blocks: Seq<usize>, selected: int) -> int {
    lines_of(blocks, 0, if selected < blocks.len() { selected } else { blocks.len() as int })
}

/// Where the plan pane's view starts with the selected block in it: moved up
/// to the block's first line when it starts above the view, down to its last
/// when it ends below, and left alone otherwise.
pub open spec fn spec_follow_plan_scroll(blocks: Seq<usize>, selected: int, group_scroll: int, plan_rows: int) -> int {
    let h = view_lines(plan_rows);
    let start = block_start(blocks, selected);
    let end = start + block_at(blocks, selected);
    if start < group_scroll {
        start
    } else if end > group_scroll + h {
        end - h
    } else {
        group_scroll
    }
}

/// Keep the whole selected plan block in view.
pub fn follow_plan_scroll(blocks: &[usize], selected: usize, group_scroll: usize, plan_rows: usize) -> (r: usize)
    requires
        lines_of(blocks@, 0, blocks@.len() as int) <= usize::MAX,
        block_start(blocks@, selected as int) >= group_scroll ==> group_scroll + view_lines(plan_rows as int) <= usize::MAX,
    ensures
        r == spec_follow_plan_scroll(blocks@, selected as int, group_scroll as int, plan_rows as int),
{
    let h = if plan_rows < MIN_VIEWPORT { MIN_VIEWPORT } else { plan_rows };
    let len = blocks.len();
    let upto = if selected < len { selected } else { len };
    let mut start: usize = 0;
    let mut i: usize = 0;
    while i < upto
        invariant
            i <= upto <= len,
            len == blocks@.len(),
            start == lines_of(blocks@, 0, i as int),
            lines_of(blocks@, 0, len as int) <= usize::MAX,
        decreases upto - i,
    {
        proof {
            lemma_lines_grow(blocks@, 0, 0, i + 1, len as int);
        }
        start = start + blocks[i];
        i = i + 1;
    }
    let own: usize = if selected < len { blocks[selected] } else { 0 };
    proof {
        if selected < len {
            lemma_lines_grow(blocks@, 0, 0, selected + 1, len as int);
        }
    }
    let end = start + own;
    if start < group_scroll {
        start
    } else if end > group_scroll + h {
        end - h
    } else {
        group_scroll
    }
}

/// With the selected block no taller than the pane, following it leaves all
/// of it in view.
pub proof fn lemma_follow_plan_scroll_shows_the_block(blocks: Seq<usize>, selected: int, group_scroll: int, plan_rows: int)
    requires
        0 <= group_scroll,
        block_at(blocks, selected) <= view_lines(plan_rows),
    ensures
        ({
            let r = spec_follow_plan_scroll(blocks, selected, group_scroll, plan_rows);
            let start = block_start(blocks, selected);
            r <= start && start + block_at(blocks, selected) <= r + view_lines(plan_rows)
        }),
{
}

/// The plan entry whose block holds line `line` of the whole list.
pub fn plan_entry_at_line(blocks: &[usize], line: usize) -> (r: Option<usize>)
    requires
        lines_of(blocks@, 0, blocks@.len() as int) <= usize::MAX,
    ensures
        match r {
            Some(i) => i < blocks@.len() && lines_of(blocks@, 0, i as int) <= line < lines_of(blocks@, 0, i + 1),
            None => line >= lines_of(blocks@, 0, blocks@.len() as int),
        },
{
    row_at_line(blocks, 0, line)
}

// ------------------------------------------------------------ file headers

/// The next hunk header from the cursor walking `dir` rows at a time, past
/// the cursor's own row: `headers` says which rows head a hunk of the group
/// being read. `None` at either end of the rows.
pub fn jump_hunk(headers: &[bool], cursor: usize, dir: isize) -> (r: Option<usize>)
    requires
        headers@.len() <= isize::MAX,
        cursor <= isize::MAX,
        cursor + dir <= isize::MAX,
        headers@.len() - 1 + dir <= isize::MAX,
        dir == 0 && cursor < headers@.len() ==> headers@[cursor as int],
    ensures
        r == (if cursor + dir < 0 {
            None::<usize>
        } else {
            match selectable_from(headers@, cursor + dir, dir as int) {
                Some(i) => Some(i as usize),
                None => None::<usize>,
            }
        }),
{
    let sum: i128 = cursor as i128 + dir as i128;
    if sum < 0 {
        return None;
    }
    next_selectable(headers, sum as usize, dir)
}

/// The last file header at or above row `from` (or above the last row,
/// when `from` is past it): `headers` says which rows head a file.
pub fn file_header_above(headers: &[bool], from: usize) -> (r: Option<usize>)
    ensures
        match r {
            Some(k) => k <= from && k < headers@.len() && headers@[k as int]
                && forall|j: int| k < j <= from && j < headers@.len() ==> !#[trigger] headers@[j],
            None => forall|j: int| 0 <= j <= from && j < headers@.len() ==> !#[trigger] headers@[j],
        },
{
    let len = headers.len();
    if len == 0 {
        return None;
    }
    let last = if from < len - 1 { from } else { len - 1 };
    let mut k: usize = last + 1;
    while k > 0
        invariant
            k <= last + 1,
            last < len,
            last <= from,
            len == headers@.len(),
            forall|j: int| k <= j <= from && j < len ==> !#[trigger] headers@[j],
        decreases k,
    {
        if headers[k - 1] {
            return Some(k - 1);
        }
        k = k - 1;
    }
    None
}

/// The files a run of rows presents, each once, in the order they first
/// appear: `files` holds, for each row that heads a file, that file's index.
pub open spec fn first_appearances(files: Seq<Option<usize>>) -> Seq<usize>
    decreases files.len(),
{
    if files.len() == 0 {
        Seq::empty()
    } else {
        let before = first_appearances(files.drop_last());
        match files.last() {
            Some(i) => if before.contains(i) { before } else { before.push(i) },
            None => before,
        }
    }
}

/// The files the flat list under the plan shows: every file the current rows
/// touch, in the order the rows present them, each once.
pub fn file_list(files: &[Option<usize>]) -> (out: Vec<usize>)
    ensures
        out@ == first_appearances(files@),
{
    let mut seen: HashSet<usize> = HashSet::new();
    let mut out: Vec<usize> = Vec::new();
    let mut k: usize = 0;
    while k < files.len()
        invariant
            k <= files@.len(),
            out@ == first_appearances(files@.take(k as int)),
            forall|i: usize| #[trigger] seen@.contains(i) <==> out@.contains(i),
        decreases files@.len() - k,
    {
        assert(files@.take(k + 1).drop_last() =~= files@.take(k as int));
        if let Some(i) = files[k] {
            if seen.insert(i) {
                let ghost old_out = out@;
                out.push(i);
                assert forall|j: usize| #[trigger] seen@.contains(j) <==> out@.contains(j) by {
                    if old_out.contains(j) {
                        let p = choose|p: int| 0 <= p < old_out.len() && old_out[p] == j;
                        assert(out@[p] == j);
                    }
                    if out@.contains(j) && j != i {
                        let p = choose|p: int| 0 <= p < out@.len() && out@[p] == j;
                        assert(p < old_out.len());
                        assert(old_out[p] == j);
                    }
                    if j == i {
                        assert(out@[old_out.len() as int] == i);
                    }
                }
            }
        }
        k = k + 1;
    }
    assert(files@.take(files@.len() as int) =~= files@);
    out
}

/// The flat list names no file twice, and names every file a row heads.
pub proof fn lemma_the_file_list_names_each_file_once(files: Seq<Option<usize>>)
    ensures
        first_appearances(files).no_duplicates(),
        forall|k: int| 0 <= k < files.len() && (#[trigger] files[k]) is Some ==> first_appearances(files).contains(files[k]->0),
    decreases files.len(),
{
    if files.len() > 0 {
        let rest = files.drop_last();
        lemma_the_file_list_names_each_file_once(rest);
        let before = first_appearances(rest);
        assert forall|k: int| 0 <= k < files.len() && (#[trigger] files[k]) is Some implies first_appearances(files).contains(files[k]->0) by {
            if k < files.len() - 1 {
                assert(rest[k] == files[k]);
                let p = choose|p: int| 0 <= p < before.len() && before[p] == files[k]->0;
                if let Some(i) = files.last() {
                    if !before.contains(i) {
                        assert(before.push(i)[p] == files[k]->0);
                    }
                }
            } else {
                if let Some(i) = files.last() {
                    if !before.contains(i) {
                        assert(before.push(i)[before.len() as int] == i);
                    }
                }
            }
        }
    }
}

} // verus!
