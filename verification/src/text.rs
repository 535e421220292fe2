//! Measuring and cutting text to a column budget, and the arithmetic the
//! app's modal lists scroll by.
//!
//! One function per question, called by both the key handler and the draw, so
//! the height a list scrolls against is the height it is drawn at.
use vstd::prelude::*;

use crate::lists::FileListEntry;
use crate::strings::{decimal, decimal_len, lemma_decimal_len_bound, push_char};
use crate::width::{columns, str_width, width_of_char, width_of_str};

verus! {

// ------------------------------------------------------------- list windows

/// `scroll` moved as little as it takes to keep `selected` inside a window
/// `height` rows tall (one row at least).
pub open spec fn spec_follow(selected: int, scroll: int, height: int) -> int {
    let h = if height < 1 { 1 } else { height };
    if selected < scroll {
        selected
    } else if selected >= scroll + h {
        selected + 1 - h
    } else {
        scroll
    }
}

/// Keep `selected` inside a window `height` tall, moving `scroll` as little as
/// it takes.
pub fn follow(selected: usize, scroll: usize, height: usize) -> (r: usize)
    ensures
        r == spec_follow(selected as int, scroll as int, height as int),
        r <= selected < r + (if height < 1 { 1 } else { height as int }),
{
    let height = if height < 1 { 1 } else { height };
    if selected < scroll {
        selected
    } else if selected - scroll >= height {
        selected - (height - 1)
    } else {
        scroll
    }
}

/// Where a one-step move from `selected` lands in a list `len` long.
pub open spec fn stepped(selected: int, len: int, down: bool) -> int {
    if down {
        let last = if len < 1 { 0 } else { len - 1 };
        if selected + 1 < last { selected + 1 } else { last }
    } else if selected < 1 {
        0
    } else {
        selected - 1
    }
}

/// Move a modal list's selection one step, and keep it in the window.
pub fn step_list(selected: &mut usize, scroll: &mut usize, len: usize, rows: usize, down: bool)
    requires
        down ==> *old(selected) < usize::MAX,
    ensures
        *final(selected) == stepped(*old(selected) as int, len as int, down),
        *final(scroll) == spec_follow(*final(selected) as int, *old(scroll) as int, rows as int),
{
    *selected = if down {
        let last = if len < 1 { 0 } else { len - 1 };
        if *selected + 1 < last { *selected + 1 } else { last }
    } else if *selected < 1 {
        0
    } else {
        *selected - 1
    };
    *scroll = follow(*selected, *scroll, rows);
}

/// How many rows the findings modal's list shows: the box is the list plus its
/// section rules, a border pair, a title row and the key footer, clamped to
/// the body; the list gets all but the border pair and the footer.
pub open spec fn spec_findings_rows(entries: int, rules: int, body_rows: int) -> int {
    let tall = if entries + rules + 4 < body_rows { entries + rules + 4 } else { body_rows };
    if tall < 3 { 0 } else { tall - 3 }
}

pub fn findings_rows(entries: usize, rules: usize, body_rows: usize) -> (n: usize)
    ensures
        n == spec_findings_rows(entries as int, rules as int, body_rows as int),
{
    let tall = if entries < body_rows && rules < body_rows - entries && 4 < body_rows - entries - rules {
        entries + rules + 4
    } else {
        body_rows
    };
    if tall < 3 { 0 } else { tall - 3 }
}

/// The same for the file list: a plain bordered box with no footer row.
pub open spec fn spec_file_list_rows(entries: int, body_rows: int) -> int {
    let tall = if entries + 2 < body_rows { entries + 2 } else { body_rows };
    if tall < 2 { 0 } else { tall - 2 }
}

pub fn file_list_rows(entries: usize, body_rows: usize) -> (n: usize)
    ensures
        n == spec_file_list_rows(entries as int, body_rows as int),
{
    let tall = if entries < body_rows && 2 < body_rows - entries { entries + 2 } else { body_rows };
    if tall < 2 { 0 } else { tall - 2 }
}

/// How many indices in `0..=i` are rules. A rule is drawn as a line of its
/// own just above the entry it precedes, however often it is listed.
pub open spec fn rules_through(rules: Seq<usize>, i: int) -> nat
    decreases i + 1,
{
    if i < 0 {
        0
    } else {
        rules_through(rules, i - 1) + if rules.contains(i as usize) { 1nat } else { 0nat }
    }
}

/// The line entry `i` of the findings list is drawn on, counting every rule
/// above it as a line.
pub open spec fn drawn_line(rules: Seq<usize>, i: int) -> int {
    i + rules_through(rules, i)
}

pub(crate) proof fn lemma_drawn_line_increases(rules: Seq<usize>, i: int, j: int)
    requires
        0 <= i < j,
    ensures
        drawn_line(rules, i) < drawn_line(rules, j),
    decreases j - i,
{
    if j > i + 1 {
        lemma_drawn_line_increases(rules, i, j - 1);
    }
}

/// Whether `rules` lists index `i`.
fn has_rule(rules: &[usize], i: usize) -> (r: bool)
    ensures
        r == rules@.contains(i),
{
    let mut k: usize = 0;
    while k < rules.len()
        invariant
            k <= rules@.len(),
            forall|j: int| 0 <= j < k ==> rules@[j] != i,
        decreases rules@.len() - k,
    {
        if rules[k] == i {
            return true;
        }
        k = k + 1;
    }
    false
}

/// The line entry `i` starts on is the line after entry `i - 1`, pushed down
/// one more by a rule at `i`.
proof fn lemma_drawn_line_step(rules: Seq<usize>, i: int)
    requires
        i >= 0,
    ensures
        drawn_line(rules, i) == (if i == 0 { 0 } else { drawn_line(rules, i - 1) + 1 })
            + if rules.contains(i as usize) { 1int } else { 0int },
{
    if i == 0 {
        assert(rules_through(rules, -1) == 0);
    }
}

/// The entry drawn on line `line` of the findings list, counting from the
/// list's first line with every section rule counted as a line of its own.
/// `None` on a rule, or past the end.
pub fn findings_entry_at_line(entries: usize, rules: &[usize], line: usize) -> (r: Option<usize>)
    ensures
        r matches Some(i) ==> i < entries && drawn_line(rules@, i as int) == line,
        r is None ==> forall|i: int| 0 <= i < entries ==> drawn_line(rules@, i) != line,
{
    let mut drawn: usize = 0;
    let mut i: usize = 0;
    while i < entries
        invariant
            i <= entries,
            drawn == (if i == 0 { 0 } else { drawn_line(rules@, i - 1) + 1 }),
            drawn <= line,
            forall|j: int| 0 <= j < i ==> drawn_line(rules@, j) < line,
        decreases entries - i,
    {
        proof {
            lemma_drawn_line_step(rules@, i as int);
        }
        if has_rule(rules, i) {
            if drawn == line {
                proof {
                    assert forall|j: int| 0 <= j < entries implies drawn_line(rules@, j) != line by {
                        if j > i {
                            lemma_drawn_line_increases(rules@, i as int, j);
                        }
                    }
                }
                return None;
            }
            drawn = drawn + 1;
        }
        if drawn == line {
            return Some(i);
        }
        drawn = drawn + 1;
        i = i + 1;
    }
    None
}

/// How many listed rules sit at or before `scroll` (a rule listed twice
/// counts twice).
pub open spec fn rules_at_or_before(rules: Seq<usize>, scroll: int) -> nat
    decreases rules.len(),
{
    if rules.len() == 0 {
        0
    } else {
        rules_at_or_before(rules.drop_last(), scroll) + if rules.last() <= scroll { 1nat } else { 0nat }
    }
}

/// How many listed rules sit in `from < r <= to`.
pub open spec fn rules_between(rules: Seq<usize>, from: int, to: int) -> nat
    decreases rules.len(),
{
    if rules.len() == 0 {
        0
    } else {
        rules_between(rules.drop_last(), from, to) + if from < rules.last() <= to { 1nat } else { 0nat }
    }
}

pub(crate) proof fn lemma_counts_bounded(rules: Seq<usize>, scroll: int, from: int, to: int)
    ensures
        rules_at_or_before(rules, scroll) <= rules.len(),
        rules_between(rules, from, to) <= rules.len(),
    decreases rules.len(),
{
    if rules.len() > 0 {
        lemma_counts_bounded(rules.drop_last(), scroll, from, to);
    }
}

/// Drawn rows the findings list skips to start at entry `scroll`: the entries
/// above it, and every section rule drawn above or at it.
pub fn findings_skip(scroll: usize, rules: &[usize]) -> (n: usize)
    requires
        scroll + rules_at_or_before(rules@, scroll as int) <= usize::MAX,
    ensures
        n == scroll + rules_at_or_before(rules@, scroll as int),
{
    let mut count: usize = 0;
    let mut k: usize = 0;
    while k < rules.len()
        invariant
            k <= rules@.len(),
            count == rules_at_or_before(rules@.take(k as int), scroll as int),
            count <= k,
        decreases rules@.len() - k,
    {
        assert(rules@.take(k + 1).drop_last() =~= rules@.take(k as int));
        if rules[k] <= scroll {
            count = count + 1;
        }
        k = k + 1;
    }
    assert(rules@.take(rules@.len() as int) =~= rules@);
    scroll + count
}

/// The rules are listed in order, each once.
pub open spec fn strictly_increasing(rules: Seq<usize>) -> bool {
    forall|a: int, b: int| 0 <= a < b < rules.len() ==> rules[a] < rules[b]
}

/// Taking the last listed rule out of the list takes one line out of every
/// count that reaches it.
proof fn lemma_rules_through_drop_last(rules: Seq<usize>, i: int)
    requires
        rules.len() > 0,
        !rules.drop_last().contains(rules.last()),
        i <= usize::MAX,
    ensures
        rules_through(rules, i) == rules_through(rules.drop_last(), i) + if 0 <= rules.last() <= i { 1nat } else { 0nat },
    decreases i + 1,
{
    if i >= 0 {
        lemma_rules_through_drop_last(rules, i - 1);
        if i != rules.last() {
            assert(rules.contains(i as usize) == rules.drop_last().contains(i as usize)) by {
                if rules.contains(i as usize) {
                    let k = choose|k: int| 0 <= k < rules.len() && rules[k] == i as usize;
                    assert(k < rules.len() - 1);
                    assert(rules.drop_last()[k] == i as usize);
                }
                if rules.drop_last().contains(i as usize) {
                    let k = choose|k: int| 0 <= k < rules.drop_last().len() && rules.drop_last()[k] == i as usize;
                    assert(rules[k] == i as usize);
                }
            }
        } else {
            assert(rules[rules.len() - 1] == i as usize);
        }
    }
}

/// With the rules listed in order, each once, counting listed rules at or
/// before an entry counts the rules drawn above it.
proof fn lemma_listed_count_is_drawn_count(rules: Seq<usize>, s: int)
    requires
        strictly_increasing(rules),
        s <= usize::MAX,
    ensures
        rules_at_or_before(rules, s) == rules_through(rules, s),
    decreases rules.len(),
{
    if rules.len() == 0 {
        lemma_no_rules_drawn(rules, s);
    } else {
        let rest = rules.drop_last();
        assert(strictly_increasing(rest));
        lemma_listed_count_is_drawn_count(rest, s);
        assert(!rest.contains(rules.last())) by {
            if rest.contains(rules.last()) {
                let k = choose|k: int| 0 <= k < rest.len() && rest[k] == rules.last();
                assert(rules[k] < rules[rules.len() - 1]);
            }
        }
        lemma_rules_through_drop_last(rules, s);
    }
}

proof fn lemma_no_rules_drawn(rules: Seq<usize>, s: int)
    requires
        rules.len() == 0,
    ensures
        rules_through(rules, s) == 0,
    decreases s + 1,
{
    if s >= 0 {
        lemma_no_rules_drawn(rules, s - 1);
    }
}

/// No more rules are drawn than are listed.
proof fn lemma_rules_through_bounded(rules: Seq<usize>, s: int)
    requires
        strictly_increasing(rules),
        s <= usize::MAX,
    ensures
        rules_through(rules, s) <= rules.len(),
{
    lemma_listed_count_is_drawn_count(rules, s);
    lemma_counts_bounded(rules, s, 0, 0);
}

/// With the rules listed in order, each once, and every one before the end:
/// scrolling the findings list to entry `s` skips exactly the lines drawn
/// above it, so the line `findings_skip` names is the line
/// `findings_entry_at_line` finds entry `s` on; the line just above an entry
/// that opens a section is that section's rule, and no entry is drawn on it;
/// and no entry is drawn at or past `entries` plus the rules.
pub proof fn lemma_the_skip_and_the_click_agree(entries: int, rules: Seq<usize>, s: int)
    requires
        strictly_increasing(rules),
        forall|k: int| 0 <= k < rules.len() ==> #[trigger] rules[k] < entries,
        0 <= s < entries <= usize::MAX + 1,
    ensures
        s + rules_at_or_before(rules, s) == drawn_line(rules, s),
        forall|i: int| 0 <= i < entries && drawn_line(rules, i) == drawn_line(rules, s) ==> i == s,
        rules.contains(s as usize) ==> forall|i: int| 0 <= i < entries ==> drawn_line(rules, i) != drawn_line(rules, s) - 1,
        forall|i: int| 0 <= i < entries ==> drawn_line(rules, i) < entries + rules.len(),
{
    lemma_listed_count_is_drawn_count(rules, s);
    assert forall|i: int| 0 <= i < entries && drawn_line(rules, i) == drawn_line(rules, s) implies i == s by {
        if i < s {
            lemma_drawn_line_increases(rules, i, s);
        } else if i > s {
            lemma_drawn_line_increases(rules, s, i);
        }
    }
    if rules.contains(s as usize) {
        assert forall|i: int| 0 <= i < entries implies drawn_line(rules, i) != drawn_line(rules, s) - 1 by {
            lemma_drawn_line_step(rules, s);
            if i < s {
                if i < s - 1 {
                    lemma_drawn_line_increases(rules, i, s - 1);
                }
            } else if i > s {
                lemma_drawn_line_increases(rules, s, i);
            }
        }
    }
    assert forall|i: int| 0 <= i < entries implies drawn_line(rules, i) < entries + rules.len() by {
        lemma_rules_through_bounded(rules, i);
    }
}

/// Lines from entry `from` down to the selection: the entries, and each rule
/// after `from` (the one at `from` is skipped with it).
pub open spec fn follow_lines(selected: int, from: int, rules: Seq<usize>) -> int {
    selected + 1 - from + rules_between(rules, from, selected)
}

/// How many listed rules sit in `from < r <= to`.
fn count_between(rules: &[usize], from: usize, to: usize) -> (n: usize)
    ensures
        n == rules_between(rules@, from as int, to as int),
        n <= rules@.len(),
{
    let mut count: usize = 0;
    let mut k: usize = 0;
    while k < rules.len()
        invariant
            k <= rules@.len(),
            count == rules_between(rules@.take(k as int), from as int, to as int),
            count <= k,
        decreases rules@.len() - k,
    {
        assert(rules@.take(k + 1).drop_last() =~= rules@.take(k as int));
        if from < rules[k] && rules[k] <= to {
            count = count + 1;
        }
        k = k + 1;
    }
    assert(rules@.take(rules@.len() as int) =~= rules@);
    count
}

/// The first start at or after `from` whose lines down to `selected` fit in
/// `rows` (at least one): the scroll a findings list follows its selection to.
pub open spec fn spec_findings_follow(selected: int, from: int, rows: int, rules: Seq<usize>) -> int
    decreases selected - from,
{
    let h = if rows < 1 { 1 } else { rows };
    if from >= selected || follow_lines(selected, from, rules) <= h {
        from
    } else {
        spec_findings_follow(selected, from + 1, rows, rules)
    }
}

/// From a start at or before the selection, the followed scroll shows the
/// selection with every rule drawn between: its lines fit in the box.
pub proof fn lemma_findings_follow_fits(selected: int, from: int, rows: int, rules: Seq<usize>)
    requires
        from <= selected,
    ensures
        from <= spec_findings_follow(selected, from, rows, rules) <= selected,
        follow_lines(selected, spec_findings_follow(selected, from, rows, rules), rules)
            <= (if rows < 1 { 1 } else { rows }),
    decreases selected - from,
{
    let h = if rows < 1 { 1 } else { rows };
    if from >= selected {
        lemma_between_empty(rules, selected);
    } else if follow_lines(selected, from, rules) > h {
        lemma_findings_follow_fits(selected, from + 1, rows, rules);
    }
}

/// The first entry to draw so that `selected` is on screen in a findings list
/// `rows` lines tall, counting the section rules drawn between the two: the
/// first start at or after `min(scroll, selected)` whose lines down to the
/// selection fit.
pub fn findings_follow(selected: usize, scroll: usize, rows: usize, rules: &[usize]) -> (r: usize)
    ensures
        (if scroll < selected { scroll as int } else { selected as int }) <= r <= selected,
        r == selected || follow_lines(selected as int, r as int, rules@) <= (if rows < 1 { 1 } else { rows as int }),
        forall|s: int| (if scroll < selected { scroll as int } else { selected as int }) <= s < r
            ==> follow_lines(selected as int, s, rules@) > (if rows < 1 { 1 } else { rows as int }),
        follow_lines(selected as int, r as int, rules@) <= (if rows < 1 { 1 } else { rows as int }),
        r == spec_findings_follow(selected as int, if scroll < selected { scroll as int } else { selected as int }, rows as int, rules@),
{
    let ghost given = rows;
    let rows = if rows < 1 { 1 } else { rows };
    let start = if scroll < selected { scroll } else { selected };
    let mut scroll = start;
    while scroll < selected && !window_fits(selected, scroll, rows, rules)
        invariant
            start <= scroll <= selected,
            rows >= 1,
            rows == (if given < 1 { 1 } else { given }),
            forall|s: int| start <= s < scroll ==> follow_lines(selected as int, s, rules@) > rows,
            spec_findings_follow(selected as int, start as int, given as int, rules@)
                == spec_findings_follow(selected as int, scroll as int, given as int, rules@),
        decreases selected - scroll,
    {
        scroll = scroll + 1;
    }
    proof {
        if scroll == selected {
            lemma_between_empty(rules@, selected as int);
        }
    }
    scroll
}

/// Whether the lines from entry `from` down to `selected` fit in `rows`.
fn window_fits(selected: usize, from: usize, rows: usize, rules: &[usize]) -> (r: bool)
    requires
        from <= selected,
    ensures
        r == (follow_lines(selected as int, from as int, rules@) <= rows),
{
    let between = count_between(rules, from, selected);
    // `selected + 1 - from` without the `+ 1`, which could overflow.
    let entries = selected - from;
    entries < rows && between <= rows - entries - 1
}

proof fn lemma_between_empty(rules: Seq<usize>, at: int)
    ensures
        rules_between(rules, at, at) == 0,
    decreases rules.len(),
{
    if rules.len() > 0 {
        lemma_between_empty(rules.drop_last(), at);
    }
}

/// `step_list` for the findings list, whose rules take lines of their own.
pub fn findings_step(selected: &mut usize, scroll: &mut usize, len: usize, rows: usize, rules: &[usize], down: bool)
    requires
        down ==> *old(selected) < usize::MAX,
    ensures
        *final(selected) == stepped(*old(selected) as int, len as int, down),
        (if *old(scroll) < *final(selected) { *old(scroll) as int } else { *final(selected) as int }) <= *final(scroll) <= *final(selected),
        follow_lines(*final(selected) as int, *final(scroll) as int, rules@) <= (if rows < 1 { 1 } else { rows as int }),
        forall|s: int| (if *old(scroll) < *final(selected) { *old(scroll) as int } else { *final(selected) as int }) <= s < *final(scroll)
            ==> follow_lines(*final(selected) as int, s, rules@) > (if rows < 1 { 1 } else { rows as int }),
        *final(scroll) == spec_findings_follow(
            *final(selected) as int,
            if *old(scroll) < *final(selected) { *old(scroll) as int } else { *final(selected) as int },
            rows as int,
            rules@,
        ),
{
    *selected = if down {
        let last = if len < 1 { 0 } else { len - 1 };
        if *selected + 1 < last { *selected + 1 } else { last }
    } else if *selected < 1 {
        0
    } else {
        *selected - 1
    };
    *scroll = findings_follow(*selected, *scroll, rows, rules);
}

/// The search box's height, before the body clamps it.
pub const SEARCH_BOX_ROWS: usize = 26;

/// The rows inside the search box that are neither its frame, its query row
/// nor its key footer.
pub open spec fn spec_search_inner(body_rows: int) -> int {
    let tall = if body_rows < SEARCH_BOX_ROWS { body_rows } else { SEARCH_BOX_ROWS as int };
    if tall < 4 { 0 } else { tall - 4 }
}

fn search_inner(body_rows: usize) -> (n: usize)
    ensures
        n == spec_search_inner(body_rows as int),
{
    let tall = if body_rows < SEARCH_BOX_ROWS { body_rows } else { SEARCH_BOX_ROWS };
    let framed = if tall < 2 { 0 } else { tall - 2 };
    if framed < 2 { 0 } else { framed - 2 }
}

/// Rows the occurrence list is drawn in: a third of what is left, never more
/// than eight and never less than one.
pub open spec fn spec_search_list_rows(body_rows: int) -> int {
    let third = spec_search_inner(body_rows) / 3;
    if third < 1 { 1 } else if third > 8 { 8 } else { third }
}

pub fn search_list_rows(body_rows: usize) -> (n: usize)
    ensures
        n == spec_search_list_rows(body_rows as int),
        1 <= n <= 8,
{
    let third = search_inner(body_rows) / 3;
    if third < 1 { 1 } else if third > 8 { 8 } else { third }
}

/// Rows the preview is drawn in: whatever the list did not take.
pub fn search_preview_rows(body_rows: usize) -> (n: usize)
    ensures
        n == (if spec_search_inner(body_rows as int) < spec_search_list_rows(body_rows as int) { 0 } else {
            spec_search_inner(body_rows as int) - spec_search_list_rows(body_rows as int)
        }),
{
    let inner = search_inner(body_rows);
    let list = search_list_rows(body_rows);
    if inner < list { 0 } else { inner - list }
}

// ------------------------------------------------------------- cutting text

/// The characters of `s`, in order.
pub fn chars_of(s: &str) -> (cs: Vec<char>)
    ensures
        cs@ == s@,
{
    let mut cs: Vec<char> = Vec::new();
    for c in it: s.chars()
        invariant
            cs@ == s@.take(it.index() as int),
            it.seq() == s@,
    {
        assert(s@.take(it.index() + 1) =~= cs@.push(c));
        cs.push(c);
    }
    assert(s@.take(s@.len() as int) =~= s@);
    cs
}

/// `chars[from..to]` as text, appended to `out`.
fn push_chars(out: &mut String, chars: &Vec<char>, from: usize, to: usize)
    requires
        from <= to <= chars@.len(),
    ensures
        final(out)@ == old(out)@ + chars@.subrange(from as int, to as int),
{
    let mut i: usize = from;
    while i < to
        invariant
            from <= i <= to <= chars@.len(),
            out@ == old(out)@ + chars@.subrange(from as int, i as int),
        decreases to - i,
    {
        assert(chars@.subrange(from as int, i + 1) =~= chars@.subrange(from as int, i as int).push(chars@[i as int]));
        push_char(out, chars[i]);
        i = i + 1;
    }
}

/// What follows the last `/` of `s`, or all of `s` when it has none.
pub open spec fn after_last_slash(s: Seq<char>) -> Seq<char>
    decreases s.len(),
{
    if s.len() == 0 {
        s
    } else if s.last() == '/' {
        Seq::<char>::empty()
    } else {
        after_last_slash(s.drop_last()).push(s.last())
    }
}

/// A path's last segment. A path with no separator IS its own basename.
pub fn basename(path: &str) -> (b: &str)
    ensures
        b@ == after_last_slash(path@),
{
    let chars = chars_of(path);
    let mut i: usize = chars.len();
    assert(chars@.subrange(0, i as int) =~= chars@);
    while i > 0
        invariant
            i <= chars@.len(),
            chars@ == path@,
            after_last_slash(path@) == after_last_slash(chars@.subrange(0, i as int)) + chars@.subrange(i as int, chars@.len() as int),
        decreases i,
    {
        assert(chars@.subrange(0, i as int).drop_last() =~= chars@.subrange(0, i - 1));
        if chars[i - 1] == '/' {
            assert(chars@.subrange(i as int, chars@.len() as int) =~= Seq::<char>::empty() + chars@.subrange(i as int, chars@.len() as int));
            return path.substring_char(i, chars.len());
        }
        assert(chars@.subrange(i - 1, chars@.len() as int) =~= seq![chars@[i - 1]] + chars@.subrange(i as int, chars@.len() as int));
        assert(after_last_slash(chars@.subrange(0, i as int)) =~= after_last_slash(chars@.subrange(0, i - 1)).push(chars@[i - 1]));
        i = i - 1;
    }
    assert(after_last_slash(chars@.subrange(0, 0)) =~= Seq::<char>::empty());
    assert(chars@.subrange(0, chars@.len() as int) =~= chars@);
    path.substring_char(0, chars.len())
}

/// The most digits any of `counts` is written with (zero for none).
pub open spec fn widest_digits(counts: Seq<usize>) -> nat
    decreases counts.len(),
{
    if counts.len() == 0 {
        0
    } else {
        let rest = widest_digits(counts.drop_last());
        let here = decimal(counts.last() as nat).len();
        if here > rest { here } else { rest }
    }
}

/// A count column's width: its widest number, four digits at least.
pub open spec fn column_width(counts: Seq<usize>) -> nat {
    if widest_digits(counts) > 4 { widest_digits(counts) } else { 4 }
}

/// The added-line counts of `entries`, in order.
pub open spec fn adds_of(entries: Seq<FileListEntry>) -> Seq<usize> {
    entries.map_values(|e: FileListEntry| e.adds)
}

/// The deleted-line counts of `entries`, in order.
pub open spec fn dels_of(entries: Seq<FileListEntry>) -> Seq<usize> {
    entries.map_values(|e: FileListEntry| e.dels)
}

/// The width of one count column over `entries`.
fn column(entries: &[FileListEntry], adds: bool) -> (w: usize)
    ensures
        w == column_width(if adds { adds_of(entries@) } else { dels_of(entries@) }),
        4 <= w <= 20,
{
    let ghost counts = if adds { adds_of(entries@) } else { dels_of(entries@) };
    let mut widest: usize = 0;
    let mut i: usize = 0;
    while i < entries.len()
        invariant
            i <= entries@.len(),
            counts == (if adds { adds_of(entries@) } else { dels_of(entries@) }),
            widest == widest_digits(counts.take(i as int)),
            widest <= 20,
        decreases entries@.len() - i,
    {
        let n = if adds { entries[i].adds } else { entries[i].dels };
        assert(counts.take(i + 1).drop_last() =~= counts.take(i as int));
        assert(counts[i as int] == n);
        let here = decimal_len(n as u64);
        if here > widest {
            widest = here;
        }
        i = i + 1;
    }
    assert(counts.take(entries@.len() as int) =~= counts);
    if widest > 4 { widest } else { 4 }
}

/// The two count columns, and the width every path therefore starts after.
///
/// Each column is as wide as the widest number IN IT, so the paths line up
/// down the list; four digits is the floor. The lead is the mark and its
/// space, `+adds`, then `−dels` and one space.
pub fn counts_columns(entries: &[FileListEntry]) -> (r: (usize, usize, usize))
    ensures
        r.0 == column_width(adds_of(entries@)),
        r.1 == column_width(dels_of(entries@)),
        r.2 == 2 + (1 + r.0) + (1 + r.1 + 1),
        4 <= r.0 <= 20,
        4 <= r.1 <= 20,
{
    let add_w = column(entries, true);
    let del_w = column(entries, false);
    (add_w, del_w, 2 + (1 + add_w) + (1 + del_w + 1))
}

/// The longest tail of `s` whose characters' widths fit in `budget`, taken
/// from the end until one does not.
pub open spec fn fitting_tail(s: Seq<char>, budget: nat) -> Seq<char>
    decreases s.len(),
{
    if s.len() == 0 {
        s
    } else if columns(s.last()) > budget {
        Seq::<char>::empty()
    } else {
        fitting_tail(s.drop_last(), (budget - columns(s.last())) as nat).push(s.last())
    }
}

/// The longest head of `s` whose characters' widths fit in `budget`, taken
/// from the start until one does not.
pub open spec fn fitting_head(s: Seq<char>, budget: nat) -> Seq<char>
    decreases s.len(),
{
    if s.len() == 0 {
        s
    } else if columns(s[0]) > budget {
        Seq::<char>::empty()
    } else {
        seq![s[0]] + fitting_head(s.drop_first(), (budget - columns(s[0])) as nat)
    }
}

/// The first `/` at or after `from` whose segment after it fits behind `…/`
/// in `max` columns.
pub open spec fn fitting_segment(s: Seq<char>, max: nat, from: int) -> Option<int>
    decreases s.len() - from,
{
    if from < 0 || from >= s.len() {
        None
    } else if s[from] == '/' && str_width(s.subrange(from + 1, s.len() as int)) + 2 <= max {
        Some(from)
    } else {
        fitting_segment(s, max, from + 1)
    }
}

/// `n` ellipses.
pub open spec fn ellipses(n: nat) -> Seq<char> {
    Seq::new(n, |i: int| '…')
}

/// A location cut down to `max` columns from its head: untouched when it
/// fits; else `…/` and the widest run of whole segments that fits; else `…`
/// and as much of the name's tail as fits.
pub open spec fn elided(s: Seq<char>, max: nat) -> Seq<char> {
    if str_width(s) <= max {
        s
    } else if max <= 1 {
        ellipses(max)
    } else {
        match fitting_segment(s, max, 0) {
            Some(i) => "…/"@ + s.subrange(i + 1, s.len() as int),
            None => seq!['…'] + fitting_tail(s, (max - 1) as nat),
        }
    }
}

/// A note cut down to `max` columns from its tail, with an ellipsis.
pub open spec fn truncated(s: Seq<char>, max: nat) -> Seq<char> {
    if str_width(s) <= max {
        s
    } else if max == 0 {
        Seq::<char>::empty()
    } else {
        fitting_head(s, (max - 1) as nat).push('…')
    }
}

proof fn lemma_fitting_tail_step(s: Seq<char>, budget: nat, k: int)
    requires
        0 <= k < s.len(),
        columns(s[k]) <= budget,
    ensures
        fitting_tail(s.subrange(0, k + 1), budget) == fitting_tail(s.subrange(0, k), (budget - columns(s[k])) as nat).push(s[k]),
{
    assert(s.subrange(0, k + 1).drop_last() =~= s.subrange(0, k));
}

/// Cut a location down to `max` columns from its HEAD, not its tail:
/// `a/b/c/deeply/nested/module.rs:13` becomes `…/module.rs:13`. The file name
/// and the line number are what identify a finding.
pub fn elide_head(s: &str, max: usize) -> (out: String)
    ensures
        out@ == elided(s@, max as nat),
{
    if width_of_str(s) <= max {
        return s.to_string();
    }
    if max <= 1 {
        let mut out = String::new();
        if max == 1 {
            push_char(&mut out, '…');
        }
        assert(out@ =~= ellipses(max as nat));
        return out;
    }
    let chars = chars_of(s);
    let mut i: usize = 0;
    while i < chars.len()
        invariant
            i <= chars@.len(),
            chars@ == s@,
            max >= 2,
            str_width(s@) > max,
            fitting_segment(s@, max as nat, 0) == fitting_segment(s@, max as nat, i as int),
        decreases chars@.len() - i,
    {
        if chars[i] == '/' {
            let segment = s.substring_char(i + 1, chars.len());
            if width_of_str(segment) <= max - 2 {
                let mut out = String::new();
                out.append("…/");
                out.append(segment);
                return out;
            }
        }
        i = i + 1;
    }
    // Not even the last segment fits, so cut the name itself. One column goes
    // to the ellipsis; the rest buys tail characters.
    let budget = max - 1;
    let mut used: usize = 0;
    let mut from: usize = chars.len();
    let ghost full = fitting_tail(s@, budget as nat);
    assert(s@.subrange(0, from as int) =~= s@);
    while from > 0
        invariant
            from <= chars@.len(),
            chars@ == s@,
            used <= budget,
            budget == max - 1,
            max >= 2,
            str_width(s@) > max,
            fitting_segment(s@, max as nat, 0) is None,
            full == fitting_tail(s@.subrange(0, from as int), (budget - used) as nat) + s@.subrange(from as int, s@.len() as int),
        ensures
            from <= chars@.len(),
            full =~= s@.subrange(from as int, s@.len() as int),
        decreases from,
    {
        let w = match width_of_char(chars[from - 1]) {
            Some(w) => w,
            None => 0,
        };
        if w > budget - used {
            assert(s@.subrange(0, from as int).drop_last() =~= s@.subrange(0, from - 1));
            assert(fitting_tail(s@.subrange(0, from as int), (budget - used) as nat) =~= Seq::<char>::empty());
            assert(full =~= s@.subrange(from as int, s@.len() as int));
            break;
        }
        proof {
            lemma_fitting_tail_step(s@, (budget - used) as nat, from - 1);
            if from == 1 {
                assert(s@.subrange(0, 0) =~= Seq::<char>::empty());
            }
        }
        assert(s@.subrange(from - 1, s@.len() as int) =~= seq![s@[from - 1]] + s@.subrange(from as int, s@.len() as int));
        used = used + w;
        from = from - 1;
    }
    let mut out = String::new();
    push_char(&mut out, '…');
    push_chars(&mut out, &chars, from, chars.len());
    out
}

proof fn lemma_fitting_head_step(s: Seq<char>, budget: nat, k: int)
    requires
        0 <= k < s.len(),
        columns(s[k]) <= budget,
    ensures
        fitting_head(s.subrange(k, s.len() as int), budget)
            == seq![s[k]] + fitting_head(s.subrange(k + 1, s.len() as int), (budget - columns(s[k])) as nat),
{
    assert(s.subrange(k, s.len() as int).drop_first() =~= s.subrange(k + 1, s.len() as int));
}

/// Cut a note down to `max` columns from its tail, with an ellipsis — by
/// display width, so one wide character cannot put the row over the border.
pub fn truncate_width(s: &str, max: usize) -> (out: String)
    ensures
        out@ == truncated(s@, max as nat),
{
    if width_of_str(s) <= max {
        return s.to_string();
    }
    if max == 0 {
        return String::new();
    }
    let chars = chars_of(s);
    let budget = max - 1;
    let mut used: usize = 0;
    let mut to: usize = 0;
    let ghost full = fitting_head(s@, budget as nat);
    assert(s@.subrange(0, s@.len() as int) =~= s@);
    assert(s@.subrange(0, 0) =~= Seq::<char>::empty());
    while to < chars.len()
        invariant
            to <= chars@.len(),
            chars@ == s@,
            used <= budget,
            full == s@.subrange(0, to as int) + fitting_head(s@.subrange(to as int, s@.len() as int), (budget - used) as nat),
        ensures
            to <= chars@.len(),
            full =~= s@.subrange(0, to as int),
        decreases chars@.len() - to,
    {
        let w = match width_of_char(chars[to]) {
            Some(w) => w,
            None => 0,
        };
        if w > budget - used {
            assert(fitting_head(s@.subrange(to as int, s@.len() as int), (budget - used) as nat) =~= Seq::<char>::empty()) by {
                assert(s@.subrange(to as int, s@.len() as int)[0] == s@[to as int]);
            }
            break;
        }
        proof {
            lemma_fitting_head_step(s@, (budget - used) as nat, to as int);
            assert(s@.subrange(0, to + 1) =~= s@.subrange(0, to as int) + seq![s@[to as int]]);
            if to + 1 == s@.len() {
                assert(s@.subrange(to + 1, s@.len() as int) =~= Seq::<char>::empty());
            }
        }
        used = used + w;
        to = to + 1;
    }
    let mut out = String::new();
    push_chars(&mut out, &chars, 0, to);
    push_char(&mut out, '…');
    out
}

/// The columns `s` takes, character by character.
pub open spec fn columns_sum(s: Seq<char>) -> nat
    decreases s.len(),
{
    if s.len() == 0 { 0 } else { columns_sum(s.drop_last()) + columns(s.last()) }
}

proof fn lemma_columns_sum_front(s: Seq<char>)
    requires
        s.len() > 0,
    ensures
        columns_sum(s) == columns(s[0]) + columns_sum(s.drop_first()),
    decreases s.len(),
{
    if s.len() > 1 {
        lemma_columns_sum_front(s.drop_last());
        assert(s.drop_last().drop_first() =~= s.drop_first().drop_last());
        assert(s.drop_first().last() == s.last());
        assert(s.drop_last()[0] == s[0]);
        assert(columns_sum(s.drop_first()) == columns_sum(s.drop_first().drop_last()) + columns(s.drop_first().last()));
        assert(columns_sum(s) == columns_sum(s.drop_last()) + columns(s.last()));
    } else {
        assert(s.last() == s[0]);
        assert(columns_sum(s.drop_first()) == 0);
        assert(columns_sum(s.drop_last()) == 0);
        assert(columns_sum(s) == columns_sum(s.drop_last()) + columns(s.last()));
    }
}

/// What the tail cut keeps is a tail of `s`, and its characters fit the
/// budget.
pub proof fn lemma_fitting_tail(s: Seq<char>, budget: nat)
    ensures
        fitting_tail(s, budget).len() <= s.len(),
        fitting_tail(s, budget) == s.subrange(s.len() - fitting_tail(s, budget).len(), s.len() as int),
        columns_sum(fitting_tail(s, budget)) <= budget,
    decreases s.len(),
{
    if s.len() > 0 && columns(s.last()) <= budget {
        let rest = (budget - columns(s.last())) as nat;
        lemma_fitting_tail(s.drop_last(), rest);
        let t = fitting_tail(s.drop_last(), rest);
        assert(t.push(s.last()).drop_last() =~= t);
        assert(s.subrange(s.len() - t.len() - 1, s.len() as int) =~= s.drop_last().subrange(s.len() - 1 - t.len(), s.len() - 1).push(s.last()));
    } else if s.len() > 0 {
        assert(s.subrange(s.len() as int, s.len() as int) =~= Seq::<char>::empty());
    }
}

/// What the head cut keeps is a head of `s`, and its characters fit the
/// budget.
pub proof fn lemma_fitting_head(s: Seq<char>, budget: nat)
    ensures
        fitting_head(s, budget).len() <= s.len(),
        fitting_head(s, budget) == s.subrange(0, fitting_head(s, budget).len() as int),
        columns_sum(fitting_head(s, budget)) <= budget,
    decreases s.len(),
{
    if s.len() > 0 && columns(s[0]) <= budget {
        let rest = (budget - columns(s[0])) as nat;
        lemma_fitting_head(s.drop_first(), rest);
        let h = fitting_head(s.drop_first(), rest);
        let whole = seq![s[0]] + h;
        assert(whole.drop_first() =~= h);
        lemma_columns_sum_front(whole);
        assert(s.subrange(0, h.len() as int + 1) =~= whole);
    } else if s.len() > 0 {
        assert(s.subrange(0, 0) =~= Seq::<char>::empty());
    }
}

/// A location is cut at its head and never elsewhere: what `elide_head` keeps
/// of it is a tail of it, behind nothing, `…`, or `…/`; and a tail kept behind
/// a bare `…` takes at most `max - 1` columns by its characters' widths.
pub proof fn lemma_elided_keeps_a_tail(s: Seq<char>, max: nat)
    ensures
        exists|k: int| #![trigger s.subrange(k, s.len() as int)] 0 <= k <= s.len() && {
            ||| elided(s, max) == s.subrange(k, s.len() as int)
            ||| elided(s, max) == seq!['…'] + s.subrange(k, s.len() as int)
            ||| elided(s, max) == "…/"@ + s.subrange(k, s.len() as int)
        },
        str_width(s) > max && max >= 2 && fitting_segment(s, max, 0) is None
            ==> columns_sum(elided(s, max).drop_first()) <= max - 1,
{
    reveal_strlit("…/");
    if str_width(s) <= max {
        assert(elided(s, max) == s.subrange(0, s.len() as int));
    } else if max <= 1 {
        let e = s.subrange(s.len() as int, s.len() as int);
        if max == 0 {
            assert(elided(s, max) =~= e);
        } else {
            assert(elided(s, max) =~= seq!['…'] + e);
        }
    } else {
        match fitting_segment(s, max, 0) {
            Some(i) => {
                lemma_fitting_segment_inside(s, max, 0);
                assert(elided(s, max) == "…/"@ + s.subrange(i + 1, s.len() as int));
            },
            None => {
                lemma_fitting_tail(s, (max - 1) as nat);
                let t = fitting_tail(s, (max - 1) as nat);
                assert((seq!['…'] + t).drop_first() =~= t);
                assert(elided(s, max) == seq!['…'] + s.subrange(s.len() - t.len(), s.len() as int));
            },
        }
    }
}

proof fn lemma_fitting_segment_inside(s: Seq<char>, max: nat, from: int)
    ensures
        fitting_segment(s, max, from) matches Some(i) ==> 0 <= from <= i < s.len() && s[i] == '/',
    decreases s.len() - from,
{
    if 0 <= from < s.len() && !(s[from] == '/' && str_width(s.subrange(from + 1, s.len() as int)) + 2 <= max) {
        lemma_fitting_segment_inside(s, max, from + 1);
    }
}

/// A note is cut at its tail and never elsewhere: what `truncate_width` keeps
/// of it is a head of it, followed by `…` only when it was cut, and the head
/// kept takes at most `max - 1` columns by its characters' widths.
pub proof fn lemma_truncated_keeps_a_head(s: Seq<char>, max: nat)
    ensures
        str_width(s) <= max ==> truncated(s, max) == s,
        str_width(s) > max && max > 0 ==> exists|k: int| #![trigger s.subrange(0, k)] 0 <= k <= s.len()
            && truncated(s, max) == s.subrange(0, k).push('…')
            && columns_sum(s.subrange(0, k)) <= max - 1,
{
    if str_width(s) > max && max > 0 {
        lemma_fitting_head(s, (max - 1) as nat);
        let h = fitting_head(s, (max - 1) as nat);
        assert(truncated(s, max) == s.subrange(0, h.len() as int).push('…'));
    }
}

/// How a piece of a footer hint is inked. Names, not colours: the footer is
/// described here and painted by the draw.
#[derive(Debug, Clone, Copy, PartialEq, Eq)]
pub enum Ink {
    Key,
    Text,
    Dim,
    Warn,
}

} // verus!
