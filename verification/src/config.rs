//! `:config` — the modal's list, as it is laid out.
use vstd::prelude::*;

use crate::strings::same_text;

verus! {

/// How many rows of the settings list fit, given the body's height and the
/// `top` lines above the list, before any notes: the frame, one line per
/// section rule, and the footer with a blank above it. Never fewer than 3.
pub open spec fn spec_config_list_rows(body_rows: int, top: int) -> int {
    let left = body_rows - (2 + top + 3 + 2);
    if left < 3 { 3 } else { left }
}

/// How many rows of the settings list fit.
pub fn config_list_rows(body_rows: usize, top: usize) -> (n: usize)
    ensures
        n == spec_config_list_rows(body_rows as int, top as int),
{
    let frame = (2usize).saturating_add(top).saturating_add(3).saturating_add(2);
    let left = body_rows.saturating_sub(frame);
    if left < 3 { 3 } else { left }
}

/// One line of the settings list, as drawn.
#[derive(Debug, Clone, Copy, PartialEq, Eq)]
pub enum ConfigLine {
    /// The table the rows under it belong to: `[review]`.
    Section(&'static str),
    /// A setting, by its index in the list of settings.
    Row(usize),
}

/// Whether the setting at `i` opens its table on the list that starts at
/// `scroll`: the first one shown opens the table it is in (unless that table
/// has no name), and any other opens one when its table is not the one
/// above it.
pub open spec fn opens_table(sections: Seq<&'static str>, scroll: int, i: int) -> bool {
    if i == scroll {
        sections[i]@ != Seq::<char>::empty()
    } else {
        sections[i]@ != sections[i - 1]@
    }
}

/// The list's lines for the settings `scroll..end`: each setting's row, with
/// its table's header before it wherever it opens that table.
pub open spec fn spec_config_lines(sections: Seq<&'static str>, scroll: int, end: int) -> Seq<ConfigLine>
    decreases end - scroll,
{
    if end <= scroll {
        Seq::empty()
    } else {
        let i = end - 1;
        spec_config_lines(sections, scroll, i)
            + (if opens_table(sections, scroll, i) { seq![ConfigLine::Section(sections[i])] } else { Seq::empty() })
            + seq![ConfigLine::Row(i as usize)]
    }
}

/// Where the list shown from `scroll` ends, with room for `rows` settings:
/// `scroll + rows`, or the end of the settings if that comes first.
pub open spec fn shown_end(len: int, scroll: int, rows: int) -> int {
    if scroll >= len { scroll } else if rows > len - scroll { len } else { scroll + rows }
}

/// The list's lines from the scroll position on: a section header before
/// the first row of each table, and at most `rows` settings. `sections`
/// holds each setting's table, in the order the list draws them.
pub fn config_lines(sections: &[&'static str], scroll: usize, rows: usize) -> (out: Vec<ConfigLine>)
    ensures
        out@ == spec_config_lines(sections@, scroll as int, shown_end(sections@.len() as int, scroll as int, rows as int)),
{
    let len = sections.len();
    let end: usize = if scroll >= len { scroll } else if rows > len - scroll { len } else { scroll + rows };
    let mut out: Vec<ConfigLine> = Vec::new();
    let mut section: &'static str = "";
    let mut i: usize = scroll;
    proof {
        reveal_strlit("");
    }
    while i < end
        invariant
            scroll <= i <= end,
            end == shown_end(len as int, scroll as int, rows as int),
            end <= len || end == scroll,
            len == sections@.len(),
            section@ == (if i == scroll { Seq::<char>::empty() } else { sections@[i - 1]@ }),
            out@ == spec_config_lines(sections@, scroll as int, i as int),
        decreases end - i,
    {
        let here = sections[i];
        if !same_text(here, section) {
            section = here;
            out.push(ConfigLine::Section(here));
        }
        out.push(ConfigLine::Row(i));
        i = i + 1;
    }
    out
}

/// The setting on list line `line` (counted from the top of the box, whose
/// list starts `top` lines down), or `None` on a table's header, above the
/// list or past its end.
pub open spec fn spec_config_row_at(sections: Seq<&'static str>, scroll: int, line: int, top: int) -> Option<usize> {
    let lines = spec_config_lines(sections, scroll, shown_end(sections.len() as int, scroll, sections.len() - scroll));
    if line < top || line - top >= lines.len() {
        None
    } else {
        match lines[line - top] {
            ConfigLine::Row(i) => Some(i),
            ConfigLine::Section(_) => None,
        }
    }
}

/// The setting on list line `line`, counted from the list's first line,
/// `top` lines down: `None` on a header, above the list or past its end.
pub fn config_row_at(sections: &[&'static str], scroll: usize, line: usize, top: usize) -> (r: Option<usize>)
    ensures
        r == spec_config_row_at(sections@, scroll as int, line as int, top as int),
{
    if line < top {
        return None;
    }
    let at = line - top;
    let rest: usize = if scroll >= sections.len() { 0 } else { sections.len() - scroll };
    let lines = config_lines(sections, scroll, rest);
    assert(shown_end(sections@.len() as int, scroll as int, rest as int)
        == shown_end(sections@.len() as int, scroll as int, sections@.len() - scroll));
    if at >= lines.len() {
        return None;
    }
    match lines[at] {
        ConfigLine::Row(i) => Some(i),
        ConfigLine::Section(_) => None,
    }
}

} // verus!
