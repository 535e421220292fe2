//! A modal's footer: the keys it names, what each does, and which a click on
//! it presses.
//!
//! One description serves the draw and the hit test, so the button a reader
//! sees is the button under their pointer. A press is whatever the terminal
//! layer calls a key press; nothing here looks inside one.
use vstd::prelude::*;

use crate::panes::{centered_x, footer_fits, footer_row, spec_contains, spec_footer_row, Position, Rect, FRAME_ROWS};
use crate::prompts::is_space;
use crate::strings::{decimal, push_char, push_decimal};
use crate::text::{chars_of, Ink};
use crate::width::{str_width, width_of_str};

verus! {

/// One item of a modal's footer — `enter save`, `y publishes` — and the
/// presses a click on it makes. No presses, and it only reads.
pub struct Hint<P> {
    pub pieces: Vec<(String, Ink)>,
    pub presses: Vec<P>,
}

/// A hint's pieces as texts and inks.
pub open spec fn piece_texts(pieces: Seq<(String, Ink)>) -> Seq<(Seq<char>, Ink)> {
    pieces.map_values(|p: (String, Ink)| (p.0@, p.1))
}

/// The columns a hint's pieces take together.
pub open spec fn pieces_width(pieces: Seq<(String, Ink)>) -> nat
    decreases pieces.len(),
{
    if pieces.len() == 0 {
        0
    } else {
        pieces_width(pieces.drop_last()) + str_width(pieces.last().0@) as nat
    }
}

/// The columns a run of hints takes.
pub open spec fn hints_total<P>(hints: Seq<Hint<P>>) -> nat
    decreases hints.len(),
{
    if hints.len() == 0 {
        0
    } else {
        hints_total(hints.drop_last()) + pieces_width(hints.last().pieces@)
    }
}

impl<P> Hint<P> {
    /// A key and what it does, as `enter ` + `save`.
    pub fn button(key: &str, what: &str, presses: Vec<P>) -> (h: Hint<P>)
        ensures
            piece_texts(h.pieces@) == seq![(key@, Ink::Key), (what@, Ink::Text)],
            h.presses@ == presses@,
    {
        let mut pieces: Vec<(String, Ink)> = Vec::new();
        pieces.push((key.to_string(), Ink::Key));
        pieces.push((what.to_string(), Ink::Text));
        assert(piece_texts(pieces@) =~= seq![(key@, Ink::Key), (what@, Ink::Text)]);
        Hint { pieces, presses }
    }

    /// Words that only read: a separator, a clause about the other keys.
    pub fn note(text: &str, ink: Ink) -> (h: Hint<P>)
        ensures
            piece_texts(h.pieces@) == seq![(text@, ink)],
            h.presses@.len() == 0,
    {
        let mut pieces: Vec<(String, Ink)> = Vec::new();
        pieces.push((text.to_string(), ink));
        assert(piece_texts(pieces@) =~= seq![(text@, ink)]);
        Hint { pieces, presses: Vec::new() }
    }

    /// The columns this hint takes (as many as a `usize` holds, at most).
    pub fn width(&self) -> (w: usize)
        ensures
            w == capped(pieces_width(self.pieces@)),
    {
        let mut w: usize = 0;
        let mut i: usize = 0;
        assert(self.pieces@.take(0) =~= Seq::<(String, Ink)>::empty());
        while i < self.pieces.len()
            invariant
                i <= self.pieces@.len(),
                w == capped(pieces_width(self.pieces@.take(i as int))),
            decreases self.pieces@.len() - i,
        {
            assert(self.pieces@.take(i + 1).drop_last() =~= self.pieces@.take(i as int));
            w = w.saturating_add(width_of_str(self.pieces[i].0.as_str()));
            i = i + 1;
        }
        assert(self.pieces@.take(self.pieces@.len() as int) =~= self.pieces@);
        w
    }
}

/// `n`, or the most a `usize` holds when `n` is more.
pub open spec fn capped(n: nat) -> usize {
    if n <= usize::MAX { n as usize } else { usize::MAX }
}

/// The separator the footer puts between two keys.
pub open spec fn is_separator<P>(h: Hint<P>) -> bool {
    piece_texts(h.pieces@) == seq![("  ·  "@, Ink::Dim)] && h.presses@.len() == 0
}

/// `b` says what `a` says and presses what `a` presses.
pub open spec fn copies<P: Clone>(a: Hint<P>, b: Hint<P>) -> bool {
    &&& piece_texts(b.pieces@) == piece_texts(a.pieces@)
    &&& b.presses@.len() == a.presses@.len()
    &&& forall|i: int| 0 <= i < a.presses@.len() ==> cloned::<P>(#[trigger] a.presses@[i], b.presses@[i])
}

/// A copy of `h`.
fn copy_hint<P: Clone>(h: &Hint<P>) -> (c: Hint<P>)
    ensures
        copies(*h, c),
{
    let mut pieces: Vec<(String, Ink)> = Vec::new();
    let mut i: usize = 0;
    while i < h.pieces.len()
        invariant
            i <= h.pieces@.len(),
            piece_texts(pieces@) == piece_texts(h.pieces@.take(i as int)),
        decreases h.pieces@.len() - i,
    {
        let ghost before = piece_texts(pieces@);
        let text = h.pieces[i].0.clone();
        pieces.push((text, h.pieces[i].1));
        assert(piece_texts(pieces@) =~= before.push((h.pieces@[i as int].0@, h.pieces@[i as int].1)));
        assert(piece_texts(h.pieces@.take(i + 1)) =~= piece_texts(h.pieces@.take(i as int)).push((h.pieces@[i as int].0@, h.pieces@[i as int].1)));
        i = i + 1;
    }
    assert(h.pieces@.take(h.pieces@.len() as int) =~= h.pieces@);
    Hint { pieces, presses: h.presses.clone() }
}

/// The footer's keys with a separator between them. The separators are not
/// buttons, so a click between two keys presses neither.
pub fn joined<P: Clone>(hints: &[Hint<P>]) -> (out: Vec<Hint<P>>)
    ensures
        out@.len() == (if hints@.len() == 0 { 0 } else { 2 * hints@.len() - 1 }),
        forall|k: int| 0 <= k < hints@.len() ==> copies(#[trigger] hints@[k], out@[2 * k]),
        forall|k: int| 0 <= k < hints@.len() - 1 ==> is_separator(#[trigger] out@[2 * k + 1]),
{
    let mut out: Vec<Hint<P>> = Vec::new();
    let mut k: usize = 0;
    while k < hints.len()
        invariant
            k <= hints@.len(),
            out@.len() == (if k == 0 { 0 } else { 2 * k - 1 }),
            forall|j: int| 0 <= j < k ==> copies(#[trigger] hints@[j], out@[2 * j]),
            forall|j: int| 0 <= j < k - 1 ==> is_separator(#[trigger] out@[2 * j + 1]),
        decreases hints@.len() - k,
    {
        if out.len() > 0 {
            out.push(Hint::note("  ·  ", Ink::Dim));
        }
        out.push(copy_hint(&hints[k]));
        k = k + 1;
    }
    out
}

/// Columns the whole footer takes (as many as a `usize` holds, at most).
pub fn hints_width<P>(hints: &[Hint<P>]) -> (w: usize)
    ensures
        w == capped(hints_total(hints@)),
{
    let mut w: usize = 0;
    let mut k: usize = 0;
    assert(hints@.take(0) =~= Seq::<Hint<P>>::empty());
    while k < hints.len()
        invariant
            k <= hints@.len(),
            w == capped(hints_total(hints@.take(k as int))),
        decreases hints@.len() - k,
    {
        assert(hints@.take(k + 1).drop_last() =~= hints@.take(k as int));
        w = w.saturating_add(hints[k].width());
        k = k + 1;
    }
    assert(hints@.take(hints@.len() as int) =~= hints@);
    w
}

/// The hint under column `x` when the hints from `k` on start at column
/// `left`: the first whose columns hold `x`.
pub open spec fn hint_under<P>(hints: Seq<Hint<P>>, k: int, left: int, x: int) -> Option<int>
    decreases hints.len() - k,
{
    if k < 0 || k >= hints.len() {
        None
    } else {
        let right = left + pieces_width(hints[k].pieces@);
        if left <= x < right {
            Some(k)
        } else {
            hint_under(hints, k + 1, right, x)
        }
    }
}

/// The hint under column `x` when the footer's first column is `x0`.
pub fn hint_at<P>(hints: &[Hint<P>], x0: u16, x: u16) -> (r: Option<&Hint<P>>)
    ensures
        match hint_under(hints@, 0, x0 as int, x as int) {
            Some(i) => r == Some(&hints@[i]),
            None => r is None,
        },
{
    let mut left: usize = x0 as usize;
    let mut k: usize = 0;
    while k < hints.len()
        invariant
            k <= hints@.len(),
            hint_under(hints@, 0, x0 as int, x as int) == hint_under(hints@, k as int, left as int, x as int),
        decreases hints@.len() - k,
    {
        let w = hints[k].width();
        let right = left.saturating_add(w);
        assert((right as int == left + pieces_width(hints@[k as int].pieces@)) || (right == usize::MAX && left + pieces_width(hints@[k as int].pieces@) >= usize::MAX));
        if left <= x as usize && (x as usize) < right {
            return Some(&hints[k]);
        }
        if right == usize::MAX {
            proof {
                lemma_nothing_under(hints@, k + 1, left + pieces_width(hints@[k as int].pieces@), x as int);
            }
            return None;
        }
        left = right;
        k = k + 1;
    }
    None
}

/// Past column `x`, no hint is under it.
proof fn lemma_nothing_under<P>(hints: Seq<Hint<P>>, k: int, left: int, x: int)
    requires
        left > x,
    ensures
        hint_under(hints, k, left, x) is None,
    decreases hints.len() - k,
{
    if 0 <= k < hints.len() {
        lemma_nothing_under(hints, k + 1, left + pieces_width(hints[k].pieces@), x);
    }
}

/// Where a footer drawn on `row` starts: centred as the draw centres it, or
/// at the row's first column.
pub open spec fn footer_start<P>(hints: Seq<Hint<P>>, row: Rect, centered: bool) -> int {
    if centered {
        let width = capped(hints_total(hints));
        row.x + (if width > row.width { 0 } else { (row.width - width) / 2 })
    } else {
        row.x as int
    }
}

/// The hint a click at `at` on a footer drawn on `row` lands on, if the
/// click is on the row and on a hint that presses something.
pub open spec fn clicked_hint<P>(hints: Seq<Hint<P>>, row: Rect, centered: bool, at: Position) -> Option<int> {
    if !spec_contains(row, at) {
        None
    } else {
        match hint_under(hints, 0, footer_start(hints, row, centered), at.x as int) {
            Some(i) => if hints[i].presses@.len() > 0 { Some(i) } else { None },
            None => None,
        }
    }
}

/// `v` presses what `h` presses, each press a clone.
pub open spec fn presses_of<P: Clone>(h: Hint<P>, v: Vec<P>) -> bool {
    &&& v@.len() == h.presses@.len()
    &&& forall|j: int| 0 <= j < v@.len() ==> cloned::<P>(#[trigger] h.presses@[j], v@[j])
}

/// The presses a click at `at` on a footer makes, or `None` off the footer
/// or on words that only read. `row` is where the footer is drawn, and a
/// centred footer starts where the draw centres it.
pub fn footer_presses<P: Clone>(hints: &[Hint<P>], row: Rect, centered: bool, at: Position) -> (r: Option<Vec<P>>)
    requires
        row.x + row.width <= u16::MAX,
    ensures
        match clicked_hint(hints@, row, centered, at) {
            Some(i) => r matches Some(v) && presses_of(hints@[i], v),
            None => r is None,
        },
{
    if !row.contains(at) {
        return None;
    }
    let x0 = if centered { centered_x(row, hints_width(hints)) } else { row.x };
    match hint_at(hints, x0, at.x) {
        Some(h) => {
            if h.presses.len() > 0 {
                Some(h.presses.clone())
            } else {
                None
            }
        },
        None => None,
    }
}

/// The same, for a float whose footer is the last of its `lines` — which a
/// box clamped to the body may have cut off, in which case nothing is there
/// to click.
pub fn float_footer_presses<P: Clone>(hints: &[Hint<P>], area: Rect, lines: usize, at: Position) -> (r: Option<Vec<P>>)
    requires
        area.x + area.width <= u16::MAX,
    ensures
        area.height != lines + FRAME_ROWS ==> r is None,
        area.height == lines + FRAME_ROWS ==> match clicked_hint(hints@, spec_footer_row(area), false, at) {
            Some(i) => r matches Some(v) && presses_of(hints@[i], v),
            None => r is None,
        },
{
    if footer_fits(area, lines) {
        footer_presses(hints, footer_row(area), false, at)
    } else {
        None
    }
}

/// `s` without the white space at either end.
pub open spec fn trimmed(s: Seq<char>) -> Seq<char> {
    let lead = lead_space(s, 0);
    let tail = trail_space(s, s.len() as int);
    if lead >= tail { Seq::empty() } else { s.subrange(lead, tail) }
}

/// The first index at or after `i` that is not white space, or the length.
pub open spec fn lead_space(s: Seq<char>, i: int) -> int
    decreases s.len() - i,
{
    if i < 0 || i >= s.len() {
        s.len() as int
    } else if is_space(s[i]) {
        lead_space(s, i + 1)
    } else {
        i
    }
}

/// One past the last index before `j` that is not white space, or zero.
pub open spec fn trail_space(s: Seq<char>, j: int) -> int
    decreases j,
{
    if j <= 0 || j > s.len() {
        0
    } else if is_space(s[j - 1]) {
        trail_space(s, j - 1)
    } else {
        j
    }
}

/// The text of a hint's pieces, run together.
pub open spec fn spoken(pieces: Seq<(String, Ink)>) -> Seq<char>
    decreases pieces.len(),
{
    if pieces.len() == 0 {
        Seq::empty()
    } else {
        spoken(pieces.drop_last()) + pieces.last().0@
    }
}

/// The hints as plain words, each trimmed, ` · ` between them.
pub open spec fn plain_words<P>(hints: Seq<Hint<P>>) -> Seq<char>
    decreases hints.len(),
{
    if hints.len() == 0 {
        Seq::empty()
    } else if hints.len() == 1 {
        trimmed(spoken(hints[0].pieces@))
    } else {
        plain_words(hints.drop_last()) + " · "@ + trimmed(spoken(hints.last().pieces@))
    }
}

/// Whether `c` is white space.
fn white(c: char) -> (r: bool)
    ensures
        r == is_space(c),
{
    let u = c as u32;
    (0x9 <= u && u <= 0xD) || u == 0x20 || u == 0x85 || u == 0xA0 || u == 0x1680 || (0x2000 <= u && u <= 0x200A)
        || u == 0x2028 || u == 0x2029 || u == 0x202F || u == 0x205F || u == 0x3000
}

/// A hint's words, trimmed, appended to `out`.
fn push_trimmed<P>(out: &mut String, h: &Hint<P>)
    ensures
        final(out)@ == old(out)@ + trimmed(spoken(h.pieces@)),
{
    let mut all: Vec<char> = Vec::new();
    let mut i: usize = 0;
    assert(h.pieces@.take(0) =~= Seq::<(String, Ink)>::empty());
    while i < h.pieces.len()
        invariant
            i <= h.pieces@.len(),
            all@ == spoken(h.pieces@.take(i as int)),
        decreases h.pieces@.len() - i,
    {
        assert(h.pieces@.take(i + 1).drop_last() =~= h.pieces@.take(i as int));
        let cs = chars_of(h.pieces[i].0.as_str());
        let ghost before = all@;
        let mut j: usize = 0;
        while j < cs.len()
            invariant
                j <= cs@.len(),
                all@ == before + cs@.take(j as int),
            decreases cs@.len() - j,
        {
            all.push(cs[j]);
            assert(cs@.take(j + 1) =~= cs@.take(j as int).push(cs@[j as int]));
            assert(all@ =~= before + cs@.take(j + 1));
            j = j + 1;
        }
        assert(cs@.take(cs@.len() as int) =~= cs@);
        i = i + 1;
    }
    assert(h.pieces@.take(h.pieces@.len() as int) =~= h.pieces@);
    let ghost s = all@;
    let mut lead: usize = 0;
    assert(lead_space(s, 0) == lead_space(s, lead as int));
    while lead < all.len() && white(all[lead])
        invariant
            lead <= all@.len(),
            s == all@,
            lead_space(s, 0) == lead_space(s, lead as int),
        decreases all@.len() - lead,
    {
        lead = lead + 1;
    }
    let mut tail: usize = all.len();
    while tail > 0 && white(all[tail - 1])
        invariant
            tail <= all@.len(),
            s == all@,
            trail_space(s, s.len() as int) == trail_space(s, tail as int),
        decreases tail,
    {
        tail = tail - 1;
    }
    let ghost start = out@;
    if lead < tail {
        let mut k: usize = lead;
        while k < tail
            invariant
                lead <= k <= tail <= all@.len(),
                s == all@,
                out@ == start + s.subrange(lead as int, k as int),
            decreases tail - k,
        {
            push_char(out, all[k]);
            assert(s.subrange(lead as int, k + 1) =~= s.subrange(lead as int, k as int).push(s[k as int]));
            k = k + 1;
        }
    } else {
        assert(out@ =~= start + Seq::<char>::empty());
    }
}

/// A hint list as plain words, `enter jump · esc close`, for a box that names
/// its keys in its title rather than on a footer row.
pub fn plain<P>(hints: &[Hint<P>]) -> (out: String)
    ensures
        out@ == plain_words(hints@),
{
    let mut out = String::new();
    let mut k: usize = 0;
    assert(hints@.take(0) =~= Seq::<Hint<P>>::empty());
    while k < hints.len()
        invariant
            k <= hints@.len(),
            out@ == plain_words(hints@.take(k as int)),
        decreases hints@.len() - k,
    {
        assert(hints@.take(k + 1).drop_last() =~= hints@.take(k as int));
        if k > 0 {
            out.append(" · ");
        }
        push_trimmed(&mut out, &hints[k]);
        proof {
            if k == 0 {
                assert(hints@.take(1)[0] == hints@[0]);
                assert(out@ =~= plain_words(hints@.take(1)));
            }
        }
        k = k + 1;
    }
    assert(hints@.take(hints@.len() as int) =~= hints@);
    out
}

// ------------------------------------------------------------- the footers

/// One piece of words in an ink.
pub open spec fn words_in(text: Seq<char>, ink: Ink) -> Seq<(Seq<char>, Ink)> {
    seq![(text, ink)]
}

/// The composer's keys: `enter` saves, `esc` cancels, and the newline hint
/// reads and does nothing on a click — a caret is where a newline goes, and a
/// click has none.
pub fn composer_footer<P>(enter: Vec<P>, esc: Vec<P>) -> (out: Vec<Hint<P>>)
    ensures
        out@.len() == 5,
        piece_texts(out@[0].pieces@) == seq![("  enter "@, Ink::Key), ("save"@, Ink::Text)],
        out@[0].presses@ == enter@,
        is_rule(out@[1]),
        piece_texts(out@[2].pieces@) == seq![("shift+enter "@, Ink::Key), ("or"@, Ink::Text), (" \\↵ "@, Ink::Key), ("newline"@, Ink::Text)],
        out@[2].presses@.len() == 0,
        is_rule(out@[3]),
        piece_texts(out@[4].pieces@) == seq![("esc "@, Ink::Key), ("cancel"@, Ink::Text)],
        out@[4].presses@ == esc@,
{
    let mut newline: Vec<(String, Ink)> = Vec::new();
    newline.push(("shift+enter ".to_string(), Ink::Key));
    newline.push(("or".to_string(), Ink::Text));
    newline.push((" \\↵ ".to_string(), Ink::Key));
    newline.push(("newline".to_string(), Ink::Text));
    assert(piece_texts(newline@) =~= seq![("shift+enter "@, Ink::Key), ("or"@, Ink::Text), (" \\↵ "@, Ink::Key), ("newline"@, Ink::Text)]);
    let mut out: Vec<Hint<P>> = Vec::new();
    out.push(Hint::button("  enter ", "save", enter));
    out.push(Hint::note("  │  ", Ink::Dim));
    out.push(Hint { pieces: newline, presses: Vec::new() });
    out.push(Hint::note("  │  ", Ink::Dim));
    out.push(Hint::button("esc ", "cancel", esc));
    out
}

/// The composer footer's dim rule between two groups of keys.
pub open spec fn is_rule<P>(h: Hint<P>) -> bool {
    piece_texts(h.pieces@) == seq![("  │  "@, Ink::Dim)] && h.presses@.len() == 0
}

/// The question `D` asks of the findings list, with the count of notes it
/// would delete and of those on the request that stay.
pub open spec fn delete_question(local: nat, kept: nat) -> Seq<char> {
    if local == 1 && kept == 0 {
        "  delete this note?  "@
    } else if kept == 0 {
        "  delete all "@ + decimal(local) + " notes?  "@
    } else if local == 1 {
        "  delete this note? ("@ + decimal(kept) + " on the request stay)  "@
    } else {
        "  delete all "@ + decimal(local) + " local notes? ("@ + decimal(kept) + " on the request stay)  "@
    }
}

/// While `D` waits for its answer, the findings list's footer is the
/// question, with `y` and `n` the two things a click can say.
pub fn findings_question<P>(local: usize, kept: usize, yes: Vec<P>, no: Vec<P>) -> (out: Vec<Hint<P>>)
    ensures
        out@.len() == 4,
        piece_texts(out@[0].pieces@) == seq![(delete_question(local as nat, kept as nat), Ink::Warn)],
        out@[0].presses@.len() == 0,
        piece_texts(out@[1].pieces@) == seq![("y"@, Ink::Warn)],
        out@[1].presses@ == yes@,
        piece_texts(out@[2].pieces@) == seq![(" / "@, Ink::Warn)],
        out@[2].presses@.len() == 0,
        piece_texts(out@[3].pieces@) == seq![("n"@, Ink::Warn)],
        out@[3].presses@ == no@,
{
    let mut question = String::new();
    if local == 1 && kept == 0 {
        question.append("  delete this note?  ");
    } else if kept == 0 {
        question.append("  delete all ");
        push_decimal(&mut question, local as u64);
        question.append(" notes?  ");
    } else if local == 1 {
        question.append("  delete this note? (");
        push_decimal(&mut question, kept as u64);
        question.append(" on the request stay)  ");
    } else {
        question.append("  delete all ");
        push_decimal(&mut question, local as u64);
        question.append(" local notes? (");
        push_decimal(&mut question, kept as u64);
        question.append(" on the request stay)  ");
    }
    assert(question@ =~= delete_question(local as nat, kept as nat));
    let mut y_piece: Vec<(String, Ink)> = Vec::new();
    y_piece.push(("y".to_string(), Ink::Warn));
    assert(piece_texts(y_piece@) =~= seq![("y"@, Ink::Warn)]);
    let mut n_piece: Vec<(String, Ink)> = Vec::new();
    n_piece.push(("n".to_string(), Ink::Warn));
    assert(piece_texts(n_piece@) =~= seq![("n"@, Ink::Warn)]);
    let mut out: Vec<Hint<P>> = Vec::new();
    out.push(Hint::note(question.as_str(), Ink::Warn));
    out.push(Hint { pieces: y_piece, presses: yes });
    out.push(Hint::note(" / ", Ink::Warn));
    out.push(Hint { pieces: n_piece, presses: no });
    out
}

/// A `y`-only question's footer: `y` does the thing, and a click on the
/// clause about every other key is one of them.
fn yes_or_keep_footer<P>(does: &str, keeps: &str, yes: Vec<P>, other: Vec<P>) -> (out: Vec<Hint<P>>)
    ensures
        out@.len() == 2,
        piece_texts(out@[0].pieces@) == seq![("  y"@, Ink::Key), (" "@ + does@, Ink::Dim)],
        out@[0].presses@ == yes@,
        piece_texts(out@[1].pieces@) == seq![("  ·  any other key "@ + keeps@, Ink::Dim)],
        out@[1].presses@ == other@,
{
    let mut clause = " ".to_string();
    clause.append(does);
    let mut rest = "  ·  any other key ".to_string();
    rest.append(keeps);
    let mut first: Vec<(String, Ink)> = Vec::new();
    first.push(("  y".to_string(), Ink::Key));
    first.push((clause, Ink::Dim));
    assert(piece_texts(first@) =~= seq![("  y"@, Ink::Key), (" "@ + does@, Ink::Dim)]);
    let mut second: Vec<(String, Ink)> = Vec::new();
    second.push((rest, Ink::Dim));
    assert(piece_texts(second@) =~= seq![("  ·  any other key "@ + keeps@, Ink::Dim)]);
    let mut out: Vec<Hint<P>> = Vec::new();
    out.push(Hint { pieces: first, presses: yes });
    out.push(Hint { pieces: second, presses: other });
    out
}

/// The publish question's footer.
pub fn publish_footer<P>(yes: Vec<P>, other: Vec<P>) -> (out: Vec<Hint<P>>)
    ensures
        out@.len() == 2,
        piece_texts(out@[0].pieces@) == seq![("  y"@, Ink::Key), (" "@ + "publishes"@, Ink::Dim)],
        out@[0].presses@ == yes@,
        piece_texts(out@[1].pieces@) == seq![("  ·  any other key "@ + "keeps them local"@, Ink::Dim)],
        out@[1].presses@ == other@,
{
    yes_or_keep_footer("publishes", "keeps them local", yes, other)
}

/// The delete-comment question's footer.
pub fn delete_comment_footer<P>(yes: Vec<P>, other: Vec<P>) -> (out: Vec<Hint<P>>)
    ensures
        out@.len() == 2,
        piece_texts(out@[0].pieces@) == seq![("  y"@, Ink::Key), (" "@ + "deletes it there and here"@, Ink::Dim)],
        out@[0].presses@ == yes@,
        piece_texts(out@[1].pieces@) == seq![("  ·  any other key "@ + "keeps it"@, Ink::Dim)],
        out@[1].presses@ == other@,
{
    yes_or_keep_footer("deletes it there and here", "keeps it", yes, other)
}

} // verus!
