//! `/` — a word, found anywhere in the changed files.
//!
//! What is searched is the files as they are now, not the diff: every changed
//! file's head side, unchanged lines included. One occurrence per matching
//! LINE, ranked so the hit the reader meant comes first.
use vstd::prelude::*;

use vstd::multiset::Multiset;

use crate::command::Input;
use crate::order::{chars_lt, lemma_chars_lt_total, text_lt};
use crate::text::{follow, spec_follow, step_list, stepped};

verus! {

broadcast use vstd::seq_lib::group_to_multiset_ensures;

/// Hits a scan collects before it stops counting.
pub const MOST_HITS: usize = 2000;

/// How far `enter` will pull a file open to reach a line outside every window.
pub const MOST_REVEALED: u32 = 4000;

/// One line of one file that matches the query.
#[derive(Debug)]
pub struct Occurrence {
    pub path: String,
    /// Head-side line number, counting from 1.
    pub line: u32,
    /// The FIRST hit's byte range within the line.
    pub hit: std::ops::Range<usize>,
    /// The group that owns this line, as a position in the reading plan.
    pub group: Option<usize>,
    /// `g2 focus C37` — the group, its tier, and the shape class of the hunk
    /// holding this line; empty where no group owns the file at all.
    pub badge: String,
    /// Is this where the reader already is? Ranking only.
    pub here: bool,
    /// Is the line inside a hunk this change wrote? Ranking only.
    pub in_hunk: bool,
}

/// What ranks one hit above another, in the order it answers: where the reader
/// already is, then inside a hunk, then plan order (a line no group owns
/// last), then path and line.
pub open spec fn rank_lt(a: Occurrence, b: Occurrence) -> bool {
    let (ga, gb) = (
        match a.group { Some(g) => g as int, None => usize::MAX as int },
        match b.group { Some(g) => g as int, None => usize::MAX as int },
    );
    if a.here != b.here {
        a.here
    } else if a.in_hunk != b.in_hunk {
        a.in_hunk
    } else if ga != gb {
        ga < gb
    } else if a.path@ != b.path@ {
        chars_lt(a.path@, b.path@)
    } else {
        a.line < b.line
    }
}

/// Of two hits, never both rank before the other.
pub proof fn lemma_rank_lt_asymmetric(a: Occurrence, b: Occurrence)
    ensures
        !(rank_lt(a, b) && rank_lt(b, a)),
{
    lemma_chars_lt_total(a.path@, b.path@);
}

/// The rank key of an occurrence, as a tuple: smaller ranks first.
pub fn rank(o: &Occurrence) -> (k: (bool, bool, usize, &str, u32))
    ensures
        k.0 == !o.here,
        k.1 == !o.in_hunk,
        k.2 == (match o.group { Some(g) => g, None => usize::MAX }),
        k.3@ == o.path@,
        k.4 == o.line,
{
    (!o.here, !o.in_hunk, match o.group { Some(g) => g, None => usize::MAX }, o.path.as_str(), o.line)
}

/// Whether `a` ranks before `b`.
pub fn ranks_before(a: &Occurrence, b: &Occurrence) -> (r: bool)
    ensures
        r == rank_lt(*a, *b),
{
    let (ha, ia, ga, pa, la) = rank(a);
    let (hb, ib, gb, pb, lb) = rank(b);
    proof {
        lemma_chars_lt_total(pa@, pb@);
    }
    if ha != hb {
        !ha
    } else if ia != ib {
        !ia
    } else if ga != gb {
        ga < gb
    } else if text_lt(pa, pb) {
        true
    } else if text_lt(pb, pa) {
        false
    } else {
        proof {
            lemma_chars_lt_total(pa@, pb@);
        }
        la < lb
    }
}

/// Whether no hit in `s` ranks before the one above it.
pub open spec fn ranked(s: Seq<Occurrence>) -> bool {
    forall|i: int| 0 < i < s.len() ==> !rank_lt(#[trigger] s[i], s[i - 1])
}

/// `out` is `hits` reordered by `perm`: each place of `out` holds the hit
/// `perm` names, and no hit is named twice.
pub open spec fn reorders(out: Seq<Occurrence>, hits: Seq<Occurrence>, perm: Seq<int>) -> bool {
    &&& perm.len() == out.len() == hits.len()
    &&& forall|i: int| 0 <= i < perm.len() ==> 0 <= #[trigger] perm[i] < hits.len() && out[i] == hits[perm[i]]
    &&& forall|i: int, j: int| 0 <= i < j < perm.len() ==> #[trigger] perm[i] != #[trigger] perm[j]
}

/// Hits of equal rank keep the order they came in.
pub open spec fn keeps_ties(out: Seq<Occurrence>, perm: Seq<int>) -> bool {
    forall|i: int, j: int| 0 <= i < j < perm.len() && !rank_lt(#[trigger] out[i], #[trigger] out[j])
        && !rank_lt(out[j], out[i]) ==> perm[i] < perm[j]
}

/// The hits, best first: the same hits, each ranked no worse than the one
/// below it, and hits of equal rank in the order they came.
pub fn sort_by_rank(hits: Vec<Occurrence>) -> (out: Vec<Occurrence>)
    ensures
        out@.to_multiset() == hits@.to_multiset(),
        ranked(out@),
        exists|perm: Seq<int>| reorders(out@, hits@, perm) && keeps_ties(out@, perm),
{
    let ghost h = hits@;
    let mut rest = hits;
    let mut out: Vec<Occurrence> = Vec::new();
    let ghost mut perm: Seq<int> = Seq::empty();
    while rest.len() > 0
        invariant
            out@.to_multiset().add(rest@.to_multiset()) == h.to_multiset(),
            ranked(out@),
            rest@ == h.take(rest@.len() as int),
            rest@.len() <= h.len(),
            perm.len() == out@.len() == h.len() - rest@.len(),
            forall|i: int| 0 <= i < perm.len() ==> rest@.len() <= #[trigger] perm[i] < h.len() && out@[i] == h[perm[i]],
            forall|i: int, j: int| 0 <= i < j < perm.len() ==> #[trigger] perm[i] != #[trigger] perm[j],
            keeps_ties(out@, perm),
        decreases rest@.len(),
    {
        let ghost before_rest = rest@;
        let x = rest.pop().unwrap();
        let ghost at: int = rest@.len() as int;
        proof {
            assert(before_rest =~= rest@.push(x));
            assert(rest@ =~= h.take(at));
            assert(x == h[at]);
        }
        // Before every hit it does not rank behind, so equal hits keep the
        // order they came in.
        let mut p: usize = 0;
        while p < out.len() && ranks_before(&out[p], &x)
            invariant
                p <= out@.len(),
                forall|q: int| 0 <= q < p ==> rank_lt(#[trigger] out@[q], x),
            decreases out@.len() - p,
        {
            p = p + 1;
        }
        let ghost old_out = out@;
        let ghost old_perm = perm;
        out.insert(p, x);
        proof {
            perm = old_perm.insert(p as int, at);
            assert(out@ == old_out.insert(p as int, x));
            assert forall|i: int| 0 < i < out@.len() implies !rank_lt(#[trigger] out@[i], out@[i - 1]) by {
                if i < p {
                    assert(out@[i] == old_out[i] && out@[i - 1] == old_out[i - 1]);
                } else if i == p {
                    lemma_rank_lt_asymmetric(old_out[i - 1], x);
                } else if i == p + 1 {
                } else {
                    assert(out@[i] == old_out[i - 1] && out@[i - 1] == old_out[i - 2]);
                }
            }
            assert forall|i: int| 0 <= i < perm.len() implies rest@.len() <= #[trigger] perm[i] < h.len()
                && out@[i] == h[perm[i]] by {
                if i < p {
                    assert(perm[i] == old_perm[i]);
                } else if i > p {
                    assert(perm[i] == old_perm[i - 1]);
                }
            }
            assert forall|i: int, j: int| 0 <= i < j < perm.len() implies #[trigger] perm[i] != #[trigger] perm[j] by {
                if i != p && j != p {
                    let oi = if i < p { i } else { i - 1 };
                    let oj = if j < p { j } else { j - 1 };
                    assert(perm[i] == old_perm[oi] && perm[j] == old_perm[oj]);
                    assert(old_perm[oi] != old_perm[oj]);
                } else if i == p {
                    assert(perm[j] == old_perm[j - 1]);
                } else {
                    assert(perm[i] == old_perm[i]);
                }
            }
            assert forall|i: int, j: int| 0 <= i < j < perm.len() && !rank_lt(#[trigger] out@[i], #[trigger] out@[j])
                && !rank_lt(out@[j], out@[i]) implies perm[i] < perm[j] by {
                if i != p && j != p {
                    let oi = if i < p { i } else { i - 1 };
                    let oj = if j < p { j } else { j - 1 };
                    assert(perm[i] == old_perm[oi] && perm[j] == old_perm[oj]);
                    assert(out@[i] == old_out[oi] && out@[j] == old_out[oj]);
                } else if i == p {
                    assert(perm[j] == old_perm[j - 1]);
                } else {
                    assert(out@[i] == old_out[i]);
                }
            }
            vstd::seq_lib::to_multiset_insert(old_out, p as int, x);
            vstd::seq_lib::to_multiset_build(rest@, x);
        }
    }
    proof {
        assert(rest@.to_multiset() =~= Multiset::<Occurrence>::empty());
        assert(reorders(out@, h, perm));
    }
    out
}

/// The best [`MOST_HITS`] hits: a prefix of the hits ranked.
pub fn rank_and_cut(hits: Vec<Occurrence>) -> (out: Vec<Occurrence>)
    ensures
        exists|all: Seq<Occurrence>| #![trigger all.to_multiset()]
            all.to_multiset() == hits@.to_multiset() && ranked(all)
                && out@ == all.take(if all.len() < MOST_HITS { all.len() as int } else { MOST_HITS as int }),
{
    let mut out = sort_by_rank(hits);
    let ghost all = out@;
    out.truncate(MOST_HITS);
    assert(out@ =~= all.take(if all.len() < MOST_HITS { all.len() as int } else { MOST_HITS as int }));
    out
}

/// Which way the query is read.
#[derive(Debug, Clone, Copy, PartialEq, Eq)]
pub enum Reading {
    /// Every character stands for itself. `a.c` finds `a.c`, not `abc`.
    Literal,
    /// The query is a regular expression.
    Regexp,
}

impl Reading {
    /// The other reading.
    pub fn flip(self) -> (r: Reading)
        ensures
            r != self,
    {
        match self {
            Reading::Literal => Reading::Regexp,
            Reading::Regexp => Reading::Literal,
        }
    }
}

#[verifier::external_type_specification]
#[verifier::external_body]
pub struct ExRegex(regex::Regex);

/// Whether `std`'s `char::is_uppercase` holds of `c` (the Unicode
/// `Uppercase` property).
pub uninterp spec fn char_is_uppercase(c: char) -> bool;

/// The characters that mean something in a regex, as `regex-syntax`'s
/// `is_meta_character` lists them.
pub open spec fn is_meta(c: char) -> bool {
    c == '\\' || c == '.' || c == '+' || c == '*' || c == '?' || c == '(' || c == ')' || c == '|'
        || c == '[' || c == ']' || c == '{' || c == '}' || c == '^' || c == '$' || c == '#'
        || c == '&' || c == '-' || c == '~'
}

/// The pattern `regex::escape` makes of `text`, which matches exactly it:
/// the text, with a backslash before each meta character.
pub open spec fn regex_escape(text: Seq<char>) -> Seq<char>
    decreases text.len(),
{
    if text.len() == 0 {
        Seq::empty()
    } else {
        let c = text.last();
        regex_escape(text.drop_last()) + if is_meta(c) { seq!['\\', c] } else { seq![c] }
    }
}

/// Whether `regex::RegexBuilder::new(pattern).case_insensitive(folded).build()`
/// succeeds.
pub uninterp spec fn regex_compiles(pattern: Seq<char>, folded: bool) -> bool;

/// The byte range of the leftmost-first match of the regex built from
/// `pattern` with `case_insensitive(folded)` in `haystack`, as
/// `regex::Regex::find` reports it.
pub uninterp spec fn regex_first_match(pattern: Seq<char>, folded: bool, haystack: Seq<char>) -> Option<(usize, usize)>;

/// Calls `char::is_uppercase`.
///
/// Trusted: the answer is the name [`char_is_uppercase`] of the character.
#[verifier::external_body]
fn is_uppercase(c: char) -> (r: bool)
    ensures
        r == char_is_uppercase(c),
{
    c.is_uppercase()
}

/// Calls `regex::escape(text)`.
///
/// Trusted: as `regex-syntax`'s `escape_into` writes it, the pattern is the
/// text with a backslash pushed before each meta character, [`regex_escape`].
#[verifier::external_body]
fn escape(text: &str) -> (r: String)
    ensures
        r@ == regex_escape(text@),
{
    regex::escape(text)
}

/// Calls `regex::RegexBuilder::new(pattern).case_insensitive(folded).build()`.
///
/// Trusted: it succeeds exactly when the name [`regex_compiles`] holds.
#[verifier::external_body]
fn build_regex(pattern: &str, folded: bool) -> (r: Option<regex::Regex>)
    ensures
        r is Some <==> regex_compiles(pattern@, folded),
{
    regex::RegexBuilder::new(pattern).case_insensitive(folded).build().ok()
}

/// A compiled query: the regex, and the pattern and case rule it was built
/// from, which only [`Matcher::build`] ever puts together.
pub struct Matcher {
    re: regex::Regex,
    pattern: Ghost<Seq<char>>,
    folded: Ghost<bool>,
}

impl Matcher {
    /// The pattern this matcher was built from.
    pub closed spec fn pattern(&self) -> Seq<char> {
        self.pattern@
    }

    /// Whether it ignores case.
    pub closed spec fn folded(&self) -> bool {
        self.folded@
    }

    /// The matcher for `pattern`, ignoring case when `folded`; `None` when the
    /// pattern does not compile.
    pub fn build(pattern: &str, folded: bool) -> (r: Option<Matcher>)
        ensures
            r is Some <==> regex_compiles(pattern@, folded),
            r matches Some(m) ==> m.pattern() == pattern@ && m.folded() == folded,
    {
        match build_regex(pattern, folded) {
            Some(re) => Some(Matcher { re, pattern: Ghost(pattern@), folded: Ghost(folded) }),
            None => None,
        }
    }

    /// The first match in `haystack`, as a byte range.
    pub fn find(&self, haystack: &str) -> (r: Option<(usize, usize)>)
        ensures
            r == regex_first_match(self.pattern(), self.folded(), haystack@),
    {
        find_first(self, haystack)
    }

    /// Whether the query matches anywhere in `haystack`.
    pub fn is_match(&self, haystack: &str) -> (r: bool)
        ensures
            r == regex_first_match(self.pattern(), self.folded(), haystack@) is Some,
    {
        self.find(haystack).is_some()
    }
}

/// Calls `regex::Regex::find(haystack)` on the regex a [`Matcher`] holds. A
/// matcher is put together only by [`Matcher::build`], from the regex that
/// `RegexBuilder` built out of the very pattern and case rule it records.
///
/// Trusted: the range is the name [`regex_first_match`] of that pattern, that
/// case rule and the haystack.
#[verifier::external_body]
fn find_first(m: &Matcher, haystack: &str) -> (r: Option<(usize, usize)>)
    ensures
        r == regex_first_match(m.pattern(), m.folded(), haystack@),
{
    m.re.find(haystack).map(|found| (found.start(), found.end()))
}

/// The pattern a query is read as: escaped for a literal, as written for a
/// regexp.
pub open spec fn query_pattern(query: Seq<char>, reading: Reading) -> Seq<char> {
    match reading {
        Reading::Literal => regex_escape(query),
        Reading::Regexp => query,
    }
}

/// Smart case: an all-lowercase query ignores case, and one uppercase letter in
/// it means the reader typed the case they meant.
pub open spec fn smart_folded(query: Seq<char>) -> bool {
    !exists|i: int| 0 <= i < query.len() && char_is_uppercase(#[trigger] query[i])
}

/// The query's matcher, with smart case. `None` means there is nothing to
/// search for: an empty query, or an expression that does not compile.
pub fn matcher(query: &str, reading: Reading) -> (r: Option<Matcher>)
    ensures
        query@.len() == 0 ==> r is None,
        query@.len() > 0 ==> (r is Some <==> regex_compiles(query_pattern(query@, reading), smart_folded(query@))),
        r matches Some(m) ==> m.pattern() == query_pattern(query@, reading) && m.folded() == smart_folded(query@),
{
    if query.is_empty() {
        return None;
    }
    let mut folded = true;
    for c in it: query.chars()
        invariant
            it.seq() == query@,
            folded == !exists|i: int| 0 <= i < it.index() && char_is_uppercase(#[trigger] query@[i]),
    {
        if is_uppercase(c) {
            folded = false;
        }
    }
    match reading {
        Reading::Literal => {
            let source = escape(query);
            Matcher::build(source.as_str(), folded)
        },
        Reading::Regexp => Matcher::build(query, folded),
    }
}

/// What a query compiles to, as the pattern and the case rule of its
/// matcher: nothing for an empty query or one that does not compile.
pub open spec fn query_reads_as(query: Seq<char>, reading: Reading) -> Option<(Seq<char>, bool)> {
    if query.len() == 0 || !regex_compiles(query_pattern(query, reading), smart_folded(query)) {
        None
    } else {
        Some((query_pattern(query, reading), smart_folded(query)))
    }
}

/// The search box: the query, how it is read, what it found and where the
/// reader is in that.
pub struct Search {
    /// The query and its caret.
    pub input: Input,
    pub reading: Reading,
    /// The query came back from the last `/` and is selected: the next
    /// character typed replaces the whole of it.
    pub picked: bool,
    /// The compiled query, as [`Search::retype`] last built it.
    pub re: Option<Matcher>,
    pub entries: Vec<Occurrence>,
    pub selected: usize,
    /// First visible occurrence. The list is longer than any box.
    pub scroll: usize,
}

impl Search {
    /// The pattern and case rule of the compiled query, if there is one.
    pub open spec fn compiled(&self) -> Option<(Seq<char>, bool)> {
        match self.re {
            Some(m) => Some((m.pattern(), m.folded())),
            None => None,
        }
    }

    /// A box holding `query`, read as `reading`, with nothing found yet. A
    /// query brought back from the last search comes selected.
    pub fn new(query: String, reading: Reading) -> (s: Search)
        ensures
            s.input.text() == query@,
            s.input.caret() == query@.len(),
            s.reading == reading,
            s.picked == (query@.len() > 0),
            s.compiled() == query_reads_as(query@, reading),
            s.entries@ == Seq::<Occurrence>::empty(),
            s.selected == 0,
            s.scroll == 0,
    {
        let picked = !query.as_str().is_empty();
        let mut s = Search {
            picked,
            input: Input::new(query),
            reading,
            re: None,
            entries: Vec::new(),
            selected: 0,
            scroll: 0,
        };
        s.retype();
        s
    }

    /// The query as typed.
    pub fn query(&self) -> (r: &str)
        ensures
            r@ == self.input.text(),
    {
        self.input.value()
    }

    /// The query or its reading changed: compile it again. Refilling
    /// `entries` is the caller's, because only it can see the files.
    pub fn retype(&mut self)
        ensures
            final(self).compiled() == query_reads_as(old(self).input.text(), old(self).reading),
            final(self).input == old(self).input,
            final(self).reading == old(self).reading,
            final(self).picked == old(self).picked,
            final(self).entries == old(self).entries,
            final(self).selected == old(self).selected,
            final(self).scroll == old(self).scroll,
    {
        self.re = matcher(self.input.value(), self.reading);
    }

    /// Whether the box is holding an expression it could not compile: a
    /// query that is there, and no matcher for it.
    pub fn bad_regexp(&self) -> (r: bool)
        ensures
            r == (self.input.text().len() > 0 && self.compiled() is None),
    {
        !self.query().is_empty() && self.re.is_none()
    }

    /// The occurrence the reader is standing on.
    pub fn hit(&self) -> (r: Option<&Occurrence>)
        ensures
            r == (if self.selected < self.entries@.len() { Some(&self.entries@[self.selected as int]) } else { None }),
    {
        if self.selected < self.entries.len() {
            Some(&self.entries[self.selected])
        } else {
            None
        }
    }

    /// Move the selection one step, and keep it in a window `rows` tall.
    pub fn step(&mut self, rows: usize, down: bool)
        requires
            down ==> old(self).selected < usize::MAX,
        ensures
            final(self).selected == stepped(old(self).selected as int, old(self).entries@.len() as int, down),
            final(self).scroll == spec_follow(final(self).selected as int, old(self).scroll as int, rows as int),
            final(self).entries == old(self).entries,
            final(self).compiled() == old(self).compiled(),
            final(self).input == old(self).input,
            final(self).reading == old(self).reading,
            final(self).picked == old(self).picked,
    {
        let len = self.entries.len();
        step_list(&mut self.selected, &mut self.scroll, len, rows, down);
    }

    /// Put the selection on `hit`, and bring it into the same window.
    pub fn select(&mut self, hit: usize, rows: usize)
        ensures
            final(self).selected == hit,
            final(self).scroll == spec_follow(hit as int, old(self).scroll as int, rows as int),
            final(self).entries == old(self).entries,
            final(self).compiled() == old(self).compiled(),
            final(self).input == old(self).input,
            final(self).reading == old(self).reading,
            final(self).picked == old(self).picked,
    {
        self.selected = hit;
        self.scroll = follow(hit, self.scroll, rows);
    }
}

// ---------------------------------------------------------------- one file

/// One hunk of the file being scanned, as the scan needs it: the head-side
/// lines it covers, the group it landed in, and its shape class.
pub struct Hunk {
    pub top: u32,
    pub bot: u32,
    pub group: Option<usize>,
    pub class: String,
}

/// Whether a hunk covering head-side lines `top..bot` holds `line`.
pub open spec fn covers(top: u32, bot: u32, line: u32) -> bool {
    bot > top && line >= top && line < bot
}

impl Hunk {
    /// Does this hunk cover head-side line `line`? A hunk with no new-side
    /// lines — a pure deletion — covers none.
    pub fn holds(&self, line: u32) -> (r: bool)
        ensures
            r == covers(self.top, self.bot, line),
    {
        self.bot > self.top && line >= self.top && line < self.bot
    }
}

/// The first of `hunks` from `k` on that holds `line`.
pub open spec fn owner_from(hunks: Seq<Hunk>, line: u32, k: int) -> Option<int>
    decreases hunks.len() - k,
{
    if k < 0 || k >= hunks.len() {
        None
    } else if covers(hunks[k].top, hunks[k].bot, line) {
        Some(k)
    } else {
        owner_from(hunks, line, k + 1)
    }
}

/// The earliest plan position among the hunks' groups: the group a line in
/// no hunk belongs to.
pub open spec fn first_group(hunks: Seq<Hunk>) -> Option<usize>
    decreases hunks.len(),
{
    if hunks.len() == 0 {
        None
    } else {
        let rest = first_group(hunks.drop_last());
        match (hunks.last().group, rest) {
            (Some(g), Some(r)) => Some(if g < r { g } else { r }),
            (Some(g), None) => Some(g),
            (None, r) => r,
        }
    }
}

/// The lines of `lines` the matcher finds something on, in order.
pub open spec fn matching_lines(pattern: Seq<char>, folded: bool, lines: Seq<Seq<char>>) -> Seq<int>
    decreases lines.len(),
{
    if lines.len() == 0 {
        Seq::empty()
    } else {
        let before = matching_lines(pattern, folded, lines.drop_last());
        if regex_first_match(pattern, folded, lines.last()) is Some {
            before.push(lines.len() - 1)
        } else {
            before
        }
    }
}

/// The group that owns a line: its hunk's, or the file's first group.
pub open spec fn line_group(hunks: Seq<Hunk>, line: u32) -> Option<usize> {
    match owner_from(hunks, line, 0) {
        Some(h) => match hunks[h].group {
            Some(g) => Some(g),
            None => first_group(hunks),
        },
        None => first_group(hunks),
    }
}

/// `id tier class` for a line in a hunk, `id tier` for one in none, and
/// nothing where no group owns the line or the plan has no such group.
pub open spec fn badge_text(hunks: Seq<Hunk>, line: u32, names: Seq<(Seq<char>, Seq<char>)>) -> Seq<char> {
    match line_group(hunks, line) {
        Some(g) => if g < names.len() {
            let (id, tier) = names[g as int];
            match owner_from(hunks, line, 0) {
                Some(h) => id + seq![' '] + tier + seq![' '] + hunks[h].class@,
                None => id + seq![' '] + tier,
            }
        } else {
            Seq::empty()
        },
        None => Seq::empty(),
    }
}

/// Whether `o` is what a scan reports for line `i` of `lines` in `path`.
pub open spec fn reports(
    o: Occurrence,
    path: Seq<char>,
    lines: Seq<Seq<char>>,
    i: int,
    hunks: Seq<Hunk>,
    pattern: Seq<char>,
    folded: bool,
    here_path: Option<Seq<char>>,
    here_group: Option<usize>,
    names: Seq<(Seq<char>, Seq<char>)>,
) -> bool {
    let line = (i + 1) as u32;
    let group = line_group(hunks, line);
    let found = regex_first_match(pattern, folded, lines[i]);
    &&& found matches Some((s, e)) && o.hit.start == s && o.hit.end == e
    &&& o.path@ == path
    &&& o.line == line
    &&& o.group == group
    &&& o.badge@ == badge_text(hunks, line, names)
    &&& o.in_hunk == owner_from(hunks, line, 0) is Some
    &&& o.here == (here_path == Some(path) || (group is Some && group == here_group))
}

/// The names of the plan's groups as values.
pub open spec fn names_view(names: Seq<(String, String)>) -> Seq<(Seq<char>, Seq<char>)> {
    names.map_values(|n: (String, String)| (n.0@, n.1@))
}

/// The hunk that holds `line`, if any.
fn owner(hunks: &[Hunk], line: u32) -> (r: Option<usize>)
    ensures
        r matches Some(h) ==> h < hunks@.len(),
        match r {
            Some(h) => owner_from(hunks@, line, 0) == Some(h as int),
            None => owner_from(hunks@, line, 0) is None,
        },
{
    let mut k: usize = 0;
    while k < hunks.len()
        invariant
            k <= hunks@.len(),
            owner_from(hunks@, line, 0) == owner_from(hunks@, line, k as int),
        decreases hunks@.len() - k,
    {
        if hunks[k].holds(line) {
            return Some(k);
        }
        k = k + 1;
    }
    None
}

/// The earliest group among the hunks'.
fn file_group(hunks: &[Hunk]) -> (r: Option<usize>)
    ensures
        r == first_group(hunks@),
{
    let mut best: Option<usize> = None;
    let mut k: usize = 0;
    while k < hunks.len()
        invariant
            k <= hunks@.len(),
            best == first_group(hunks@.take(k as int)),
        decreases hunks@.len() - k,
    {
        assert(hunks@.take(k + 1).drop_last() =~= hunks@.take(k as int));
        best = match (hunks[k].group, best) {
            (Some(g), Some(r)) => Some(if g < r { g } else { r }),
            (Some(g), None) => Some(g),
            (None, r) => r,
        };
        k = k + 1;
    }
    assert(hunks@.take(hunks@.len() as int) =~= hunks@);
    best
}

/// Every line of one file that the matcher finds something on, in line
/// order: where the first hit is, the line's group and badge, and whether it
/// is inside a hunk or where the reader already is.
///
/// `here_path` is the file under the cursor, `here_group` the group being
/// read, and `names` every group's id and tier, by plan position.
pub fn scan_file(
    path: &str,
    lines: &[String],
    hunks: &[Hunk],
    matcher: &Matcher,
    here_path: Option<&str>,
    here_group: Option<usize>,
    names: &[(String, String)],
) -> (out: Vec<Occurrence>)
    requires
        lines@.len() < u32::MAX,
    ensures
        ({
            let texts = lines@.map_values(|l: String| l@);
            let found = matching_lines(matcher.pattern(), matcher.folded(), texts);
            &&& out@.len() == found.len()
            &&& forall|k: int| 0 <= k < found.len() ==> reports(
                #[trigger] out@[k], path@, texts, found[k], hunks@, matcher.pattern(), matcher.folded(),
                match here_path { Some(p) => Some(p@), None => None }, here_group, names_view(names@))
        }),
        forall|k: int| 0 <= k < out@.len() && !(#[trigger] out@[k]).in_hunk ==> match out@[k].group {
            Some(g) => (exists|j: int| 0 <= j < hunks@.len() && hunks@[j].group == Some(g))
                && forall|j: int| 0 <= j < hunks@.len() ==> (#[trigger] hunks@[j].group matches Some(h) ==> g <= h),
            None => forall|j: int| 0 <= j < hunks@.len() ==> (#[trigger] hunks@[j].group) is None,
        },
{
    let ghost texts = lines@.map_values(|l: String| l@);
    let ghost here_text: Option<Seq<char>> = match here_path { Some(p) => Some(p@), None => None };
    let here_file = match here_path {
        Some(p) => crate::strings::same_text(p, path),
        None => false,
    };
    assert(here_file == (here_text == Some(path@)));
    let fallback = file_group(hunks);
    let mut out: Vec<Occurrence> = Vec::new();
    let mut i: usize = 0;
    assert(texts.take(0) =~= Seq::<Seq<char>>::empty());
    while i < lines.len()
        invariant
            i <= lines@.len() < u32::MAX,
            texts == lines@.map_values(|l: String| l@),
            here_file == (here_text == Some(path@)),
            fallback == first_group(hunks@),
            out@.len() == matching_lines(matcher.pattern(), matcher.folded(), texts.take(i as int)).len(),
            forall|k: int| 0 <= k < out@.len() ==> reports(
                #[trigger] out@[k], path@, texts,
                matching_lines(matcher.pattern(), matcher.folded(), texts.take(i as int))[k], hunks@,
                matcher.pattern(), matcher.folded(), here_text, here_group, names_view(names@)),
        decreases lines@.len() - i,
    {
        let ghost before = matching_lines(matcher.pattern(), matcher.folded(), texts.take(i as int));
        assert(texts.take(i + 1).drop_last() =~= texts.take(i as int));
        assert(texts.take(i + 1).last() == lines@[i as int]@);
        assert(texts[i as int] == lines@[i as int]@);
        let found = matcher.find(lines[i].as_str());
        let ghost after = matching_lines(matcher.pattern(), matcher.folded(), texts.take(i + 1));
        proof {
            if found is Some {
                assert(after =~= before.push(i as int));
            } else {
                assert(after =~= before);
            }
        }
        match found {
            None => {},
            Some((start, end)) => {
                let line = (i as u32) + 1;
                assert(line == (i + 1) as u32);
                let held = owner(hunks, line);
                let group = match held {
                    Some(h) => match hunks[h].group {
                        Some(g) => Some(g),
                        None => fallback,
                    },
                    None => fallback,
                };
                let mut badge = String::new();
                match group {
                    Some(g) => {
                        if g < names.len() {
                            let ghost n = names_view(names@)[g as int];
                            assert(n == (names@[g as int].0@, names@[g as int].1@));
                            badge.append(names[g].0.as_str());
                            crate::strings::push_char(&mut badge, ' ');
                            badge.append(names[g].1.as_str());
                            match held {
                                Some(h) => {
                                    crate::strings::push_char(&mut badge, ' ');
                                    badge.append(hunks[h].class.as_str());
                                },
                                None => {},
                            }
                        }
                    },
                    None => {},
                }
                let here = here_file || (group.is_some() && group == here_group);
                let o = Occurrence {
                    path: path.to_string(),
                    line,
                    hit: start..end,
                    group,
                    badge,
                    here,
                    in_hunk: held.is_some(),
                };
                assert(o.path@ == path@);
                assert(o.line == (i + 1) as u32);
                assert(o.group == line_group(hunks@, line));
                assert(o.badge@ == badge_text(hunks@, line, names_view(names@)));
                assert(o.in_hunk == owner_from(hunks@, line, 0) is Some);
                assert(o.here == (here_text == Some(path@) || (o.group is Some && o.group == here_group)));
                assert(reports(o, path@, texts, i as int, hunks@, matcher.pattern(), matcher.folded(), here_text, here_group, names_view(names@)));
                out.push(o);
            },
        }
        assert forall|k: int| 0 <= k < out@.len() implies reports(
            #[trigger] out@[k], path@, texts, after[k], hunks@,
            matcher.pattern(), matcher.folded(), here_text, here_group, names_view(names@)) by {
            if k < before.len() {
                assert(after[k] == before[k]);
            }
        }
        i = i + 1;
    }
    assert(texts.take(texts.len() as int) =~= texts);
    proof {
        let found = matching_lines(matcher.pattern(), matcher.folded(), texts);
        assert forall|k: int| 0 <= k < out@.len() && !(#[trigger] out@[k]).in_hunk implies match out@[k].group {
            Some(g) => (exists|j: int| 0 <= j < hunks@.len() && hunks@[j].group == Some(g))
                && forall|j: int| 0 <= j < hunks@.len() ==> (#[trigger] hunks@[j].group matches Some(h) ==> g <= h),
            None => forall|j: int| 0 <= j < hunks@.len() ==> (#[trigger] hunks@[j].group) is None,
        } by {
            lemma_a_line_in_no_hunk_takes_the_files_first_group(out@[k], path@, texts, found[k], hunks@,
                matcher.pattern(), matcher.folded(), here_text, here_group, names_view(names@));
        }
    }
    out
}

/// The least group among the hunks is one of theirs and no hunk's is less;
/// with no hunk in a group there is none.
proof fn lemma_first_group_is_least(hunks: Seq<Hunk>)
    ensures
        match first_group(hunks) {
            Some(g) => (exists|k: int| 0 <= k < hunks.len() && hunks[k].group == Some(g))
                && forall|k: int| 0 <= k < hunks.len() ==> (#[trigger] hunks[k].group matches Some(h) ==> g <= h),
            None => forall|k: int| 0 <= k < hunks.len() ==> (#[trigger] hunks[k].group) is None,
        },
    decreases hunks.len(),
{
    if hunks.len() > 0 {
        let rest = hunks.drop_last();
        lemma_first_group_is_least(rest);
        let n = hunks.len() - 1;
        assert forall|k: int| 0 <= k < n implies hunks[k] == rest[k] by {}
        match first_group(rest) {
            Some(r) => {
                let w = choose|k: int| 0 <= k < rest.len() && rest[k].group == Some(r);
                assert(hunks[w] == rest[w]);
            },
            None => {},
        }
        assert forall|k: int| 0 <= k < hunks.len() implies (#[trigger] hunks[k].group matches Some(h) ==> first_group(hunks)->0 <= h)
            || first_group(hunks) is None by {
            if k < n {
                assert(hunks[k] == rest[k]);
            }
        }
    }
}

/// A hit on a line in no hunk is reported in the file's first group by plan
/// order: the least group any of the file's hunks is in, so it is one of
/// those groups and no hunk of the file is in an earlier one; a file none of
/// whose hunks is in a group gives the hit no group.
pub proof fn lemma_a_line_in_no_hunk_takes_the_files_first_group(
    o: Occurrence,
    path: Seq<char>,
    lines: Seq<Seq<char>>,
    i: int,
    hunks: Seq<Hunk>,
    pattern: Seq<char>,
    folded: bool,
    here_path: Option<Seq<char>>,
    here_group: Option<usize>,
    names: Seq<(Seq<char>, Seq<char>)>,
)
    requires
        reports(o, path, lines, i, hunks, pattern, folded, here_path, here_group, names),
        !o.in_hunk,
    ensures
        match o.group {
            Some(g) => (exists|k: int| 0 <= k < hunks.len() && hunks[k].group == Some(g))
                && forall|k: int| 0 <= k < hunks.len() ==> (#[trigger] hunks[k].group matches Some(h) ==> g <= h),
            None => forall|k: int| 0 <= k < hunks.len() ==> (#[trigger] hunks[k].group) is None,
        },
{
    lemma_first_group_is_least(hunks);
}

} // verus!
