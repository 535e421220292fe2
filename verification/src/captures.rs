//! What a query's captures mean, once they are all in hand.
//!
//! A reader with a query collects every capture first and decides after: a
//! definition site is also a type mention — `struct Widget` matches both
//! `@def` and `@type` — and matches arrive in no particular order, so the
//! veto needs every capture at once. Definitions win: a class must never
//! appear to consume the thing it introduces.
use vstd::prelude::*;

use crate::strings::same_text;
use crate::symbols::{row_view, FileSymbols, Scope, Site, Symbol, SymbolView};

verus! {

/// One query capture, with everything the decision needs.
pub struct Capture {
    /// The capture's name in the query: `def`, `local_def`, `call`, `type`,
    /// `ref` or `local_ref`; any other name means nothing here.
    pub name: String,
    /// Zero-based line.
    pub line: usize,
    /// Byte range in the FILE — the identity key the definition veto compares.
    pub range: std::ops::Range<usize>,
    pub text: Vec<u8>,
    /// Byte range within the token's own line.
    pub columns: (u32, u32),
    /// The last line of the declaration a definition introduces.
    pub through: u32,
}

/// Whether a capture named `name` covers exactly `range`.
pub open spec fn has_range(caps: Seq<Capture>, name: Seq<char>, start: usize, end: usize) -> bool {
    exists|k: int| 0 <= k < caps.len() && (#[trigger] caps[k]).name@ == name && caps[k].range.start == start && caps[k].range.end == end
}

/// Whether the token `c` captures is defined somewhere in `caps`, at file
/// scope or locally.
pub open spec fn defined_here(caps: Seq<Capture>, c: Capture) -> bool {
    has_range(caps, "def"@, c.range.start, c.range.end) || has_range(caps, "local_def"@, c.range.start, c.range.end)
}

/// `c`'s text as a symbol of `scope` at its columns, running to `through`.
pub open spec fn symbol_of(c: Capture, scope: Scope, through: u32) -> SymbolView {
    SymbolView { name: c.text@, scope, site: Site { start: c.columns.0, end: c.columns.1, through } }
}

/// What `c` defines: a `def` always, a `local_def` unless a `def` holds the
/// same token.
pub open spec fn definition_of(caps: Seq<Capture>, c: Capture) -> Option<SymbolView> {
    if c.name@ == "def"@ {
        Some(symbol_of(c, Scope::Global, c.through))
    } else if c.name@ == "local_def"@ && !has_range(caps, "def"@, c.range.start, c.range.end) {
        Some(symbol_of(c, Scope::File, c.through))
    } else {
        None
    }
}

/// What `c` reads: a `call`, `type` or `ref` globally, a `local_ref` within
/// the file — and nothing for a token some capture defines.
pub open spec fn reference_of(caps: Seq<Capture>, c: Capture) -> Option<SymbolView> {
    if defined_here(caps, c) {
        None
    } else if c.name@ == "call"@ || c.name@ == "type"@ || c.name@ == "ref"@ {
        Some(symbol_of(c, Scope::Global, 0))
    } else if c.name@ == "local_ref"@ {
        Some(symbol_of(c, Scope::File, 0))
    } else {
        None
    }
}

/// The definitions the first captures of `prefix` make on line `i`, in
/// capture order.
pub open spec fn defines_on(caps: Seq<Capture>, prefix: Seq<Capture>, i: int) -> Seq<SymbolView>
    decreases prefix.len(),
{
    if prefix.len() == 0 {
        Seq::empty()
    } else {
        let c = prefix.last();
        defines_on(caps, prefix.drop_last(), i) + match definition_of(caps, c) {
            Some(s) => if c.line == i { seq![s] } else { Seq::<SymbolView>::empty() },
            None => Seq::<SymbolView>::empty(),
        }
    }
}

/// The references the first captures of `prefix` make on line `i`, in
/// capture order.
pub open spec fn references_on(caps: Seq<Capture>, prefix: Seq<Capture>, i: int) -> Seq<SymbolView>
    decreases prefix.len(),
{
    if prefix.len() == 0 {
        Seq::empty()
    } else {
        let c = prefix.last();
        references_on(caps, prefix.drop_last(), i) + match reference_of(caps, c) {
            Some(s) => if c.line == i { seq![s] } else { Seq::<SymbolView>::empty() },
            None => Seq::<SymbolView>::empty(),
        }
    }
}

/// Whether a capture named `name` covers exactly `start..end`.
fn holds_range(caps: &[Capture], name: &str, start: usize, end: usize) -> (r: bool)
    ensures
        r == has_range(caps@, name@, start, end),
{
    let mut k: usize = 0;
    while k < caps.len()
        invariant
            k <= caps@.len(),
            forall|j: int| 0 <= j < k ==> !((#[trigger] caps@[j]).name@ == name@ && caps@[j].range.start == start && caps@[j].range.end == end),
        decreases caps@.len() - k,
    {
        if caps[k].range.start == start && caps[k].range.end == end && same_text(caps[k].name.as_str(), name) {
            return true;
        }
        k = k + 1;
    }
    false
}

/// A copy of a capture's text as a symbol.
fn make_symbol(c: &Capture, scope: Scope, through: u32) -> (s: Symbol)
    ensures
        s@ == symbol_of(*c, scope, through),
{
    let name = vstd::slice::slice_to_vec(c.text.as_slice());
    Symbol { name, scope, site: Site { start: c.columns.0, end: c.columns.1, through } }
}

/// Every line's definitions and references, in the namespace given, as the
/// captures decide them: `lines` rows of each, a capture on a line past the
/// last dropped.
pub fn symbols_from_captures(caps: &[Capture], lines: usize, namespace: Vec<u8>) -> (out: FileSymbols)
    ensures
        out.namespace@ == namespace@,
        out.defines@.len() == lines,
        out.references@.len() == lines,
        forall|i: int| 0 <= i < lines ==> row_view(#[trigger] out.defines@[i]@) == defines_on(caps@, caps@, i),
        forall|i: int| 0 <= i < lines ==> row_view(#[trigger] out.references@[i]@) == references_on(caps@, caps@, i),
        forall|i: int, r: int| 0 <= i < lines && 0 <= r < out.references@[i]@.len() ==> read_from_undefined(
            caps@, #[trigger] row_view(out.references@[i]@)[r], i, reference_source(caps@, caps@, i, r)),
{
    let mut defines: Vec<Vec<Symbol>> = Vec::new();
    let mut references: Vec<Vec<Symbol>> = Vec::new();
    let mut i: usize = 0;
    while i < lines
        invariant
            i <= lines,
            defines@.len() == i,
            references@.len() == i,
            forall|j: int| 0 <= j < i ==> (#[trigger] defines@[j])@.len() == 0,
            forall|j: int| 0 <= j < i ==> (#[trigger] references@[j])@.len() == 0,
        decreases lines - i,
    {
        defines.push(Vec::new());
        references.push(Vec::new());
        i = i + 1;
    }
    let mut k: usize = 0;
    assert(caps@.take(0) =~= Seq::<Capture>::empty());
    assert forall|j: int| 0 <= j < lines implies row_view(#[trigger] defines@[j]@) == defines_on(caps@, caps@.take(0), j) by {
        assert(row_view(defines@[j]@) =~= Seq::<SymbolView>::empty());
    }
    assert forall|j: int| 0 <= j < lines implies row_view(#[trigger] references@[j]@) == references_on(caps@, caps@.take(0), j) by {
        assert(row_view(references@[j]@) =~= Seq::<SymbolView>::empty());
    }
    while k < caps.len()
        invariant
            k <= caps@.len(),
            defines@.len() == lines,
            references@.len() == lines,
            forall|j: int| 0 <= j < lines ==> row_view(#[trigger] defines@[j]@) == defines_on(caps@, caps@.take(k as int), j),
            forall|j: int| 0 <= j < lines ==> row_view(#[trigger] references@[j]@) == references_on(caps@, caps@.take(k as int), j),
        decreases caps@.len() - k,
    {
        let c = &caps[k];
        let ghost prefix = caps@.take(k + 1);
        assert(prefix.drop_last() =~= caps@.take(k as int));
        assert(prefix.last() == caps@[k as int]);
        let in_def = holds_range(caps, "def", c.range.start, c.range.end);
        let in_local = holds_range(caps, "local_def", c.range.start, c.range.end);
        let is_a_definition = in_def || in_local;
        let line = c.line;
        let ghost before_d = defines@;
        let ghost before_r = references@;
        if line < lines {
            if same_text(c.name.as_str(), "def") {
                defines[line].push(make_symbol(c, Scope::Global, c.through));
            } else if same_text(c.name.as_str(), "local_def") && !in_def {
                defines[line].push(make_symbol(c, Scope::File, c.through));
            } else if !is_a_definition && (same_text(c.name.as_str(), "call") || same_text(c.name.as_str(), "type")
                || same_text(c.name.as_str(), "ref")) {
                references[line].push(make_symbol(c, Scope::Global, 0));
            } else if !is_a_definition && same_text(c.name.as_str(), "local_ref") {
                references[line].push(make_symbol(c, Scope::File, 0));
            }
        }
        assert forall|j: int| 0 <= j < lines implies row_view(#[trigger] defines@[j]@) == defines_on(caps@, prefix, j) by {
            if j == line {
                assert(row_view(defines@[j]@) =~= row_view(before_d[j]@) + match definition_of(caps@, caps@[k as int]) {
                    Some(s) => seq![s],
                    None => Seq::<SymbolView>::empty(),
                });
            } else {
                assert(defines@[j] == before_d[j]);
            }
        }
        assert forall|j: int| 0 <= j < lines implies row_view(#[trigger] references@[j]@) == references_on(caps@, prefix, j) by {
            if j == line {
                assert(row_view(references@[j]@) =~= row_view(before_r[j]@) + match reference_of(caps@, caps@[k as int]) {
                    Some(s) => seq![s],
                    None => Seq::<SymbolView>::empty(),
                });
            } else {
                assert(references@[j] == before_r[j]);
            }
        }
        k = k + 1;
    }
    assert(caps@.take(caps@.len() as int) =~= caps@);
    assert forall|i: int, r: int| 0 <= i < lines && 0 <= r < references@[i]@.len() implies read_from_undefined(
        caps@, #[trigger] row_view(references@[i]@)[r], i, reference_source(caps@, caps@, i, r)) by {
        lemma_a_defined_token_is_never_a_reference(caps@, i);
        assert(row_view(references@[i]@) == references_on(caps@, caps@, i));
    }
    FileSymbols { namespace, defines, references }
}

/// Whether capture `m` defines a token, at file scope or locally.
pub open spec fn is_def_capture(m: Capture) -> bool {
    m.name@ == "def"@ || m.name@ == "local_def"@
}

/// Whether `x` is the token of capture `k` on line `i`, and no capture that
/// defines covers that token's byte range.
pub open spec fn read_from_undefined(caps: Seq<Capture>, x: SymbolView, i: int, k: int) -> bool {
    &&& 0 <= k < caps.len()
    &&& caps[k].line == i
    &&& x.name == caps[k].text@
    &&& x.site.start == caps[k].columns.0
    &&& x.site.end == caps[k].columns.1
    &&& forall|m: int| 0 <= m < caps.len() && #[trigger] is_def_capture(caps[m])
        ==> !(caps[m].range.start == caps[k].range.start && caps[m].range.end == caps[k].range.end)
}

/// The capture reference `r` of line `i` was read from, among the first
/// captures of `prefix`: the one it came after the earlier references with.
pub open spec fn reference_source(caps: Seq<Capture>, prefix: Seq<Capture>, i: int, r: int) -> int
    decreases prefix.len(),
{
    if prefix.len() == 0 {
        0
    } else if r < references_on(caps, prefix.drop_last(), i).len() {
        reference_source(caps, prefix.drop_last(), i, r)
    } else {
        prefix.len() - 1
    }
}

/// Every reference the first `n` captures make on line `i` comes from one
/// of them on that line whose byte range no defining capture covers.
proof fn lemma_references_come_from_undefined_tokens(caps: Seq<Capture>, n: int, i: int)
    requires
        0 <= n <= caps.len(),
    ensures
        forall|r: int| 0 <= r < references_on(caps, caps.take(n), i).len() ==> read_from_undefined(
            caps, #[trigger] references_on(caps, caps.take(n), i)[r], i, reference_source(caps, caps.take(n), i, r)),
    decreases n,
{
    if n > 0 {
        lemma_references_come_from_undefined_tokens(caps, n - 1, i);
        let prefix = caps.take(n);
        assert(prefix.drop_last() =~= caps.take(n - 1));
        assert(prefix.last() == caps[n - 1]);
        let before = references_on(caps, caps.take(n - 1), i);
        let now = references_on(caps, prefix, i);
        let c = caps[n - 1];
        assert forall|r: int| 0 <= r < now.len() implies read_from_undefined(
            caps, #[trigger] now[r], i, reference_source(caps, prefix, i, r)) by {
            if r < before.len() {
                assert(now[r] == before[r]);
                assert(reference_source(caps, prefix, i, r) == reference_source(caps, caps.take(n - 1), i, r));
            } else {
                assert(reference_of(caps, c) is Some && c.line == i);
                assert(!defined_here(caps, c));
                assert forall|m: int| 0 <= m < caps.len() && #[trigger] is_def_capture(caps[m])
                    implies !(caps[m].range.start == c.range.start && caps[m].range.end == c.range.end) by {
                    if caps[m].range.start == c.range.start && caps[m].range.end == c.range.end {
                        if caps[m].name@ == "def"@ {
                            assert(has_range(caps, "def"@, c.range.start, c.range.end));
                        } else {
                            assert(has_range(caps, "local_def"@, c.range.start, c.range.end));
                        }
                    }
                }
                assert(reference_source(caps, prefix, i, r) == n - 1);
                assert(read_from_undefined(caps, now[r], i, n - 1));
            }
        }
    }
}

/// Definitions win: no reference of any line is a token that a `def` or a
/// `local_def` capture covers. Every reference read from the captures comes
/// from a capture on that line, with its text and columns, and no capture
/// that defines covers that capture's byte range, so a file never appears to
/// consume the name it introduces.
pub proof fn lemma_a_defined_token_is_never_a_reference(caps: Seq<Capture>, i: int)
    ensures
        forall|r: int| 0 <= r < references_on(caps, caps, i).len() ==> read_from_undefined(
            caps, #[trigger] references_on(caps, caps, i)[r], i, reference_source(caps, caps, i, r)),
{
    lemma_references_come_from_undefined_tokens(caps, caps.len() as int, i);
    assert(caps.take(caps.len() as int) =~= caps);
}

} // verus!
