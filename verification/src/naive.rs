//! The crude reader: one regex pass per line, no parser.
//!
//! It reads only files whose extension names a language. A `Cargo.toml`, a
//! `README.md` or a lockfile is claimed by nobody and contributes nothing.
//! Ranked below anything that actually parses, it is the floor every other
//! reader falls back to.
use vstd::prelude::*;

use crate::lines::{split, split_lines};
use crate::namespace::{is_code, of, spec_lookup, spec_namespace};
use crate::patterns::{group1_spans, match_spans, regex_group1_spans, regex_match_spans, spans_within};
use crate::symbols::{copy_symbol, row_view, rows_view, same_symbol, FileSymbols, Scope, Site, Symbol, SymbolView};

verus! {

/// A declaration keyword, then the name it introduces (three characters at
/// least). Byte-level ASCII classes.
pub const DEF_PATTERN: &'static str = "(?-u)\\b(?:fn|struct|enum|trait|class|interface|type|def|func|impl|const|static|mod|module|package|protocol)\\s+([A-Za-z_][A-Za-z0-9_]{2,})";

/// Any identifier of four characters or more.
pub const REF_PATTERN: &'static str = "(?-u)[A-Za-z_][A-Za-z0-9_]{3,}";

/// The symbols a list of spans names on `line`: each the bytes it covers,
/// global, standing at its own columns, with no extent.
pub open spec fn spans_to_symbols(line: Seq<u8>, spans: Seq<(usize, usize)>) -> Seq<SymbolView> {
    spans.map_values(|sp: (usize, usize)| SymbolView {
        name: line.subrange(sp.0 as int, sp.1 as int),
        scope: Scope::Global,
        site: Site { start: sp.0 as u32, end: sp.1 as u32, through: 0 },
    })
}

/// What the crude reader says `line` defines.
pub open spec fn line_definitions(line: Seq<u8>) -> Seq<SymbolView> {
    spans_to_symbols(line, regex_group1_spans(DEF_PATTERN@, line))
}

/// The definitions of `line` that are not already among `found`, in order.
pub open spec fn not_found(found: Seq<SymbolView>, defs: Seq<SymbolView>) -> Seq<SymbolView>
    decreases defs.len(),
{
    if defs.len() == 0 {
        Seq::empty()
    } else {
        let before = not_found(found, defs.drop_last());
        if found.contains(defs.last()) { before } else { before.push(defs.last()) }
    }
}

/// What the crude reader says `line` reads: every identifier the reference
/// pattern finds, then every definition of the line it did not find (a name
/// shorter than the pattern's four characters), so a line's references hold
/// its definitions.
pub open spec fn line_references(line: Seq<u8>) -> Seq<SymbolView> {
    let found = spans_to_symbols(line, regex_match_spans(REF_PATTERN@, line));
    found + not_found(found, line_definitions(line))
}

/// Every definition of a line is one of its references.
pub proof fn lemma_references_hold_the_definitions(line: Seq<u8>)
    ensures
        forall|k: int| 0 <= k < line_definitions(line).len()
            ==> line_references(line).contains(#[trigger] line_definitions(line)[k]),
{
    let found = spans_to_symbols(line, regex_match_spans(REF_PATTERN@, line));
    lemma_not_found_covers(found, line_definitions(line));
    assert forall|k: int| 0 <= k < line_definitions(line).len()
        implies line_references(line).contains(#[trigger] line_definitions(line)[k]) by {
        let d = line_definitions(line)[k];
        let all = line_references(line);
        if found.contains(d) {
            let p = choose|p: int| 0 <= p < found.len() && found[p] == d;
            assert(all[p] == d);
        } else {
            let rest = not_found(found, line_definitions(line));
            let p = choose|p: int| 0 <= p < rest.len() && rest[p] == d;
            assert(all[found.len() + p] == d);
        }
    }
}

/// A definition is found, or kept among those not found.
proof fn lemma_not_found_covers(found: Seq<SymbolView>, defs: Seq<SymbolView>)
    ensures
        forall|k: int| 0 <= k < defs.len() && !found.contains(#[trigger] defs[k]) ==> not_found(found, defs).contains(defs[k]),
    decreases defs.len(),
{
    if defs.len() > 0 {
        let before = not_found(found, defs.drop_last());
        lemma_not_found_covers(found, defs.drop_last());
        assert forall|k: int| 0 <= k < defs.len() && !found.contains(#[trigger] defs[k]) implies not_found(found, defs).contains(defs[k]) by {
            if k < defs.len() - 1 {
                assert(defs.drop_last()[k] == defs[k]);
                let p = choose|p: int| 0 <= p < before.len() && before[p] == defs[k];
                if !found.contains(defs.last()) {
                    assert(before.push(defs.last())[p] == defs[k]);
                }
            } else {
                assert(before.push(defs.last())[before.len() as int] == defs[k]);
            }
        }
    }
}

/// The crude reader. It holds nothing: its rule is the two patterns above.
pub struct NaiveSymbols;

/// Every span as a global symbol at its own columns.
fn global(line: &[u8], spans: Vec<(usize, usize)>) -> (out: Vec<Symbol>)
    requires
        spans_within(spans@, line@.len()),
    ensures
        row_view(out@) == spans_to_symbols(line@, spans@),
{
    let mut out: Vec<Symbol> = Vec::new();
    let mut i: usize = 0;
    while i < spans.len()
        invariant
            i <= spans@.len(),
            spans_within(spans@, line@.len()),
            row_view(out@) == spans_to_symbols(line@, spans@.take(i as int)),
        decreases spans@.len() - i,
    {
        let (start, end) = spans[i];
        assert(spans@[i as int].0 <= spans@[i as int].1 <= line@.len());
        let name = vstd::slice::slice_to_vec(vstd::slice::slice_subrange(line, start, end));
        let ghost before = row_view(out@);
        out.push(Symbol::global(name).at(start as u32, end as u32));
        assert(spans@.take(i + 1) =~= spans@.take(i as int).push(spans@[i as int]));
        assert(row_view(out@) =~= before.push(row_view(out@).last()));
        assert(row_view(out@) =~= spans_to_symbols(line@, spans@.take(i + 1)));
        i = i + 1;
    }
    assert(spans@.take(spans@.len() as int) =~= spans@);
    out
}

/// Names introduced by common declaration keywords on `line`.
pub fn definitions(line: &[u8]) -> (out: Vec<Symbol>)
    ensures
        row_view(out@) == line_definitions(line@),
{
    global(line, group1_spans(DEF_PATTERN, line))
}

/// Identifiers used on `line`: a superset of its definitions.
pub fn references(line: &[u8]) -> (out: Vec<Symbol>)
    ensures
        row_view(out@) == line_references(line@),
        forall|k: int| 0 <= k < line_definitions(line@).len()
            ==> row_view(out@).contains(#[trigger] line_definitions(line@)[k]),
{
    let mut out = global(line, match_spans(REF_PATTERN, line));
    let n = out.len();
    let ghost found = row_view(out@);
    let defs = definitions(line);
    let mut k: usize = 0;
    assert(row_view(defs@).take(0) =~= Seq::<SymbolView>::empty());
    assert(row_view(out@) =~= found + not_found(found, row_view(defs@).take(0)));
    while k < defs.len()
        invariant
            k <= defs@.len(),
            n == found.len(),
            n <= out@.len(),
            row_view(out@) == found + not_found(found, row_view(defs@).take(k as int)),
        decreases defs@.len() - k,
    {
        let ghost taken = row_view(defs@).take(k as int);
        assert(row_view(defs@).take(k + 1).drop_last() =~= taken);
        assert(row_view(defs@).take(k + 1).last() == defs@[k as int]@);
        let mut seen = false;
        let mut j: usize = 0;
        while j < n
            invariant
                j <= n,
                k < defs@.len(),
                n == found.len(),
                n <= out@.len(),
                row_view(out@) == found + not_found(found, taken),
                seen == exists|q: int| 0 <= q < j && found[q] == defs@[k as int]@,
            decreases n - j,
        {
            assert(row_view(out@)[j as int] == found[j as int]);
            if same_symbol(&out[j], &defs[k]) {
                seen = true;
            }
            j = j + 1;
        }
        if !seen {
            let ghost before = row_view(out@);
            out.push(copy_symbol(&defs[k]));
            assert(row_view(out@) =~= before.push(defs@[k as int]@));
        }
        assert(row_view(out@) =~= found + not_found(found, row_view(defs@).take(k + 1)));
        k = k + 1;
    }
    assert(row_view(defs@).take(defs@.len() as int) =~= row_view(defs@));
    proof {
        lemma_references_hold_the_definitions(line@);
    }
    out
}

impl NaiveSymbols {
    /// The floor: `Some(1)` for every file the namespace table claims — the
    /// same table every other reader claims from, so the floor stands under
    /// all of them — and nothing for data and prose.
    pub fn priority(&self, path: &[u8]) -> (r: Option<u8>)
        ensures
            r == (if spec_lookup(path@) is Some { Some(1u8) } else { None }),
    {
        if is_code(path) { Some(1) } else { None }
    }

    /// Every line's definitions and references, one row per piece of
    /// `content` between `\n` bytes, in the namespace the table gives `path`.
    /// Never fails: a regex has nothing to choke on.
    pub fn file_symbols(&self, path: &[u8], content: &[u8]) -> (r: Option<FileSymbols>)
        ensures
            r is Some,
            r matches Some(s) ==> {
                &&& s.namespace@ == spec_namespace(path@)
                &&& rows_view(s.defines@) == split_lines(content@).map_values(|l: Seq<u8>| line_definitions(l))
                &&& rows_view(s.references@) == split_lines(content@).map_values(|l: Seq<u8>| line_references(l))
            },
    {
        let lines = split(content);
        let ghost pieces = split_lines(content@);
        let mut defines: Vec<Vec<Symbol>> = Vec::new();
        let mut refs: Vec<Vec<Symbol>> = Vec::new();
        let mut i: usize = 0;
        while i < lines.len()
            invariant
                i <= lines@.len(),
                lines@.map_values(|l: &[u8]| l@) == pieces,
                rows_view(defines@) == pieces.take(i as int).map_values(|l: Seq<u8>| line_definitions(l)),
                rows_view(refs@) == pieces.take(i as int).map_values(|l: Seq<u8>| line_references(l)),
            decreases lines@.len() - i,
        {
            assert(lines@[i as int]@ == pieces[i as int]);
            let ghost d0 = rows_view(defines@);
            let ghost r0 = rows_view(refs@);
            defines.push(definitions(lines[i]));
            refs.push(references(lines[i]));
            assert(pieces.take(i + 1) =~= pieces.take(i as int).push(pieces[i as int]));
            assert(rows_view(defines@) =~= d0.push(line_definitions(pieces[i as int])));
            assert(rows_view(refs@) =~= r0.push(line_references(pieces[i as int])));
            i = i + 1;
        }
        assert(pieces.take(pieces.len() as int) =~= pieces);
        Some(FileSymbols { namespace: of(path), defines, references: refs })
    }

    /// Bumped whenever what this reader answers changes: it keys the grouping
    /// cache.
    pub fn fingerprint(&self) -> (r: String)
        ensures
            r@ == "naive-v4"@,
    {
        "naive-v4".to_string()
    }
}

} // verus!
