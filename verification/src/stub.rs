//! A symbol reader for tests that need SOME symbols to exist.
//!
//! A double, not a copy of any shipped reader. It claims every path, and it
//! answers with a rule crude enough to state in one line: a declaration
//! keyword defines the name after it, and any word of four characters or more
//! is a reference. A declaration runs to the line before the next one, or to
//! the end of the file.
use vstd::prelude::*;

use crate::lines::{split, split_lines};
use crate::symbols::{row_view, rows_view, FileSymbols, Scope, Site, Symbol, SymbolView};
use vstd::utf8::{encode_utf8, valid_utf8};

verus! {

/// A byte of a word: an ASCII letter or digit, or `_`.
pub open spec fn word_byte(b: u8) -> bool {
    (48 <= b <= 57) || (65 <= b <= 90) || (97 <= b <= 122) || b == 95
}

/// The words of `line` as byte ranges, left to right: its longest runs of
/// word bytes.
pub open spec fn word_spans(line: Seq<u8>) -> Seq<(int, int)>
    decreases line.len(),
{
    if line.len() == 0 {
        Seq::empty()
    } else {
        let before = word_spans(line.drop_last());
        let n = line.len() - 1;
        if !word_byte(line.last()) {
            before
        } else if before.len() > 0 && before.last().1 == n {
            before.update(before.len() - 1, (before.last().0, n + 1))
        } else {
            before.push((n, n + 1))
        }
    }
}

/// The words the stub reads on `line`: none on a line that is not UTF-8.
pub open spec fn stub_words(line: Seq<u8>) -> Seq<(int, int)> {
    if valid_utf8(line) { word_spans(line) } else { Seq::empty() }
}

/// The declaration keywords.
pub open spec fn stub_keywords() -> Seq<Seq<char>> {
    seq![
        "fn"@, "struct"@, "enum"@, "trait"@, "class"@, "interface"@, "type"@, "def"@, "func"@,
        "impl"@, "const"@, "static"@, "mod"@, "module"@, "package"@, "protocol"@,
    ]
}

/// Whether the bytes `w` spell a declaration keyword.
pub open spec fn is_keyword(w: Seq<u8>) -> bool {
    exists|k: int| 0 <= k < stub_keywords().len() && encode_utf8(#[trigger] stub_keywords()[k]) == w
}

/// Where `w` first occurs in `line` at or after `i`.
pub open spec fn find_from(line: Seq<u8>, w: Seq<u8>, i: int) -> Option<int>
    decreases line.len() + 1 - i,
{
    if i < 0 || i + w.len() > line.len() {
        None
    } else if line.subrange(i, i + w.len()) == w {
        Some(i)
    } else {
        find_from(line, w, i + 1)
    }
}

/// The bytes a span covers.
pub open spec fn span_bytes(line: Seq<u8>, sp: (int, int)) -> Seq<u8> {
    line.subrange(sp.0, sp.1)
}

/// A global symbol named `name`, standing at bytes `start..start + |name|`.
pub open spec fn placed(name: Seq<u8>, start: int) -> SymbolView {
    SymbolView { name, scope: Scope::Global, site: Site { start: start as u32, end: (start + name.len()) as u32, through: 0 } }
}

/// The names the keyword pairs among the first `k` words of `line` define:
/// each at the first place its text occurs in the line.
pub open spec fn pair_defines(line: Seq<u8>, ws: Seq<(int, int)>, k: int) -> Seq<SymbolView>
    decreases k,
{
    if k <= 1 {
        Seq::empty()
    } else {
        let name = span_bytes(line, ws[k - 1]);
        pair_defines(line, ws, k - 1) + if is_keyword(span_bytes(line, ws[k - 2])) && name.len() >= 3 {
            seq![placed(name, match find_from(line, name, 0) { Some(p) => p, None => 0 })]
        } else {
            Seq::<SymbolView>::empty()
        }
    }
}

/// What the stub says `line` defines, before extents are known.
pub open spec fn stub_defines(line: Seq<u8>) -> Seq<SymbolView> {
    pair_defines(line, stub_words(line), stub_words(line).len() as int)
}

/// Whether a word is long enough to count as a reference and does not start
/// with a digit.
pub open spec fn referable(w: Seq<u8>) -> bool {
    w.len() >= 4 && !(48 <= w[0] <= 57)
}

/// The references among the first `k` words of `line`, each at its own place.
pub open spec fn word_references(line: Seq<u8>, ws: Seq<(int, int)>, k: int) -> Seq<SymbolView>
    decreases k,
{
    if k <= 0 {
        Seq::empty()
    } else {
        let name = span_bytes(line, ws[k - 1]);
        word_references(line, ws, k - 1) + if referable(name) {
            seq![placed(name, ws[k - 1].0)]
        } else {
            Seq::<SymbolView>::empty()
        }
    }
}

/// What the stub says `line` reads.
pub open spec fn stub_references(line: Seq<u8>) -> Seq<SymbolView> {
    word_references(line, stub_words(line), stub_words(line).len() as int)
}

/// The first line at or after `from` that defines something, or the number
/// of lines when none does.
pub open spec fn next_defining(rows: Seq<Seq<SymbolView>>, from: int) -> int
    decreases rows.len() - from,
{
    if from < 0 || from >= rows.len() {
        rows.len() as int
    } else if rows[from].len() > 0 {
        from
    } else {
        next_defining(rows, from + 1)
    }
}

/// The same symbols, each declaration running to line `line`.
pub open spec fn running_to(row: Seq<SymbolView>, line: int) -> Seq<SymbolView> {
    row.map_values(|s: SymbolView| SymbolView { name: s.name, scope: s.scope, site: Site { start: s.site.start, end: s.site.end, through: line as u32 } })
}

/// Every line's definitions, each running to the line before the next
/// line that defines something, or to the end of the file.
pub open spec fn stub_file_defines(content: Seq<u8>) -> Seq<Seq<SymbolView>> {
    let raw = split_lines(content).map_values(|l: Seq<u8>| stub_defines(l));
    Seq::new(raw.len(), |i: int| running_to(raw[i], next_defining(raw, i + 1)))
}

/// Calls `std::str::from_utf8(bytes).is_ok()`: std documents that it succeeds
/// exactly on valid UTF-8.
#[verifier::external_body]
fn is_utf8(bytes: &[u8]) -> (r: bool)
    ensures
        r == valid_utf8(bytes@),
{
    std::str::from_utf8(bytes).is_ok()
}

/// Whether `b` is a word byte.
fn is_word_byte(b: u8) -> (r: bool)
    ensures
        r == word_byte(b),
{
    (48 <= b && b <= 57) || (65 <= b && b <= 90) || (97 <= b && b <= 122) || b == 95
}

/// The ranges of spans as integers.
pub open spec fn spans_view(v: Seq<(usize, usize)>) -> Seq<(int, int)> {
    v.map_values(|p: (usize, usize)| (p.0 as int, p.1 as int))
}

/// The words of `line`, as byte ranges.
fn words_of(line: &[u8]) -> (out: Vec<(usize, usize)>)
    ensures
        spans_view(out@) == word_spans(line@),
        forall|k: int| 0 <= k < out@.len() ==> (#[trigger] out@[k]).0 < out@[k].1 <= line@.len(),
{
    let mut out: Vec<(usize, usize)> = Vec::new();
    let mut i: usize = 0;
    assert(line@.take(0) =~= Seq::<u8>::empty());
    while i < line.len()
        invariant
            i <= line@.len(),
            spans_view(out@) == word_spans(line@.take(i as int)),
            forall|k: int| 0 <= k < out@.len() ==> (#[trigger] out@[k]).0 < out@[k].1 <= i,
        decreases line@.len() - i,
    {
        let ghost before = spans_view(out@);
        assert(line@.take(i + 1).drop_last() =~= line@.take(i as int));
        assert(line@.take(i + 1).last() == line@[i as int]);
        if is_word_byte(line[i]) {
            let n = out.len();
            if n > 0 && out[n - 1].1 == i {
                let first = out[n - 1].0;
                out.set(n - 1, (first, i + 1));
                assert(spans_view(out@) =~= before.update(before.len() - 1, (before.last().0, i + 1)));
            } else {
                out.push((i, i + 1));
                assert(spans_view(out@) =~= before.push((i as int, i + 1)));
            }
        }
        i = i + 1;
    }
    assert(i == line@.len());
    assert(line@.take(line@.len() as int) =~= line@);
    out
}

/// Whether `a` and `b` hold the same bytes.
fn same_bytes(a: &[u8], b: &[u8]) -> (r: bool)
    ensures
        r == (a@ == b@),
{
    if a.len() != b.len() {
        return false;
    }
    let mut i: usize = 0;
    while i < a.len()
        invariant
            i <= a@.len() == b@.len(),
            forall|k: int| 0 <= k < i ==> a@[k] == b@[k],
        decreases a@.len() - i,
    {
        if a[i] != b[i] {
            return false;
        }
        i = i + 1;
    }
    assert(a@ =~= b@);
    true
}

/// The keywords, as the table above.
fn keywords() -> (r: &'static [&'static str])
    ensures
        r@.map_values(|k: &str| k@) == stub_keywords(),
{
    let r: &'static [&'static str] = &[
        "fn", "struct", "enum", "trait", "class", "interface", "type", "def", "func", "impl", "const",
        "static", "mod", "module", "package", "protocol",
    ];
    assert(r@.map_values(|k: &str| k@) =~= stub_keywords());
    r
}

/// Whether `w` spells a declaration keyword.
fn keyword(w: &[u8]) -> (r: bool)
    ensures
        r == is_keyword(w@),
{
    let table = keywords();
    let mut k: usize = 0;
    while k < table.len()
        invariant
            k <= table@.len(),
            table@.map_values(|k: &str| k@) == stub_keywords(),
            forall|j: int| 0 <= j < k ==> encode_utf8(#[trigger] stub_keywords()[j]) != w@,
        decreases table@.len() - k,
    {
        assert(stub_keywords()[k as int] == table@[k as int]@);
        if same_bytes(table[k].as_bytes(), w) {
            return true;
        }
        k = k + 1;
    }
    false
}

/// Where `w` first occurs in `line`.
fn find_bytes(line: &[u8], w: &[u8]) -> (r: Option<usize>)
    ensures
        r matches Some(p) ==> p + w@.len() <= line@.len(),
        match r {
            Some(p) => find_from(line@, w@, 0) == Some(p as int),
            None => find_from(line@, w@, 0) is None,
        },
{
    if w.len() == 0 {
        assert(line@.subrange(0, 0) =~= w@);
        return Some(0);
    }
    if w.len() > line.len() {
        return None;
    }
    let last = line.len() - w.len();
    let mut i: usize = 0;
    while i <= last
        invariant
            i <= last + 1,
            last + w@.len() == line@.len(),
            last + w.len() == line.len(),
            w@.len() >= 1,
            find_from(line@, w@, 0) == find_from(line@, w@, i as int),
        decreases last + 1 - i,
    {
        let piece = vstd::slice::slice_subrange(line, i, i + w.len());
        if same_bytes(piece, w) {
            return Some(i);
        }
        i = i + 1;
    }
    None
}

/// The names the keyword pairs on `line` define, with no extent yet.
fn line_defines(line: &[u8]) -> (out: Vec<Symbol>)
    ensures
        row_view(out@) == stub_defines(line@),
{
    let mut out: Vec<Symbol> = Vec::new();
    if !is_utf8(line) {
        assert(row_view(out@) =~= stub_defines(line@));
        return out;
    }
    let ws = words_of(line);
    let ghost spans = spans_view(ws@);
    let mut k: usize = 1;
    assert(row_view(out@) =~= pair_defines(line@, spans, 1));
    if ws.len() == 0 {
        assert(row_view(out@) =~= pair_defines(line@, spans, 0));
        return out;
    }
    while k < ws.len()
        invariant
            1 <= k <= ws@.len(),
            line@.len() == line.len(),
            spans == spans_view(ws@),
            spans == stub_words(line@),
            forall|j: int| 0 <= j < ws@.len() ==> (#[trigger] ws@[j]).0 < ws@[j].1 <= line@.len(),
            row_view(out@) == pair_defines(line@, spans, k as int),
        decreases ws@.len() - k,
    {
        let (s0, e0) = ws[k - 1];
        let (s1, e1) = ws[k];
        assert(spans[k - 1] == (s0 as int, e0 as int));
        assert(spans[k as int] == (s1 as int, e1 as int));
        let first = vstd::slice::slice_subrange(line, s0, e0);
        let name = vstd::slice::slice_subrange(line, s1, e1);
        let ghost before = row_view(out@);
        if keyword(first) && name.len() >= 3 {
            let at = match find_bytes(line, name) {
                Some(p) => p,
                None => 0,
            };
            let sym = Symbol::global(vstd::slice::slice_to_vec(name)).at(at as u32, (at + name.len()) as u32);
            out.push(sym);
            assert(row_view(out@) =~= before.push(placed(name@, at as int)));
        }
        assert(row_view(out@) =~= pair_defines(line@, spans, k + 1));
        k = k + 1;
    }
    out
}

/// The references on `line`, each at its own place.
fn line_references(line: &[u8]) -> (out: Vec<Symbol>)
    ensures
        row_view(out@) == stub_references(line@),
{
    let mut out: Vec<Symbol> = Vec::new();
    if !is_utf8(line) {
        assert(row_view(out@) =~= stub_references(line@));
        return out;
    }
    let ws = words_of(line);
    let ghost spans = spans_view(ws@);
    let mut k: usize = 0;
    assert(row_view(out@) =~= word_references(line@, spans, 0));
    while k < ws.len()
        invariant
            k <= ws@.len(),
            line@.len() == line.len(),
            spans == spans_view(ws@),
            spans == stub_words(line@),
            forall|j: int| 0 <= j < ws@.len() ==> (#[trigger] ws@[j]).0 < ws@[j].1 <= line@.len(),
            row_view(out@) == word_references(line@, spans, k as int),
        decreases ws@.len() - k,
    {
        let (s, e) = ws[k];
        assert(spans[k as int] == (s as int, e as int));
        let name = vstd::slice::slice_subrange(line, s, e);
        let ghost before = row_view(out@);
        if name.len() >= 4 && !(48 <= name[0] && name[0] <= 57) {
            let sym = Symbol::global(vstd::slice::slice_to_vec(name)).at(s as u32, (s + name.len()) as u32);
            out.push(sym);
            assert(row_view(out@) =~= before.push(placed(name@, s as int)));
        }
        assert(row_view(out@) =~= word_references(line@, spans, k + 1));
        k = k + 1;
    }
    out
}

/// The stub reader.
pub struct StubSymbols;

impl StubSymbols {
    /// Every path is claimed, at the floor.
    pub fn priority(&self, path: &[u8]) -> (r: Option<u8>)
        ensures
            r == Some(1u8),
    {
        Some(1)
    }

    /// Every line's definitions and references, one row per piece of
    /// `content` between `\n` bytes; each definition runs to the line before
    /// the next line that defines something, or to the end of the file.
    pub fn file_symbols(&self, path: &[u8], content: &[u8]) -> (r: Option<FileSymbols>)
        ensures
            r is Some,
            r matches Some(s) ==> {
                &&& s.namespace@ == Seq::<u8>::empty()
                &&& rows_view(s.defines@) == stub_file_defines(content@)
                &&& rows_view(s.references@) == split_lines(content@).map_values(|l: Seq<u8>| stub_references(l))
            },
    {
        let lines = split(content);
        let ghost pieces = split_lines(content@);
        let ghost raw_view = pieces.map_values(|l: Seq<u8>| stub_defines(l));
        let mut raw: Vec<Vec<Symbol>> = Vec::new();
        let mut refs: Vec<Vec<Symbol>> = Vec::new();
        let mut i: usize = 0;
        while i < lines.len()
            invariant
                i <= lines@.len(),
                lines@.map_values(|l: &[u8]| l@) == pieces,
                raw_view == pieces.map_values(|l: Seq<u8>| stub_defines(l)),
                rows_view(raw@) == raw_view.take(i as int),
                rows_view(refs@) == pieces.take(i as int).map_values(|l: Seq<u8>| stub_references(l)),
            decreases lines@.len() - i,
        {
            assert(lines@[i as int]@ == pieces[i as int]);
            let ghost d0 = rows_view(raw@);
            let ghost r0 = rows_view(refs@);
            raw.push(line_defines(lines[i]));
            refs.push(line_references(lines[i]));
            assert(pieces.take(i + 1) =~= pieces.take(i as int).push(pieces[i as int]));
            assert(rows_view(raw@) =~= d0.push(stub_defines(pieces[i as int])));
            assert(raw_view.take(i + 1) =~= raw_view.take(i as int).push(stub_defines(pieces[i as int])));
            assert(rows_view(refs@) =~= r0.push(stub_references(pieces[i as int])));
            i = i + 1;
        }
        assert(pieces.take(pieces.len() as int) =~= pieces);
        assert(raw_view.take(raw_view.len() as int) =~= raw_view);
        let n = raw.len();
        // The line each line's declarations run to, found from the end.
        let mut ends: Vec<usize> = Vec::new();
        let mut k: usize = 0;
        while k < n
            invariant
                k <= n,
                ends@.len() == k,
            decreases n - k,
        {
            ends.push(n);
            k = k + 1;
        }
        let mut next: usize = n;
        let mut j: usize = n;
        while j > 0
            invariant
                j <= n == raw@.len() == ends@.len(),
                rows_view(raw@) == raw_view,
                next == next_defining(raw_view, j as int),
                next <= n,
                forall|q: int| j <= q < n ==> #[trigger] ends@[q] == next_defining(raw_view, q + 1),
            decreases j,
        {
            j = j - 1;
            ends.set(j, next);
            assert(row_view(raw@[j as int]@) == raw_view[j as int]);
            if raw[j].len() > 0 {
                next = j;
            }
        }
        let mut defines: Vec<Vec<Symbol>> = Vec::new();
        let mut q: usize = 0;
        while q < n
            invariant
                q <= n == raw@.len() == ends@.len(),
                rows_view(raw@) == raw_view,
                forall|p: int| 0 <= p < n ==> #[trigger] ends@[p] == next_defining(raw_view, p + 1),
                defines@.len() == q,
                forall|p: int| 0 <= p < q ==> #[trigger] row_view(defines@[p]@) == running_to(raw_view[p], next_defining(raw_view, p + 1)),
            decreases n - q,
        {
            let row = &raw[q];
            assert(row_view(row@) == raw_view[q as int]);
            let mut placed_row: Vec<Symbol> = Vec::new();
            let mut m: usize = 0;
            while m < row.len()
                invariant
                    m <= row@.len(),
                    q < ends@.len(),
                    row_view(placed_row@) == running_to(row_view(row@).take(m as int), ends@[q as int] as int),
                decreases row@.len() - m,
            {
                let s = &row[m];
                let ghost before = row_view(placed_row@);
                let name = vstd::slice::slice_to_vec(s.name.as_slice());
                assert(name@ == s.name@);
                let sym = Symbol {
                    name,
                    scope: s.scope,
                    site: Site { start: s.site.start, end: s.site.end, through: ends[q] as u32 },
                };
                assert(row_view(row@)[m as int] == s@);
                assert(sym@ == (SymbolView { name: s@.name, scope: s@.scope, site: Site { start: s@.site.start, end: s@.site.end, through: (ends@[q as int] as int) as u32 } }));
                placed_row.push(sym);
                assert(row_view(placed_row@) =~= before.push(sym@));
                assert(row_view(row@).take(m + 1) =~= row_view(row@).take(m as int).push(row_view(row@)[m as int]));
                assert(row_view(placed_row@) =~= running_to(row_view(row@).take(m + 1), ends@[q as int] as int));
                m = m + 1;
            }
            assert(row_view(row@).take(row@.len() as int) =~= row_view(row@));
            defines.push(placed_row);
            q = q + 1;
        }
        assert(rows_view(defines@) =~= stub_file_defines(content@));
        Some(FileSymbols { namespace: Vec::new(), defines, references: refs })
    }

    /// Bumped whenever what this reader answers changes.
    pub fn fingerprint(&self) -> (r: String)
        ensures
            r@ == "stub-symbols-v3"@,
    {
        "stub-symbols-v3".to_string()
    }
}

} // verus!
