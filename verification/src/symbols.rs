//! What a symbol reader answers: for every line of a file, the names it
//! defines and the names it reads, each with where on its line it stands.
use vstd::prelude::*;

verus! {

/// How far a name reaches.
#[derive(Debug, Clone, Copy, PartialEq, Eq)]
pub enum Scope {
    /// Beyond its file: compared with every file in the same namespace.
    Global,
    /// Only its own file.
    File,
}

/// Where a name stands: its byte range within its own RAW line, and the last
/// line of the declaration it introduces (zero when nobody can tell).
#[derive(Debug, Clone, Copy, PartialEq, Eq)]
pub struct Site {
    pub start: u32,
    pub end: u32,
    pub through: u32,
}

/// One name a reader found.
#[derive(Debug)]
pub struct Symbol {
    pub name: Vec<u8>,
    pub scope: Scope,
    pub site: Site,
}

/// A symbol as a mathematical value.
pub struct SymbolView {
    pub name: Seq<u8>,
    pub scope: Scope,
    pub site: Site,
}

impl View for Symbol {
    type V = SymbolView;

    open spec fn view(&self) -> SymbolView {
        SymbolView { name: self.name@, scope: self.scope, site: self.site }
    }
}

/// A row of symbols as values.
pub open spec fn row_view(row: Seq<Symbol>) -> Seq<SymbolView> {
    row.map_values(|s: Symbol| s@)
}

/// Rows of symbols as values.
pub open spec fn rows_view(rows: Seq<Vec<Symbol>>) -> Seq<Seq<SymbolView>> {
    rows.map_values(|r: Vec<Symbol>| row_view(r@))
}

impl Symbol {
    /// A name that reaches beyond its file, standing nowhere yet.
    pub fn global(name: Vec<u8>) -> (s: Symbol)
        ensures
            s@ == (SymbolView { name: name@, scope: Scope::Global, site: Site { start: 0, end: 0, through: 0 } }),
    {
        Symbol { name, scope: Scope::Global, site: Site { start: 0, end: 0, through: 0 } }
    }

    /// A name that reaches only its own file, standing nowhere yet.
    pub fn local(name: Vec<u8>) -> (s: Symbol)
        ensures
            s@ == (SymbolView { name: name@, scope: Scope::File, site: Site { start: 0, end: 0, through: 0 } }),
    {
        Symbol { name, scope: Scope::File, site: Site { start: 0, end: 0, through: 0 } }
    }

    /// The same symbol, standing at bytes `start..end` of its line.
    pub fn at(self, start: u32, end: u32) -> (s: Symbol)
        ensures
            s@ == (SymbolView { name: self@.name, scope: self@.scope, site: Site { start, end, through: self@.site.through } }),
    {
        Symbol { name: self.name, scope: self.scope, site: Site { start, end, through: self.site.through } }
    }

    /// The same symbol, its declaration running to line `line`.
    pub fn through(self, line: u32) -> (s: Symbol)
        ensures
            s@ == (SymbolView { name: self@.name, scope: self@.scope, site: Site { start: self@.site.start, end: self@.site.end, through: line } }),
    {
        Symbol { name: self.name, scope: self.scope, site: Site { start: self.site.start, end: self.site.end, through: line } }
    }
}

/// Whether two symbols say the same thing.
pub(crate) fn same_symbol(a: &Symbol, b: &Symbol) -> (r: bool)
    ensures
        r == (a@ == b@),
{
    let same_scope = match (a.scope, b.scope) {
        (Scope::Global, Scope::Global) => true,
        (Scope::File, Scope::File) => true,
        _ => false,
    };
    if !same_scope || a.site.start != b.site.start || a.site.end != b.site.end || a.site.through != b.site.through {
        return false;
    }
    if a.name.len() != b.name.len() {
        return false;
    }
    let mut i: usize = 0;
    while i < a.name.len()
        invariant
            i <= a.name@.len(),
            a.name@.len() == b.name@.len(),
            forall|k: int| 0 <= k < i ==> a.name@[k] == b.name@[k],
        decreases a.name@.len() - i,
    {
        if a.name[i] != b.name[i] {
            return false;
        }
        i = i + 1;
    }
    assert(a.name@ =~= b.name@);
    true
}

/// A copy of a symbol.
pub(crate) fn copy_symbol(s: &Symbol) -> (r: Symbol)
    ensures
        r@ == s@,
{
    let name = vstd::slice::slice_to_vec(s.name.as_slice());
    Symbol { name, scope: s.scope, site: s.site }
}

/// One reader's answer for one file: its namespace, and per line (counting
/// from zero) the names the line defines and the names it reads.
#[derive(Debug)]
pub struct FileSymbols {
    pub namespace: Vec<u8>,
    pub defines: Vec<Vec<Symbol>>,
    pub references: Vec<Vec<Symbol>>,
}

} // verus!
