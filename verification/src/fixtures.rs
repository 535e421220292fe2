//! The real-corpus parity fixtures, as values: a range in a local repository
//! and the numbers the pipeline must report for it.
use vstd::prelude::*;

verus! {

/// One fixture entry: a range in a local repository and what the pipeline
/// must say about it.
pub struct Fixture {
    pub repo_path: String,
    pub base: String,
    pub head: String,
    pub expect: Expect,
}

/// The numbers a fixture pins. The first five are facts — what git and the
/// normaliser must agree on — and are required. `edges` and `sccs` pin
/// heuristics: they move whenever a reader changes, so they are optional.
pub struct Expect {
    pub files: u32,
    pub hunks: u32,
    pub classes: u32,
    pub applier: String,
    pub recount: u32,
    pub edges: Option<u32>,
    pub sccs: Option<u32>,
}

} // verus!
