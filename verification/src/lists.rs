//! The rows of the two modal lists: every finding, and every file.
use vstd::prelude::*;

verus! {

/// One entry of the findings list.
#[derive(Debug)]
pub struct FindingEntry {
    pub id: String,
    /// `src/app.rs:1307`, or `src/app.rs:1307-1312` for a range.
    pub at: String,
    /// The note's first line.
    pub body: String,
    pub orphaned: bool,
    pub moved: bool,
    /// A forge thread rather than a note: `id` is the thread's.
    pub thread: bool,
    /// A note the request already has, whose twin was not fetched (yet).
    pub published: bool,
    /// A thread the forge marks resolved.
    pub resolved: bool,
}

/// Which of the list's three sections an entry sits in, in list order:
/// notes, threads, orphaned.
pub open spec fn spec_section(orphaned: bool, thread: bool) -> u8 {
    if orphaned { 2 } else if thread { 1 } else { 0 }
}

impl FindingEntry {
    /// Which of the list's three sections this sits in.
    pub fn section(&self) -> (s: u8)
        ensures
            s == spec_section(self.orphaned, self.thread),
            s <= 2,
    {
        match (self.orphaned, self.thread) {
            (true, _) => 2,
            (false, true) => 1,
            (false, false) => 0,
        }
    }
}

/// The section of each entry, in order.
pub open spec fn sections(entries: Seq<FindingEntry>) -> Seq<u8> {
    entries.map_values(|e: FindingEntry| spec_section(e.orphaned, e.thread))
}

/// The indices `i` at which entry `i` starts a different section from entry
/// `i - 1`, ascending.
pub open spec fn rules_of(sections: Seq<u8>) -> Seq<usize>
    decreases sections.len(),
{
    if sections.len() < 2 {
        Seq::<usize>::empty()
    } else {
        let n = sections.len() - 1;
        let before = rules_of(sections.drop_last());
        if sections[n - 1] != sections[n] { before.push(n as usize) } else { before }
    }
}

/// Where the rules between the list's sections fall: the index of the first
/// entry of each section after the first non-empty one. Drawn, not stored, so
/// they cost a row on screen and nothing in the model.
pub fn section_rules(entries: &[FindingEntry]) -> (rules: Vec<usize>)
    ensures
        rules@ == rules_of(sections(entries@)),
{
    let ghost secs = sections(entries@);
    let mut rules: Vec<usize> = Vec::new();
    if entries.len() < 2 {
        return rules;
    }
    let mut i: usize = 1;
    let mut previous = entries[0].section();
    while i < entries.len()
        invariant
            1 <= i <= entries@.len(),
            secs == sections(entries@),
            previous == secs[i - 1],
            rules@ == rules_of(secs.take(i as int)),
        decreases entries@.len() - i,
    {
        let here = entries[i].section();
        assert(secs.take(i + 1).drop_last() =~= secs.take(i as int));
        if previous != here {
            rules.push(i);
        }
        previous = here;
        i = i + 1;
    }
    assert(secs.take(entries@.len() as int) =~= secs);
    rules
}

/// How the rules of a list grow by its last entry.
proof fn lemma_rules_of_unfold(secs: Seq<u8>)
    requires
        secs.len() >= 2,
    ensures
        rules_of(secs) == (if secs[secs.len() - 2] != secs[secs.len() - 1] {
            rules_of(secs.drop_last()).push((secs.len() - 1) as usize)
        } else {
            rules_of(secs.drop_last())
        }),
{
}

/// A rule stands only between two entries of different sections, and every
/// such boundary has one.
pub proof fn lemma_rules_mark_every_boundary(secs: Seq<u8>)
    requires
        secs.len() <= usize::MAX,
    ensures
        forall|i: int| 0 < i < secs.len() ==> (rules_of(secs).contains(i as usize) <==> secs[i - 1] != #[trigger] secs[i]),
    decreases secs.len(),
{
    if secs.len() >= 2 {
        let n = secs.len() - 1;
        let shorter = secs.drop_last();
        let before = rules_of(shorter);
        lemma_rules_of_unfold(secs);
        lemma_rules_mark_every_boundary(shorter);
        lemma_rules_below(shorter);
        if before.contains(n as usize) {
            let k = choose|k: int| 0 <= k < before.len() && before[k] == n as usize;
            assert(before[k] < shorter.len());
        }
        lemma_push_contains(before, n as usize, n as usize);
        assert forall|i: int| 0 < i < secs.len() implies (rules_of(secs).contains(i as usize) <==> secs[i - 1] != #[trigger] secs[i]) by {
            lemma_push_contains(before, n as usize, i as usize);
            if i < n {
                assert(shorter[i - 1] == secs[i - 1] && shorter[i] == secs[i]);
            }
        }
    }
}

proof fn lemma_push_contains(s: Seq<usize>, x: usize, i: usize)
    ensures
        s.push(x).contains(i) <==> (s.contains(i) || x == i),
{
    if s.contains(i) {
        let k = choose|k: int| 0 <= k < s.len() && s[k] == i;
        assert(s.push(x)[k] == i);
    }
    if x == i {
        assert(s.push(x)[s.len() as int] == i);
    }
}

/// Every rule is an index inside the list, after its first entry.
pub proof fn lemma_rules_below(secs: Seq<u8>)
    requires
        secs.len() <= usize::MAX,
    ensures
        forall|k: int| 0 <= k < rules_of(secs).len() ==> 0 < #[trigger] rules_of(secs)[k] < secs.len(),
    decreases secs.len(),
{
    if secs.len() >= 2 {
        let before = rules_of(secs.drop_last());
        lemma_rules_of_unfold(secs);
        lemma_rules_below(secs.drop_last());
        assert forall|k: int| 0 <= k < rules_of(secs).len() implies 0 < #[trigger] rules_of(secs)[k] < secs.len() by {
            if k < before.len() {
                assert(rules_of(secs)[k] == before[k]);
            }
        }
    }
}

/// One row of the file list.
#[derive(Debug)]
pub struct FileListEntry {
    pub path: String,
    /// Row index of the file's header in the current rows.
    pub row_idx: usize,
    pub adds: usize,
    pub dels: usize,
    pub reviewed: bool,
}

/// The `s` a count takes, or not.
pub fn plural(n: usize) -> (s: &'static str)
    ensures
        s@ == (if n == 1 { ""@ } else { "s"@ }),
{
    if n == 1 { "" } else { "s" }
}

} // verus!
