//! The reading plan in the left pane: how each group relates to the selected
//! one, and the connector drawn in the gutter between them, so what must be
//! read first is visible without reading ids.
use vstd::prelude::*;

use crate::panes::Relation;
use crate::strings::same_text;

verus! {

/// A group of the plan as the connector reads it: its id, and the ids of the
/// groups it follows.
pub struct PlanGroup {
    pub id: String,
    pub depends_on: Vec<String>,
}

/// Whether the group at `selected` follows the group at `idx`.
pub open spec fn follows(groups: Seq<PlanGroup>, selected: int, idx: int) -> bool {
    exists|k: int| 0 <= k < groups[selected].depends_on@.len() && (#[trigger] groups[selected].depends_on@[k])@ == groups[idx].id@
}

/// How the group at `idx` relates to the selected one: itself, one it
/// follows, or neither — and neither for an index past the plan.
pub open spec fn spec_relation(groups: Seq<PlanGroup>, selected: int, idx: int) -> Relation {
    if idx == selected {
        Relation::Selected
    } else if !(0 <= selected < groups.len() && 0 <= idx < groups.len()) {
        Relation::Unrelated
    } else if follows(groups, selected, idx) {
        Relation::Dependency
    } else {
        Relation::Unrelated
    }
}

/// How a plan row relates to the selected one — what the connector line in
/// the left gutter is drawing. A stale index is no panic: it is unrelated.
pub fn relation_to_selected(groups: &[PlanGroup], selected: usize, idx: usize) -> (r: Relation)
    ensures
        r == spec_relation(groups@, selected as int, idx as int),
{
    if idx == selected {
        return Relation::Selected;
    }
    if selected >= groups.len() || idx >= groups.len() {
        return Relation::Unrelated;
    }
    let sel = &groups[selected];
    let row = &groups[idx];
    let mut k: usize = 0;
    while k < sel.depends_on.len()
        invariant
            k <= sel.depends_on@.len(),
            selected < groups@.len(),
            idx < groups@.len(),
            idx != selected,
            sel == groups@[selected as int],
            row == groups@[idx as int],
            forall|j: int| 0 <= j < k ==> (#[trigger] sel.depends_on@[j])@ != row.id@,
        decreases sel.depends_on@.len() - k,
    {
        if same_text(sel.depends_on[k].as_str(), row.id.as_str()) {
            assert(groups@[selected as int].depends_on@[k as int]@ == groups@[idx as int].id@);
            return Relation::Dependency;
        }
        k = k + 1;
    }
    Relation::Unrelated
}

/// The rows the connector spans: from the selected group to the furthest
/// group it follows, above or below it.
pub fn edge_span(groups: &[PlanGroup], selected: usize) -> (r: (usize, usize))
    ensures
        r.0 <= selected <= r.1,
        forall|i: int| 0 <= i < groups@.len() && spec_relation(groups@, selected as int, i) != Relation::Unrelated
            ==> r.0 <= i <= r.1,
        r.0 == selected || (r.0 < groups@.len() && spec_relation(groups@, selected as int, r.0 as int) != Relation::Unrelated),
        r.1 == selected || (r.1 < groups@.len() && spec_relation(groups@, selected as int, r.1 as int) != Relation::Unrelated),
{
    let mut lo = selected;
    let mut hi = selected;
    let mut i: usize = 0;
    while i < groups.len()
        invariant
            i <= groups@.len(),
            lo <= selected <= hi,
            forall|j: int| 0 <= j < i && spec_relation(groups@, selected as int, j) != Relation::Unrelated ==> lo <= j <= hi,
            lo == selected || (lo < groups@.len() && spec_relation(groups@, selected as int, lo as int) != Relation::Unrelated),
            hi == selected || (hi < groups@.len() && spec_relation(groups@, selected as int, hi as int) != Relation::Unrelated),
        decreases groups@.len() - i,
    {
        let related = match relation_to_selected(groups, selected, i) {
            Relation::Unrelated => false,
            _ => true,
        };
        if related {
            if i < lo {
                lo = i;
            }
            if i > hi {
                hi = i;
            }
        }
        i = i + 1;
    }
    (lo, hi)
}

/// The connector's two cells on plan row `idx`, its title line's and the
/// line under it, given the rows `span` it runs over: a diamond on the
/// selected group, a tick on each group it follows (the last one a corner),
/// and a bar down every row between.
pub fn connector(relation: Relation, idx: usize, span: (usize, usize)) -> (r: (&'static str, &'static str))
    ensures
        r.0 == (match relation {
            Relation::Selected => "◆─",
            Relation::Dependency => if idx == span.1 { "└─" } else { "├─" },
            Relation::Unrelated => if span.0 < idx < span.1 { "│ " } else { "  " },
        }),
        r.1 == (if span.0 <= idx < span.1 { "│ " } else { "  " }),
{
    let (lo, hi) = span;
    let head = match relation {
        Relation::Selected => "◆─",
        Relation::Dependency => if idx == hi { "└─" } else { "├─" },
        Relation::Unrelated => if idx > lo && idx < hi { "│ " } else { "  " },
    };
    let tail = if idx >= lo && idx < hi { "│ " } else { "  " };
    (head, tail)
}

} // verus!
