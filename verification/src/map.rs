//! The group map: the file tree with everything the selected group does not
//! touch folded away, so the float answers what the group spans and fits its
//! box.
use vstd::prelude::*;

use std::collections::HashSet;

use crate::strings::{push_char, push_text};
use crate::text::{after_last_slash, basename};
use crate::tree::{files_in_dir, files_under, texts, TreeEntry, TreeKind, TreeRow};

verus! {

broadcast use vstd::std_specs::hash::group_hash_axioms;

/// One row of the group map.
#[derive(Debug, Clone, PartialEq, Eq)]
pub enum MapRow {
    /// A directory the group touches. Its children follow.
    Dir { depth: usize, name: String },
    /// A directory the group does not touch, and everything under it. A chain
    /// of single-child directories is joined, so one row says `a/b/c`.
    Folded { depth: usize, name: String, files: usize },
    /// A file the group touches.
    File { depth: usize, file_idx: usize },
    /// A run of files the group does not touch, inside a directory it does.
    More { depth: usize, files: usize },
}

/// A map row as values.
pub enum MapLine {
    Dir { depth: int, name: Seq<char> },
    Folded { depth: int, name: Seq<char>, files: int },
    File { depth: int, file_idx: int },
    More { depth: int, files: int },
}

impl View for MapRow {
    type V = MapLine;

    open spec fn view(&self) -> MapLine {
        match self {
            MapRow::Dir { depth, name } => MapLine::Dir { depth: *depth as int, name: name@ },
            MapRow::Folded { depth, name, files } => MapLine::Folded { depth: *depth as int, name: name@, files: *files as int },
            MapRow::File { depth, file_idx } => MapLine::File { depth: *depth as int, file_idx: *file_idx as int },
            MapRow::More { depth, files } => MapLine::More { depth: *depth as int, files: *files as int },
        }
    }
}

impl MapRow {
    /// How deep in the tree the row sits.
    pub fn depth(&self) -> (d: usize)
        ensures
            d as int == match self@ {
                MapLine::Dir { depth, .. } => depth,
                MapLine::Folded { depth, .. } => depth,
                MapLine::File { depth, .. } => depth,
                MapLine::More { depth, .. } => depth,
            },
    {
        match self {
            MapRow::Dir { depth, .. } => *depth,
            MapRow::Folded { depth, .. } => *depth,
            MapRow::File { depth, .. } => *depth,
            MapRow::More { depth, .. } => *depth,
        }
    }
}

/// The tree's rows as values.
pub open spec fn rows_of(tree: Seq<TreeEntry>) -> Seq<TreeRow> {
    tree.map_values(|e: TreeEntry| e@)
}

/// How deep a tree row sits.
pub open spec fn row_depth(r: TreeRow) -> int {
    match r {
        TreeRow::Dir { depth, .. } => depth,
        TreeRow::File { depth, .. } => depth,
    }
}

/// Whether a tree row is a file the group touches.
pub open spec fn mine_file(r: TreeRow, mine: Set<usize>) -> bool {
    match r {
        TreeRow::File { file_idx, .. } => mine.contains(file_idx as usize),
        TreeRow::Dir { .. } => false,
    }
}

/// A row's own name: a directory's last segment.
pub open spec fn leaf(r: TreeRow) -> Seq<char> {
    match r {
        TreeRow::Dir { path, .. } => after_last_slash(path),
        TreeRow::File { .. } => Seq::empty(),
    }
}

/// The first row from `k` on that sits no deeper than `depth`, or the end.
pub open spec fn first_not_below(rows: Seq<TreeRow>, depth: int, k: int) -> int
    decreases rows.len() - k,
{
    if k >= rows.len() {
        rows.len() as int
    } else if row_depth(rows[k]) <= depth {
        k
    } else {
        first_not_below(rows, depth, k + 1)
    }
}

/// The first row past row `i`'s subtree.
pub open spec fn subtree_end(rows: Seq<TreeRow>, i: int) -> int {
    first_not_below(rows, row_depth(rows[i]), i + 1)
}

/// Whether the group touches a file under row `i`.
pub open spec fn touches(rows: Seq<TreeRow>, mine: Set<usize>, i: int) -> bool {
    exists|f: int| i < f < subtree_end(rows, i) && mine_file(#[trigger] rows[f], mine)
}

/// The children of row `cur` among the rows before `j`: those one level
/// deeper than it.
pub open spec fn kids(rows: Seq<TreeRow>, cur: int, j: int) -> Seq<int>
    decreases j - cur,
{
    if j <= cur + 1 {
        Seq::empty()
    } else {
        kids(rows, cur, j - 1) + (if row_depth(rows[j - 1]) == row_depth(rows[cur]) + 1 { seq![j - 1] } else { Seq::empty() })
    }
}

/// Row `cur`'s only child before `end`, when it has exactly one and that
/// child is a directory.
pub open spec fn only_dir_kid(rows: Seq<TreeRow>, cur: int, end: int) -> Option<int> {
    let ks = kids(rows, cur, end);
    if ks.len() == 1 && rows[ks[0]] is Dir {
        Some(ks[0])
    } else {
        None
    }
}

/// `name`, carried down a chain of single-child directories from row `cur`
/// inside a subtree that ends at `end`: `a/b/c`.
pub open spec fn chain_name(rows: Seq<TreeRow>, end: int, cur: int, name: Seq<char>) -> Seq<char>
    decreases end - cur,
{
    match only_dir_kid(rows, cur, end) {
        Some(j) => if cur < j < end { chain_name(rows, end, j, name.push('/') + leaf(rows[j])) } else { name },
        None => name,
    }
}

/// The end of a run of files the group does not touch, side by side at
/// `depth`, from row `j` on.
pub open spec fn run_end(rows: Seq<TreeRow>, mine: Set<usize>, depth: int, j: int) -> int
    decreases rows.len() - j,
{
    if 0 <= j < rows.len() && row_depth(rows[j]) == depth && rows[j] is File && !mine_file(rows[j], mine) {
        run_end(rows, mine, depth, j + 1)
    } else {
        j
    }
}

/// The map's rows from tree row `i` on: a directory the group touches as
/// itself, one it does not as a single folded row for its whole subtree
/// counting the files under it among `paths`, a file it touches as itself,
/// and a run of files it does not as one row.
pub open spec fn map_lines(rows: Seq<TreeRow>, mine: Set<usize>, paths: Seq<Seq<char>>, i: int) -> Seq<MapLine>
    decreases rows.len() - i,
{
    if i < 0 || i >= rows.len() {
        Seq::empty()
    } else {
        match rows[i] {
            TreeRow::Dir { depth, path } => if touches(rows, mine, i) {
                seq![MapLine::Dir { depth, name: after_last_slash(path) }] + map_lines(rows, mine, paths, i + 1)
            } else {
                let end = subtree_end(rows, i);
                seq![MapLine::Folded { depth, name: chain_name(rows, end, i, after_last_slash(path)), files: files_in_dir(paths, path, paths.len() as int) as int }]
                    + (if i < end <= rows.len() { map_lines(rows, mine, paths, end) } else { Seq::empty() })
            },
            TreeRow::File { depth, file_idx } => if mine.contains(file_idx as usize) {
                seq![MapLine::File { depth, file_idx }] + map_lines(rows, mine, paths, i + 1)
            } else {
                let j = run_end(rows, mine, depth, i);
                seq![MapLine::More { depth, files: j - i }] + (if i < j <= rows.len() { map_lines(rows, mine, paths, j) } else { Seq::empty() })
            },
        }
    }
}

/// The map line a tree row that is a file stands for.
pub open spec fn file_line(r: TreeRow) -> MapLine {
    match r {
        TreeRow::File { depth, file_idx } => MapLine::File { depth, file_idx },
        TreeRow::Dir { depth, .. } => MapLine::File { depth, file_idx: 0 },
    }
}

proof fn lemma_first_not_below_bounds(rows: Seq<TreeRow>, depth: int, k: int)
    requires
        0 <= k <= rows.len(),
    ensures
        k <= first_not_below(rows, depth, k) <= rows.len(),
        forall|g: int| k <= g < first_not_below(rows, depth, k) ==> row_depth(#[trigger] rows[g]) > depth,
    decreases rows.len() - k,
{
    if k < rows.len() && row_depth(rows[k]) > depth {
        lemma_first_not_below_bounds(rows, depth, k + 1);
    }
}

proof fn lemma_run_end_bounds(rows: Seq<TreeRow>, mine: Set<usize>, depth: int, j: int)
    requires
        0 <= j <= rows.len(),
    ensures
        j <= run_end(rows, mine, depth, j) <= rows.len(),
        forall|g: int| j <= g < run_end(rows, mine, depth, j) ==> !mine_file(#[trigger] rows[g], mine),
    decreases rows.len() - j,
{
    if j < rows.len() && row_depth(rows[j]) == depth && rows[j] is File && !mine_file(rows[j], mine) {
        lemma_run_end_bounds(rows, mine, depth, j + 1);
    }
}

proof fn lemma_shown_from(rows: Seq<TreeRow>, mine: Set<usize>, paths: Seq<Seq<char>>, i: int, f: int)
    requires
        0 <= i <= f < rows.len(),
        mine_file(rows[f], mine),
    ensures
        map_lines(rows, mine, paths, i).contains(file_line(rows[f])),
    decreases rows.len() - i,
{
    let lines = map_lines(rows, mine, paths, i);
    match rows[i] {
        TreeRow::Dir { depth, path } => {
            if touches(rows, mine, i) {
                lemma_shown_from(rows, mine, paths, i + 1, f);
                let rest = map_lines(rows, mine, paths, i + 1);
                let k = choose|k: int| 0 <= k < rest.len() && rest[k] == file_line(rows[f]);
                assert(lines[k + 1] == file_line(rows[f]));
            } else {
                let end = subtree_end(rows, i);
                lemma_first_not_below_bounds(rows, depth, i + 1);
                assert(!(i < f < end));
                lemma_shown_from(rows, mine, paths, end, f);
                let rest = map_lines(rows, mine, paths, end);
                let k = choose|k: int| 0 <= k < rest.len() && rest[k] == file_line(rows[f]);
                assert(lines[k + 1] == file_line(rows[f]));
            }
        },
        TreeRow::File { depth, file_idx } => {
            if mine.contains(file_idx as usize) {
                if f == i {
                    assert(lines[0] == file_line(rows[f]));
                } else {
                    lemma_shown_from(rows, mine, paths, i + 1, f);
                    let rest = map_lines(rows, mine, paths, i + 1);
                    let k = choose|k: int| 0 <= k < rest.len() && rest[k] == file_line(rows[f]);
                    assert(lines[k + 1] == file_line(rows[f]));
                }
            } else {
                let j = run_end(rows, mine, depth, i);
                lemma_run_end_bounds(rows, mine, depth, i);
                assert(run_end(rows, mine, depth, i) == run_end(rows, mine, depth, i + 1));
                lemma_run_end_bounds(rows, mine, depth, i + 1);
                assert(j > i);
                assert(f >= j);
                lemma_shown_from(rows, mine, paths, j, f);
                let rest = map_lines(rows, mine, paths, j);
                let k = choose|k: int| 0 <= k < rest.len() && rest[k] == file_line(rows[f]);
                assert(lines[k + 1] == file_line(rows[f]));
            }
        },
    }
}

/// The map never hides a file the group touches: each one is a row of it,
/// however much of the tree around it is folded.
pub proof fn lemma_the_map_shows_every_file_the_group_touches(rows: Seq<TreeRow>, mine: Set<usize>, paths: Seq<Seq<char>>, f: int)
    requires
        0 <= f < rows.len(),
        mine_file(rows[f], mine),
    ensures
        map_lines(rows, mine, paths, 0).contains(file_line(rows[f])),
{
    lemma_shown_from(rows, mine, paths, 0, f);
}

/// The group map's rows: `tree` with everything the group does not touch
/// folded away. `paths` are the files the tree was built from, and `mine`
/// holds the files the group touches, by index into them.
pub fn compute_map_rows(tree: &[TreeEntry], paths: &[String], mine: &HashSet<usize>) -> (out: Vec<MapRow>)
    ensures
        out@.map_values(|r: MapRow| r@) == map_lines(rows_of(tree@), mine@, texts(paths@), 0),
{
    let ghost rows = rows_of(tree@);
    let n = tree.len();
    let mut out: Vec<MapRow> = Vec::new();
    let mut i: usize = 0;
    while i < n
        invariant
            n == tree@.len(),
            rows == rows_of(tree@),
            i <= n,
            map_lines(rows, mine@, texts(paths@), 0) == out@.map_values(|r: MapRow| r@) + map_lines(rows, mine@, texts(paths@), i as int),
        decreases n - i,
    {
        let ghost before = out@.map_values(|r: MapRow| r@);
        let depth = tree[i].depth;
        match &tree[i].kind {
            TreeKind::Dir { path } => {
                let end = subtree_end_of(tree, i);
                if touches_mine(tree, mine, i, end) {
                    let mut name = String::new();
                    push_text(&mut name, basename(path.as_str()));
                    out.push(MapRow::Dir { depth, name });
                    assert(out@.map_values(|r: MapRow| r@) =~= before.push(MapLine::Dir { depth: depth as int, name: after_last_slash(path@) }));
                    i = i + 1;
                } else {
                    let name = chain_of(tree, i, end);
                    let files: usize = files_under(tree, paths, i).len();
                    out.push(MapRow::Folded { depth, name, files });
                    assert(out@.map_values(|r: MapRow| r@) =~= before.push(MapLine::Folded {
                        depth: depth as int,
                        name: chain_name(rows, end as int, i as int, after_last_slash(path@)),
                        files: files_in_dir(texts(paths@), path@, paths@.len() as int) as int,
                    }));
                    i = end;
                }
            },
            TreeKind::File { file_idx } => {
                if mine.contains(file_idx) {
                    out.push(MapRow::File { depth, file_idx: *file_idx });
                    assert(out@.map_values(|r: MapRow| r@) =~= before.push(MapLine::File { depth: depth as int, file_idx: *file_idx as int }));
                    i = i + 1;
                } else {
                    let j = run_end_of(tree, mine, i);
                    out.push(MapRow::More { depth, files: j - i });
                    assert(out@.map_values(|r: MapRow| r@) =~= before.push(MapLine::More { depth: depth as int, files: j - i }));
                    i = j;
                }
            },
        }
    }
    assert(out@.map_values(|r: MapRow| r@) + map_lines(rows, mine@, texts(paths@), n as int) =~= out@.map_values(|r: MapRow| r@));
    out
}

/// The first row past row `i`'s subtree.
fn subtree_end_of(tree: &[TreeEntry], i: usize) -> (end: usize)
    requires
        i < tree@.len(),
    ensures
        end == subtree_end(rows_of(tree@), i as int),
        i < end <= tree@.len(),
{
    let ghost rows = rows_of(tree@);
    let depth = tree[i].depth;
    let mut k: usize = i + 1;
    while k < tree.len() && tree[k].depth > depth
        invariant
            i < k <= tree@.len(),
            rows == rows_of(tree@),
            depth == tree@[i as int].depth,
            first_not_below(rows, row_depth(rows[i as int]), k as int) == subtree_end(rows, i as int),
        decreases tree@.len() - k,
    {
        k = k + 1;
    }
    k
}

/// Whether a file the group touches is among rows `i+1..end`.
fn touches_mine(tree: &[TreeEntry], mine: &HashSet<usize>, i: usize, end: usize) -> (r: bool)
    requires
        i < end <= tree@.len(),
        end == subtree_end(rows_of(tree@), i as int),
    ensures
        r == touches(rows_of(tree@), mine@, i as int),
{
    let ghost rows = rows_of(tree@);
    let mut f: usize = i + 1;
    while f < end
        invariant
            i < f <= end,
            end <= tree@.len(),
            rows == rows_of(tree@),
            end == subtree_end(rows, i as int),
            forall|g: int| i < g < f ==> !mine_file(#[trigger] rows[g], mine@),
        decreases end - f,
    {
        if let TreeKind::File { file_idx } = &tree[f].kind {
            if mine.contains(file_idx) {
                assert(mine_file(rows[f as int], mine@));
                assert(touches(rows, mine@, i as int));
                return true;
            }
        }
        f = f + 1;
    }
    false
}

/// The name of the folded row for directory row `i`: its own name, carried
/// down the chain of single-child directories under it.
fn chain_of(tree: &[TreeEntry], i: usize, end: usize) -> (name: String)
    requires
        i < end <= tree@.len(),
        tree@[i as int].kind is Dir,
    ensures
        name@ == chain_name(rows_of(tree@), end as int, i as int, leaf(rows_of(tree@)[i as int])),
{
    let ghost rows = rows_of(tree@);
    let mut name = String::new();
    if let TreeKind::Dir { path } = &tree[i].kind {
        push_text(&mut name, basename(path.as_str()));
    }
    let mut cur: usize = i;
    loop
        invariant
            i <= cur < end <= tree@.len(),
            rows == rows_of(tree@),
            chain_name(rows, end as int, i as int, leaf(rows[i as int])) == chain_name(rows, end as int, cur as int, name@),
        decreases end - cur,
    {
        let below = tree[cur].depth;
        let mut count: usize = 0;
        let mut first: usize = cur;
        let mut j: usize = cur + 1;
        while j < end
            invariant
                cur < j <= end,
                end <= tree@.len(),
                rows == rows_of(tree@),
                below == tree@[cur as int].depth,
                count == kids(rows, cur as int, j as int).len(),
                count <= j - cur,
                count >= 1 ==> first == kids(rows, cur as int, j as int)[0] && cur < first < j,
            decreases end - j,
        {
            let ghost ks = kids(rows, cur as int, j as int);
            if tree[j].depth > 0 && tree[j].depth - 1 == below {
                if count == 0 {
                    first = j;
                }
                count = count + 1;
                assert(kids(rows, cur as int, j + 1) =~= ks.push(j as int));
            } else {
                assert(kids(rows, cur as int, j + 1) =~= ks);
            }
            j = j + 1;
        }
        if count != 1 {
            return name;
        }
        match &tree[first].kind {
            TreeKind::Dir { path } => {
                push_char(&mut name, '/');
                push_text(&mut name, basename(path.as_str()));
                cur = first;
            },
            TreeKind::File { .. } => {
                return name;
            },
        }
    }
}

/// The end of the run of untouched files side by side with row `i`.
fn run_end_of(tree: &[TreeEntry], mine: &HashSet<usize>, i: usize) -> (j: usize)
    requires
        i < tree@.len(),
        tree@[i as int].kind is File,
        !mine_file(rows_of(tree@)[i as int], mine@),
    ensures
        j == run_end(rows_of(tree@), mine@, tree@[i as int].depth as int, i as int),
        i < j <= tree@.len(),
{
    let ghost rows = rows_of(tree@);
    let depth = tree[i].depth;
    let mut j: usize = i + 1;
    while j < tree.len()
        invariant
            i < j <= tree@.len(),
            rows == rows_of(tree@),
            depth == tree@[i as int].depth,
            run_end(rows, mine@, depth as int, j as int) == run_end(rows, mine@, depth as int, i as int),
        ensures
            run_end(rows, mine@, depth as int, j as int) == j,
        decreases tree@.len() - j,
    {
        if tree[j].depth != depth {
            break;
        }
        match &tree[j].kind {
            TreeKind::File { file_idx } => {
                if mine.contains(file_idx) {
                    break;
                }
            },
            TreeKind::Dir { .. } => {
                break;
            },
        }
        j = j + 1;
    }
    j
}

} // verus!
