//! The file tree the left pane draws: which rows a list of paths makes, and
//! the connectors that say which directory a row is under.
use vstd::prelude::*;

use crate::order::{chars_lt, lemma_chars_lt_total, lemma_chars_lt_transitive, text_lt};
use crate::strings::{begins_with, lemma_pieces_len, pieces, push_char, push_text, same_text, split_on};
use crate::text::chars_of;

verus! {

// ------------------------------------------------------------- rows of paths

/// One row of the file tree: a directory or a file, at its depth.
pub struct TreeEntry {
    pub depth: usize,
    pub kind: TreeKind,
}

pub enum TreeKind {
    /// A directory, by its full path.
    Dir { path: String },
    /// A file, by its index in the list the tree was built from.
    File { file_idx: usize },
}

/// A tree row as values.
pub enum TreeRow {
    Dir { depth: int, path: Seq<char> },
    File { depth: int, file_idx: int },
}

impl View for TreeEntry {
    type V = TreeRow;

    open spec fn view(&self) -> TreeRow {
        match &self.kind {
            TreeKind::Dir { path } => TreeRow::Dir { depth: self.depth as int, path: path@ },
            TreeKind::File { file_idx } => TreeRow::File { depth: self.depth as int, file_idx: *file_idx as int },
        }
    }
}

/// The pieces of a path between `/` characters, in order; a path with no
/// `/` is one piece.
pub open spec fn components(s: Seq<char>) -> Seq<Seq<char>> {
    pieces(s, '/')
}

/// The directories a path lies in, outermost first: every piece but the last.
pub open spec fn dirs_of(path: Seq<char>) -> Seq<Seq<char>> {
    components(path).drop_last()
}

/// The pieces joined back with `/` between them.
pub open spec fn joined(parts: Seq<Seq<char>>) -> Seq<char>
    decreases parts.len(),
{
    if parts.len() == 0 {
        Seq::empty()
    } else if parts.len() == 1 {
        parts[0]
    } else {
        joined(parts.drop_last()) + seq!['/'] + parts.last()
    }
}

/// Whether `a` sorts strictly before `b`, piece by piece, a proper prefix
/// first: the order of a list of texts.
pub open spec fn parts_lt(a: Seq<Seq<char>>, b: Seq<Seq<char>>) -> bool
    decreases a.len(),
{
    if a.len() == 0 {
        b.len() > 0
    } else if b.len() == 0 {
        false
    } else if a[0] != b[0] {
        chars_lt(a[0], b[0])
    } else {
        parts_lt(a.drop_first(), b.drop_first())
    }
}

/// How many leading pieces `a` and `b` share, counting from `i`.
pub open spec fn shared_from(a: Seq<Seq<char>>, b: Seq<Seq<char>>, i: int) -> int
    decreases a.len() - i,
{
    if 0 <= i < a.len() && i < b.len() && a[i] == b[i] {
        shared_from(a, b, i + 1)
    } else {
        i
    }
}

/// How many leading pieces `a` and `b` share.
pub open spec fn shared(a: Seq<Seq<char>>, b: Seq<Seq<char>>) -> int {
    shared_from(a, b, 0)
}

/// Whether one of the directories `dirs[..d]` is folded.
pub open spec fn hidden(dirs: Seq<Seq<char>>, d: int, folded: Seq<Seq<char>>) -> bool {
    exists|i: int| 0 <= i < d && folded.contains(#[trigger] joined(dirs.take(i + 1)))
}

/// The directory rows a file opens: each directory of `dirs` from `from` up to
/// `to`, at its depth and by its path, unless one above it is folded.
pub open spec fn dir_rows(dirs: Seq<Seq<char>>, from: int, to: int, folded: Seq<Seq<char>>) -> Seq<TreeRow>
    decreases to - from,
{
    if to <= from {
        Seq::empty()
    } else {
        dir_rows(dirs, from, to - 1, folded) + if hidden(dirs, to - 1, folded) {
            Seq::<TreeRow>::empty()
        } else {
            seq![TreeRow::Dir { depth: to - 1, path: joined(dirs.take(to)) }]
        }
    }
}

/// The rows one file adds after a file in directories `prev`: the
/// directories it enters, then itself, unless a directory above is folded.
pub open spec fn file_rows(prev: Seq<Seq<char>>, path: Seq<char>, file_idx: int, folded: Seq<Seq<char>>) -> Seq<TreeRow> {
    let dirs = dirs_of(path);
    dir_rows(dirs, shared(prev, dirs), dirs.len() as int, folded) + if hidden(dirs, dirs.len() as int, folded) {
        Seq::<TreeRow>::empty()
    } else {
        seq![TreeRow::File { depth: dirs.len() as int, file_idx }]
    }
}

/// The tree's rows, taking the files in the order `order` gives them.
pub open spec fn tree_rows(paths: Seq<Seq<char>>, order: Seq<int>, folded: Seq<Seq<char>>) -> Seq<TreeRow>
    decreases order.len(),
{
    if order.len() == 0 {
        Seq::empty()
    } else {
        let prev = if order.len() >= 2 { dirs_of(paths[order[order.len() - 2]]) } else { Seq::empty() };
        tree_rows(paths, order.drop_last(), folded) + file_rows(prev, paths[order.last()], order.last(), folded)
    }
}

/// Whether file `i` sorts strictly before file `j`: by their pieces, and by
/// their place in the list where the paths are the same.
pub open spec fn file_before(paths: Seq<Seq<char>>, i: int, j: int) -> bool {
    parts_lt(components(paths[i]), components(paths[j])) || (components(paths[i]) == components(paths[j]) && i < j)
}

/// `order` lists every file once, each sorting before the next.
pub open spec fn sorted_order(paths: Seq<Seq<char>>, order: Seq<int>) -> bool {
    &&& order.len() == paths.len()
    &&& forall|k: int| 0 <= k < order.len() ==> 0 <= #[trigger] order[k] < paths.len()
    &&& forall|k: int, l: int| 0 <= k < l < order.len() ==> order[k] != order[l]
    &&& forall|k: int| 0 <= k < order.len() - 1 ==> file_before(paths, #[trigger] order[k], order[k + 1])
}


/// Strings as texts.
pub open spec fn texts(v: Seq<String>) -> Seq<Seq<char>> {
    v.map_values(|s: String| s@)
}

/// `path` cut into its pieces at each `/`.
fn split_path(path: &str) -> (out: Vec<String>)
    ensures
        texts(out@) == components(path@),
{
    split_on(path, '/')
}

/// The first `n` pieces joined with `/`.
fn join_parts(parts: &Vec<String>, n: usize) -> (out: String)
    requires
        n <= parts@.len(),
    ensures
        out@ == joined(texts(parts@).take(n as int)),
{
    let mut out = String::new();
    let mut k: usize = 0;
    assert(texts(parts@).take(0) =~= Seq::<Seq<char>>::empty());
    while k < n
        invariant
            k <= n <= parts@.len(),
            out@ == joined(texts(parts@).take(k as int)),
        decreases n - k,
    {
        let ghost before = out@;
        assert(texts(parts@).take(k + 1).drop_last() =~= texts(parts@).take(k as int));
        assert(texts(parts@)[k as int] == parts@[k as int]@);
        if k > 0 {
            push_char(&mut out, '/');
        }
        out.append(parts[k].as_str());
        if k == 0 {
            assert(joined(texts(parts@).take(1)) == texts(parts@).take(1)[0]);
            assert(out@ =~= parts@[0]@);
        } else {
            assert(out@ =~= before + seq!['/'] + parts@[k as int]@);
        }
        k = k + 1;
    }
    out
}

/// Whether `a` sorts strictly before `b`, piece by piece.
fn parts_less(a: &Vec<String>, b: &Vec<String>) -> (r: bool)
    ensures
        r == parts_lt(texts(a@), texts(b@)),
{
    let mut i: usize = 0;
    assert(texts(a@).skip(0) =~= texts(a@));
    assert(texts(b@).skip(0) =~= texts(b@));
    while i < a.len() && i < b.len() && same_text(a[i].as_str(), b[i].as_str())
        invariant
            i <= a@.len(),
            i <= b@.len(),
            parts_lt(texts(a@), texts(b@)) == parts_lt(texts(a@).skip(i as int), texts(b@).skip(i as int)),
        decreases a@.len() - i,
    {
        assert(texts(a@).skip(i as int)[0] == a@[i as int]@);
        assert(texts(b@).skip(i as int)[0] == b@[i as int]@);
        assert(texts(a@).skip(i as int).drop_first() =~= texts(a@).skip(i + 1));
        assert(texts(b@).skip(i as int).drop_first() =~= texts(b@).skip(i + 1));
        i = i + 1;
    }
    if i == a.len() {
        i < b.len()
    } else if i == b.len() {
        false
    } else {
        assert(texts(a@).skip(i as int)[0] == a@[i as int]@);
        assert(texts(b@).skip(i as int)[0] == b@[i as int]@);
        text_lt(a[i].as_str(), b[i].as_str())
    }
}

/// Whether `a` and `b` are the same pieces.
fn same_parts(a: &Vec<String>, b: &Vec<String>) -> (r: bool)
    ensures
        r == (texts(a@) == texts(b@)),
{
    if a.len() != b.len() {
        assert(texts(a@).len() != texts(b@).len());
        return false;
    }
    let mut i: usize = 0;
    while i < a.len()
        invariant
            i <= a@.len() == b@.len(),
            forall|k: int| 0 <= k < i ==> texts(a@)[k] == texts(b@)[k],
        decreases a@.len() - i,
    {
        if !same_text(a[i].as_str(), b[i].as_str()) {
            assert(texts(a@)[i as int] != texts(b@)[i as int]);
            return false;
        }
        i = i + 1;
    }
    assert(texts(a@) =~= texts(b@));
    true
}

/// Whether `path` is one of `folded`.
fn is_folded(folded: &[String], path: &str) -> (r: bool)
    ensures
        r == texts(folded@).contains(path@),
{
    let ghost names = texts(folded@);
    let mut k: usize = 0;
    while k < folded.len()
        invariant
            k <= folded@.len(),
            names == texts(folded@),
            forall|j: int| 0 <= j < k ==> names[j] != path@,
        decreases folded@.len() - k,
    {
        if same_text(folded[k].as_str(), path) {
            assert(names[k as int] == path@);
            return true;
        }
        k = k + 1;
    }
    false
}

/// Two lists of pieces are equal or one sorts before the other.
pub proof fn lemma_parts_lt_total(a: Seq<Seq<char>>, b: Seq<Seq<char>>)
    ensures
        parts_lt(a, b) || parts_lt(b, a) || a == b,
    decreases a.len(),
{
    if a.len() > 0 && b.len() > 0 {
        if a[0] == b[0] {
            lemma_parts_lt_total(a.drop_first(), b.drop_first());
            if a.drop_first() == b.drop_first() {
                assert(a =~= seq![a[0]] + a.drop_first());
                assert(b =~= seq![b[0]] + b.drop_first());
            }
        } else {
            lemma_chars_lt_total(a[0], b[0]);
        }
    } else if a.len() == 0 && b.len() == 0 {
        assert(a =~= b);
    }
}

/// No list of pieces sorts before itself, and of two lists at most one sorts
/// before the other.
pub proof fn lemma_parts_lt_asymmetric(a: Seq<Seq<char>>, b: Seq<Seq<char>>)
    ensures
        !(parts_lt(a, b) && parts_lt(b, a)),
        !parts_lt(a, a),
    decreases a.len(),
{
    if a.len() > 0 && b.len() > 0 {
        lemma_chars_lt_total(a[0], b[0]);
        if a[0] == b[0] {
            lemma_parts_lt_asymmetric(a.drop_first(), b.drop_first());
        }
    }
    if a.len() > 0 {
        lemma_parts_lt_asymmetric(a.drop_first(), a.drop_first());
    }
}

/// Sorting before, piece by piece, is transitive.
pub proof fn lemma_parts_lt_transitive(a: Seq<Seq<char>>, b: Seq<Seq<char>>, c: Seq<Seq<char>>)
    requires
        parts_lt(a, b),
        parts_lt(b, c),
    ensures
        parts_lt(a, c),
    decreases a.len(),
{
    if a.len() > 0 {
        lemma_chars_lt_total(a[0], b[0]);
        lemma_chars_lt_total(b[0], c[0]);
        lemma_chars_lt_total(a[0], c[0]);
        if a[0] != b[0] && b[0] != c[0] {
            lemma_chars_lt_transitive(a[0], b[0], c[0]);
        } else if a[0] == b[0] && b[0] == c[0] {
            lemma_parts_lt_transitive(a.drop_first(), b.drop_first(), c.drop_first());
        }
    }
}

/// Each file of `order` sorts before every later one.
pub open spec fn pairwise_sorted(paths: Seq<Seq<char>>, order: Seq<int>) -> bool {
    forall|k: int, l: int| 0 <= k < l < order.len() ==> file_before(paths, #[trigger] order[k], #[trigger] order[l])
}

/// One file sorting before another, and that one before a third, puts the
/// first before the third.
proof fn lemma_file_before_transitive(paths: Seq<Seq<char>>, i: int, j: int, k: int)
    requires
        file_before(paths, i, j),
        file_before(paths, j, k),
    ensures
        file_before(paths, i, k),
{
    let (ci, cj, ck) = (components(paths[i]), components(paths[j]), components(paths[k]));
    if parts_lt(ci, cj) && parts_lt(cj, ck) {
        lemma_parts_lt_transitive(ci, cj, ck);
    }
}

/// Of two files at most one sorts before the other.
proof fn lemma_file_before_asymmetric(paths: Seq<Seq<char>>, i: int, j: int)
    ensures
        !(file_before(paths, i, j) && file_before(paths, j, i)),
{
    lemma_parts_lt_asymmetric(components(paths[i]), components(paths[j]));
    lemma_parts_lt_asymmetric(components(paths[i]), components(paths[i]));
}

/// Each file sorting before the next puts each before every later one.
proof fn lemma_sorted_is_pairwise(paths: Seq<Seq<char>>, order: Seq<int>)
    requires
        sorted_order(paths, order),
    ensures
        pairwise_sorted(paths, order),
{
    assert forall|k: int, l: int| 0 <= k < l < order.len() implies file_before(paths, #[trigger] order[k], #[trigger] order[l]) by {
        lemma_sorted_prefix(paths, order, k, l);
    }
}

proof fn lemma_sorted_prefix(paths: Seq<Seq<char>>, order: Seq<int>, k: int, l: int)
    requires
        sorted_order(paths, order),
        0 <= k < l < order.len(),
    ensures
        file_before(paths, order[k], order[l]),
    decreases l - k,
{
    if l > k + 1 {
        lemma_sorted_prefix(paths, order, k, l - 1);
        assert(file_before(paths, order[l - 1], order[l]));
        lemma_file_before_transitive(paths, order[k], order[l - 1], order[l]);
    }
}

/// Two lists of files, each without repeats, holding the same files and each
/// sorted throughout, are the same list.
proof fn lemma_sorted_lists_agree(paths: Seq<Seq<char>>, a: Seq<int>, b: Seq<int>)
    requires
        a.no_duplicates(),
        b.no_duplicates(),
        a.to_set() == b.to_set(),
        pairwise_sorted(paths, a),
        pairwise_sorted(paths, b),
    ensures
        a == b,
    decreases a.len(),
{
    a.unique_seq_to_set();
    b.unique_seq_to_set();
    if a.len() == 0 {
        assert(b.len() == 0);
        assert(a =~= b);
    } else {
        assert(b.len() > 0);
        assert(a.to_set().contains(a[0]));
        assert(b.to_set().contains(b[0]));
        let j = choose|j: int| 0 <= j < b.len() && b[j] == a[0];
        let i = choose|i: int| 0 <= i < a.len() && a[i] == b[0];
        if j > 0 && i > 0 {
            assert(file_before(paths, b[0], b[j]));
            assert(file_before(paths, a[0], a[i]));
            lemma_file_before_asymmetric(paths, a[0], b[0]);
        } else if j == 0 {
        } else {
            assert(a[0] == b[0]);
        }
        let (ta, tb) = (a.drop_first(), b.drop_first());
        assert(ta.to_set() =~= a.to_set().remove(a[0])) by {
            assert forall|v: int| ta.to_set().contains(v) <==> a.to_set().remove(a[0]).contains(v) by {
                if ta.to_set().contains(v) {
                    let q = choose|q: int| 0 <= q < ta.len() && ta[q] == v;
                    assert(a[q + 1] == v);
                }
                if a.to_set().remove(a[0]).contains(v) {
                    let q = choose|q: int| 0 <= q < a.len() && a[q] == v;
                    assert(q != 0);
                    assert(ta[q - 1] == v);
                }
            }
        };
        assert(tb.to_set() =~= b.to_set().remove(b[0])) by {
            assert forall|v: int| tb.to_set().contains(v) <==> b.to_set().remove(b[0]).contains(v) by {
                if tb.to_set().contains(v) {
                    let q = choose|q: int| 0 <= q < tb.len() && tb[q] == v;
                    assert(b[q + 1] == v);
                }
                if b.to_set().remove(b[0]).contains(v) {
                    let q = choose|q: int| 0 <= q < b.len() && b[q] == v;
                    assert(q != 0);
                    assert(tb[q - 1] == v);
                }
            }
        };
        assert forall|k: int, l: int| 0 <= k < l < ta.len() implies file_before(paths, #[trigger] ta[k], #[trigger] ta[l]) by {
            assert(ta[k] == a[k + 1] && ta[l] == a[l + 1]);
        }
        assert forall|k: int, l: int| 0 <= k < l < tb.len() implies file_before(paths, #[trigger] tb[k], #[trigger] tb[l]) by {
            assert(tb[k] == b[k + 1] && tb[l] == b[l + 1]);
        }
        lemma_sorted_lists_agree(paths, ta, tb);
        assert(a =~= seq![a[0]] + ta);
        assert(b =~= seq![b[0]] + tb);
    }
}

/// A sorted order holds every file exactly once.
proof fn lemma_sorted_order_covers(paths: Seq<Seq<char>>, order: Seq<int>)
    requires
        sorted_order(paths, order),
    ensures
        order.no_duplicates(),
        order.to_set() == vstd::set_lib::set_int_range(0, paths.len() as int),
{
    assert(order.no_duplicates()) by {
        assert forall|k: int, l: int| 0 <= k < order.len() && 0 <= l < order.len() && k != l implies order[k] != order[l] by {
            if k > l {
                assert(order[l] != order[k]);
            }
        }
    };
    order.unique_seq_to_set();
    vstd::set_lib::lemma_int_range(0, paths.len() as int);
    let range = vstd::set_lib::set_int_range(0, paths.len() as int);
    assert(order.to_set().subset_of(range));
    vstd::seq_lib::seq_to_set_is_finite(order);
    vstd::set_lib::lemma_subset_equality(order.to_set(), range);
}

/// The order a tree takes its files in is fixed by the paths alone: two
/// orders that each list every file once, each sorting before the next, are
/// the same order.
pub proof fn lemma_sorted_order_is_unique(paths: Seq<Seq<char>>, a: Seq<int>, b: Seq<int>)
    requires
        sorted_order(paths, a),
        sorted_order(paths, b),
    ensures
        a == b,
{
    lemma_sorted_order_covers(paths, a);
    lemma_sorted_order_covers(paths, b);
    lemma_sorted_is_pairwise(paths, a);
    lemma_sorted_is_pairwise(paths, b);
    lemma_sorted_lists_agree(paths, a, b);
}

/// The files' indices, each sorting before the next: by their pieces, the
/// earlier of two equal paths first.
#[verifier::rlimit(40)]
fn file_order(comps: &Vec<Vec<String>>, Ghost(paths): Ghost<Seq<Seq<char>>>) -> (order: Vec<usize>)
    requires
        comps@.len() == paths.len(),
        forall|i: int| 0 <= i < paths.len() ==> texts(#[trigger] comps@[i]@) == components(paths[i]),
    ensures
        sorted_order(paths, order@.map_values(|i: usize| i as int)),
{
    let mut order: Vec<usize> = Vec::new();
    let mut k: usize = 0;
    while k < comps.len()
        invariant
            k <= comps@.len() == paths.len(),
            forall|i: int| 0 <= i < paths.len() ==> texts(#[trigger] comps@[i]@) == components(paths[i]),
            order@.len() == k,
            forall|q: int| 0 <= q < k ==> #[trigger] order@[q] < k,
            forall|q: int, r: int| 0 <= q < r < k ==> order@[q] != order@[r],
            forall|q: int| 0 <= q < k - 1 ==> file_before(paths, #[trigger] order@[q] as int, order@[q + 1] as int),
        decreases comps@.len() - k,
    {
        let mut pos: usize = order.len();
        while pos > 0 && parts_less(&comps[k], &comps[order[pos - 1]])
            invariant
                pos <= order@.len() == k < comps@.len() == paths.len(),
                forall|i: int| 0 <= i < paths.len() ==> texts(#[trigger] comps@[i]@) == components(paths[i]),
                forall|q: int| 0 <= q < k ==> #[trigger] order@[q] < k,
                pos < k ==> parts_lt(components(paths[k as int]), components(paths[order@[pos as int] as int])),
            decreases pos,
        {
            pos = pos - 1;
        }
        proof {
            if pos > 0 {
                let prev = order@[pos - 1] as int;
                lemma_parts_lt_total(components(paths[k as int]), components(paths[prev]));
                assert(file_before(paths, prev, k as int));
            }
            if pos < k {
                assert(file_before(paths, k as int, order@[pos as int] as int));
            }
        }
        let ghost before = order@;
        order.insert(pos, k);
        assert(order@ == before.insert(pos as int, k));
        assert forall|q: int| 0 <= q < k + 1 - 1 implies file_before(paths, #[trigger] order@[q] as int, order@[q + 1] as int) by {
            if q < pos as int - 1 {
                assert(order@[q] == before[q] && order@[q + 1] == before[q + 1]);
            } else if q == pos as int - 1 {
            } else if q == pos as int {
            } else {
                assert(order@[q] == before[q - 1] && order@[q + 1] == before[q]);
            }
        }
        assert forall|q: int, r: int| 0 <= q < r < k + 1 implies order@[q] != order@[r] by {
            if q < pos && r < pos {
            } else if q < pos && r == pos {
                assert(before[q] < k);
            } else if q < pos {
                assert(order@[r] == before[r - 1]);
            } else if q == pos {
                assert(before[r - 1] < k);
            } else {
                assert(order@[q] == before[q - 1] && order@[r] == before[r - 1]);
            }
        }
        k = k + 1;
    }
    let ghost o = order@.map_values(|i: usize| i as int);
    assert forall|q: int| 0 <= q < o.len() - 1 implies file_before(paths, #[trigger] o[q], o[q + 1]) by {
        assert(file_before(paths, order@[q] as int, order@[q + 1] as int));
    }
    assert forall|q: int, r: int| 0 <= q < r < o.len() implies o[q] != o[r] by {
        assert(order@[q] != order@[r]);
    }
    order
}

/// Whether any of `flags` is set.
fn any_set(flags: &Vec<bool>) -> (r: bool)
    ensures
        r == exists|i: int| 0 <= i < flags@.len() && #[trigger] flags@[i],
{
    let mut i: usize = 0;
    while i < flags.len()
        invariant
            i <= flags@.len(),
            forall|j: int| 0 <= j < i ==> !#[trigger] flags@[j],
        decreases flags@.len() - i,
    {
        if flags[i] {
            return true;
        }
        i = i + 1;
    }
    false
}

/// The tree rows for `paths`, with every directory named in `folded` folded
/// away: a folded directory keeps its own row — there would be nothing left
/// to unfold otherwise — and everything beneath it, subdirectories included,
/// loses one.
///
/// The files are taken in the order of their pieces; a directory's row comes
/// once, before the first file under it, and a file's row names its index in
/// `paths`.
pub fn build_tree(paths: &[String], folded: &[String]) -> (tree: Vec<TreeEntry>)
    ensures
        exists|order: Seq<int>|
            sorted_order(texts(paths@), order) && #[trigger] tree_rows(texts(paths@), order, texts(folded@)) == tree@.map_values(|e: TreeEntry| e@),
{
    let ghost ps = texts(paths@);
    let ghost fs = texts(folded@);
    let mut comps: Vec<Vec<String>> = Vec::new();
    let mut i: usize = 0;
    while i < paths.len()
        invariant
            i <= paths@.len(),
            ps == texts(paths@),
            comps@.len() == i,
            forall|j: int| 0 <= j < i ==> texts(#[trigger] comps@[j]@) == components(ps[j]),
        decreases paths@.len() - i,
    {
        comps.push(split_path(paths[i].as_str()));
        i = i + 1;
    }
    let order = file_order(&comps, Ghost(ps));
    let ghost o = order@.map_values(|i: usize| i as int);
    let mut tree: Vec<TreeEntry> = Vec::new();
    let mut open: Vec<String> = Vec::new();
    let mut open_folded: Vec<bool> = Vec::new();
    let mut t: usize = 0;
    assert(o.take(0) =~= Seq::<int>::empty());
    assert(tree@.map_values(|e: TreeEntry| e@) =~= tree_rows(ps, o.take(0), fs));
    while t < order.len()
        invariant
            t <= order@.len() == comps@.len() == ps.len(),
            ps == texts(paths@),
            fs == texts(folded@),
            o == order@.map_values(|i: usize| i as int),
            sorted_order(ps, o),
            forall|j: int| 0 <= j < ps.len() ==> texts(#[trigger] comps@[j]@) == components(ps[j]),
            tree@.map_values(|e: TreeEntry| e@) == tree_rows(ps, o.take(t as int), fs),
            t == 0 ==> open@.len() == 0,
            t > 0 ==> texts(open@) == dirs_of(ps[o[t - 1]]),
            open_folded@.len() == open@.len(),
            forall|j: int| 0 <= j < open@.len() ==> #[trigger] open_folded@[j] == fs.contains(joined(texts(open@).take(j + 1))),
        decreases order@.len() - t,
    {
        let idx = order[t];
        assert(o[t as int] == idx as int);
        assert(0 <= o[t as int] < ps.len());
        let parts = &comps[idx];
        proof {
            lemma_pieces_len(ps[idx as int], '/');
        }
        let ndirs = parts.len() - 1;
        let ghost dirs = dirs_of(ps[idx as int]);
        let ghost prev = texts(open@);
        assert(dirs =~= texts(parts@).drop_last());
        assert(dirs.len() == ndirs);
        let ghost rows_before = tree@.map_values(|e: TreeEntry| e@);
        // How many of the open directories this file is still in.
        let mut l: usize = 0;
        while l < open.len() && l < ndirs && same_text(open[l].as_str(), parts[l].as_str())
            invariant
                l <= open@.len(),
                l <= ndirs,
                parts@.len() == ndirs + 1,
                prev == texts(open@),
                dirs == texts(parts@).drop_last(),
                dirs.len() == ndirs,
                shared(prev, dirs) == shared_from(prev, dirs, l as int),
                forall|j: int| 0 <= j < l ==> prev[j] == dirs[j],
            decreases open@.len() - l,
        {
            assert(texts(parts@)[l as int] == parts@[l as int]@);
            assert(prev[l as int] == dirs[l as int]);
            l = l + 1;
        }
        proof {
            if l < open@.len() && l < ndirs {
                assert(texts(parts@)[l as int] == parts@[l as int]@);
                assert(prev[l as int] != dirs[l as int]);
            }
            assert(shared_from(prev, dirs, l as int) == l);
        }
        open.truncate(l);
        open_folded.truncate(l);
        assert(texts(open@) =~= dirs.take(l as int));
        assert forall|j: int| 0 <= j < open@.len() implies #[trigger] open_folded@[j] == fs.contains(joined(texts(open@).take(j + 1))) by {
            assert(texts(open@).take(j + 1) =~= prev.take(j + 1));
        }
        let mut d: usize = l;
        assert(dir_rows(dirs, l as int, l as int, fs) =~= Seq::<TreeRow>::empty());
        assert(tree@.map_values(|e: TreeEntry| e@) =~= rows_before + dir_rows(dirs, l as int, d as int, fs));
        while d < ndirs
            invariant
                l <= d <= ndirs,
                parts@.len() == ndirs + 1,
                dirs == texts(parts@).drop_last(),
                dirs.len() == ndirs,
                fs == texts(folded@),
                texts(open@) == dirs.take(d as int),
                open_folded@.len() == open@.len(),
                forall|j: int| 0 <= j < open@.len() ==> #[trigger] open_folded@[j] == fs.contains(joined(texts(open@).take(j + 1))),
                tree@.map_values(|e: TreeEntry| e@) == rows_before + dir_rows(dirs, l as int, d as int, fs),
            decreases ndirs - d,
        {
            let ghost mid = tree@.map_values(|e: TreeEntry| e@);
            let ghost open_before = texts(open@);
            assert(texts(parts@)[d as int] == parts@[d as int]@);
            assert(dirs[d as int] == parts@[d as int]@);
            let name = parts[d].clone();
            open.push(name);
            assert(texts(open@) =~= open_before.push(parts@[d as int]@));
            assert(texts(open@) =~= dirs.take(d + 1));
            let path = join_parts(&open, open.len());
            assert(texts(open@).take(open@.len() as int) =~= dirs.take(d + 1));
            let above = any_set(&open_folded);
            proof {
                if above {
                    let w = choose|w: int| 0 <= w < open_folded@.len() && #[trigger] open_folded@[w];
                    assert(open_before.take(w + 1) =~= dirs.take(w + 1));
                    assert(fs.contains(joined(dirs.take(w + 1))));
                } else {
                    assert forall|w: int| 0 <= w < d implies !fs.contains(#[trigger] joined(dirs.take(w + 1))) by {
                        assert(open_before.take(w + 1) =~= dirs.take(w + 1));
                        assert(!open_folded@[w]);
                    }
                }
                assert(above == hidden(dirs, d as int, fs));
            }
            if !above {
                tree.push(TreeEntry { depth: d, kind: TreeKind::Dir { path: path.clone() } });
            }
            assert(tree@.map_values(|e: TreeEntry| e@) =~= mid + if hidden(dirs, d as int, fs) {
                Seq::<TreeRow>::empty()
            } else {
                seq![TreeRow::Dir { depth: d as int, path: joined(dirs.take(d + 1)) }]
            });
            let f = is_folded(folded, path.as_str());
            open_folded.push(f);
            assert forall|j: int| 0 <= j < open@.len() implies #[trigger] open_folded@[j] == fs.contains(joined(texts(open@).take(j + 1))) by {
                if j == d {
                    assert(texts(open@).take(j + 1) =~= dirs.take(d + 1));
                } else {
                    assert(texts(open@).take(j + 1) =~= open_before.take(j + 1));
                }
            }
            d = d + 1;
        }
        let ghost after_dirs = tree@.map_values(|e: TreeEntry| e@);
        let hid = any_set(&open_folded);
        proof {
            assert(texts(open@) =~= dirs);
            if hid {
                let w = choose|w: int| 0 <= w < open_folded@.len() && #[trigger] open_folded@[w];
                assert(texts(open@).take(w + 1) =~= dirs.take(w + 1));
                assert(fs.contains(joined(dirs.take(w + 1))));
            } else {
                assert forall|w: int| 0 <= w < ndirs implies !fs.contains(#[trigger] joined(dirs.take(w + 1))) by {
                    assert(texts(open@).take(w + 1) =~= dirs.take(w + 1));
                    assert(!open_folded@[w]);
                }
            }
            assert(hid == hidden(dirs, ndirs as int, fs));
        }
        if !hid {
            tree.push(TreeEntry { depth: ndirs, kind: TreeKind::File { file_idx: idx } });
        }
        assert(tree@.map_values(|e: TreeEntry| e@) =~= after_dirs + if hidden(dirs, ndirs as int, fs) {
            Seq::<TreeRow>::empty()
        } else {
            seq![TreeRow::File { depth: ndirs as int, file_idx: idx as int }]
        });
        proof {
            if t == 0 {
                assert(prev =~= Seq::<Seq<char>>::empty());
            }
            let tk = o.take(t + 1);
            assert(tk.drop_last() =~= o.take(t as int));
            assert(tk.last() == idx as int);
            if t > 0 {
                assert(tk[tk.len() - 2] == o[t - 1]);
            }
            assert(file_rows(prev, ps[idx as int], idx as int, fs) == dir_rows(dirs, l as int, ndirs as int, fs) + if hidden(dirs, ndirs as int, fs) {
                Seq::<TreeRow>::empty()
            } else {
                seq![TreeRow::File { depth: ndirs as int, file_idx: idx as int }]
            });
            assert(tree@.map_values(|e: TreeEntry| e@) =~= tree_rows(ps, tk, fs));
        }
        t = t + 1;
    }
    assert(o.take(o.len() as int) =~= o);
    tree
}

/// Whether row `i` has a sibling below it: a later row at its depth before
/// the tree pops out of it.
pub open spec fn has_sibling_below(depths: Seq<usize>, i: int) -> bool {
    exists|j: int| #![trigger depths[j]]
        i < j < depths.len() && depths[j] == depths[i] && forall|k: int| i < k < j ==> depths[k] >= depths[i]
}

/// The depth the ancestors' columns are cut back to on row `i`: its own, or
/// fewer when the rows above never opened that many.
pub open spec fn kept(open: Seq<bool>, depth: usize) -> int {
    if open.len() < depth { open.len() as int } else { depth as int }
}

/// Whether each ancestor level of row `i` still has siblings below, as the
/// rows above leave it.
pub open spec fn open_before(depths: Seq<usize>, i: int) -> Seq<bool>
    decreases i,
{
    if i <= 0 {
        Seq::<bool>::empty()
    } else {
        let above = open_before(depths, i - 1);
        above.take(kept(above, depths[i - 1])).push(has_sibling_below(depths, i - 1))
    }
}

/// `│ ` for an ancestor that still has siblings below, blank otherwise.
pub open spec fn bars(open: Seq<bool>) -> Seq<char>
    decreases open.len(),
{
    if open.len() == 0 {
        Seq::<char>::empty()
    } else {
        bars(open.drop_last()) + if open.last() { "│ "@ } else { "  "@ }
    }
}

/// Row `i`'s guides: a column per ancestor, then `├─` when it has a sibling
/// below or `└─` when it is the last of its parent's children.
pub open spec fn guide(depths: Seq<usize>, i: int) -> Seq<char> {
    let open = open_before(depths, i);
    bars(open.take(kept(open, depths[i]))) + if has_sibling_below(depths, i) { "├─"@ } else { "└─"@ }
}

/// Whether row `i` has a sibling below it.
fn sibling_below(depths: &[usize], i: usize) -> (r: bool)
    requires
        i < depths@.len(),
    ensures
        r == has_sibling_below(depths@, i as int),
{
    assert(i < depths.len());
    let mut j: usize = i + 1;
    while j < depths.len() && depths[j] >= depths[i]
        invariant
            i < j <= depths@.len(),
            forall|k: int| i < k < j ==> depths@[k] > depths@[i as int],
        decreases depths@.len() - j,
    {
        if depths[j] == depths[i] {
            return true;
        }
        j = j + 1;
    }
    proof {
        if has_sibling_below(depths@, i as int) {
            let w = choose|w: int| #![trigger depths@[w]]
                i < w < depths@.len() && depths@[w] == depths@[i as int]
                    && forall|k: int| i < k < w ==> depths@[k] >= depths@[i as int];
            if w < j {
            } else if j < depths@.len() {
                assert(depths@[j as int] >= depths@[i as int]);
            }
        }
    }
    false
}

/// The same connectors from depths alone, so any list of rows with depths
/// draws the identical guides.
pub fn guides_for_depths(depths: &[usize]) -> (out: Vec<String>)
    ensures
        out@.len() == depths@.len(),
        forall|i: int| 0 <= i < depths@.len() ==> #[trigger] out@[i]@ == guide(depths@, i),
{
    let mut more_after: Vec<bool> = Vec::new();
    let mut i: usize = 0;
    while i < depths.len()
        invariant
            i <= depths@.len(),
            more_after@.len() == i,
            forall|k: int| 0 <= k < i ==> #[trigger] more_after@[k] == has_sibling_below(depths@, k),
        decreases depths@.len() - i,
    {
        more_after.push(sibling_below(depths, i));
        i = i + 1;
    }
    let mut open: Vec<bool> = Vec::new();
    let mut out: Vec<String> = Vec::new();
    let mut i: usize = 0;
    while i < depths.len()
        invariant
            i <= depths@.len(),
            more_after@.len() == depths@.len(),
            forall|k: int| 0 <= k < depths@.len() ==> #[trigger] more_after@[k] == has_sibling_below(depths@, k),
            open@ == open_before(depths@, i as int),
            out@.len() == i,
            forall|k: int| 0 <= k < i ==> #[trigger] out@[k]@ == guide(depths@, k),
        decreases depths@.len() - i,
    {
        let depth = depths[i];
        let ghost above = open@;
        open.truncate(depth);
        assert(open@ =~= above.take(kept(above, depth)));
        let mut prefix = String::new();
        let mut k: usize = 0;
        while k < open.len()
            invariant
                k <= open@.len(),
                prefix@ == bars(open@.take(k as int)),
            decreases open@.len() - k,
        {
            assert(open@.take(k + 1).drop_last() =~= open@.take(k as int));
            if open[k] {
                prefix.append("│ ");
            } else {
                prefix.append("  ");
            }
            k = k + 1;
        }
        assert(open@.take(open@.len() as int) =~= open@);
        if more_after[i] {
            prefix.append("├─");
        } else {
            prefix.append("└─");
        }
        open.push(more_after[i]);
        out.push(prefix);
        i = i + 1;
    }
    out
}

// ------------------------------------------------------------ what is shown

/// No piece of a path holds a `/`.
proof fn lemma_components_hold_no_slash(s: Seq<char>)
    ensures
        forall|k: int, j: int| 0 <= k < components(s).len() && 0 <= j < components(s)[k].len() ==> #[trigger] components(s)[k][j] != '/',
    decreases s.len(),
{
    lemma_pieces_len(s, '/');
    if s.len() > 0 {
        lemma_components_hold_no_slash(s.drop_last());
        lemma_pieces_len(s.drop_last(), '/');
        let before = components(s.drop_last());
        assert forall|k: int, j: int| 0 <= k < components(s).len() && 0 <= j < components(s)[k].len() implies #[trigger] components(s)[k][j] != '/' by {
            if s.last() != '/' && k == before.len() - 1 {
                if j < before[k].len() {
                    assert(components(s)[k][j] == before[k][j]);
                }
            } else if s.last() == '/' && k == before.len() {
            } else {
                assert(components(s)[k] == before[k]);
            }
        }
    }
}

/// Joining the last piece with one more character is joining, then that
/// character.
proof fn lemma_joined_grow_last(parts: Seq<Seq<char>>, c: char)
    requires
        parts.len() >= 1,
    ensures
        joined(parts.update(parts.len() - 1, parts.last().push(c))) == joined(parts).push(c),
{
    let grown = parts.update(parts.len() - 1, parts.last().push(c));
    if parts.len() >= 2 {
        assert(grown.drop_last() =~= parts.drop_last());
        assert(joined(grown) =~= joined(parts).push(c));
    }
}

/// A path is its pieces joined back with `/`.
proof fn lemma_components_rejoin(s: Seq<char>)
    ensures
        joined(components(s)) == s,
    decreases s.len(),
{
    if s.len() == 0 {
        assert(joined(components(s)) =~= s);
    } else {
        lemma_components_rejoin(s.drop_last());
        lemma_pieces_len(s.drop_last(), '/');
        let before = components(s.drop_last());
        if s.last() == '/' {
            let after = before.push(Seq::<char>::empty());
            assert(after.drop_last() =~= before);
            assert(joined(after) =~= s.drop_last() + seq!['/'] + Seq::<char>::empty());
            assert(s =~= s.drop_last().push('/'));
        } else {
            lemma_joined_grow_last(before, s.last());
            assert(s =~= s.drop_last().push(s.last()));
        }
    }
}

/// When `prefix` and a `/` begin pieces joined that hold no `/` of their
/// own, `prefix` is the join of some of the leading pieces, not all of them.
proof fn lemma_slash_splits_at_a_piece(parts: Seq<Seq<char>>, prefix: Seq<char>)
    requires
        parts.len() >= 1,
        forall|k: int, j: int| 0 <= k < parts.len() && 0 <= j < parts[k].len() ==> #[trigger] parts[k][j] != '/',
        prefix.push('/').is_prefix_of(joined(parts)),
    ensures
        exists|i: int| 0 <= i < parts.len() - 1 && prefix == #[trigger] joined(parts.take(i + 1)),
    decreases parts.len(),
{
    let all = joined(parts);
    assert(all[prefix.len() as int] == '/') by {
        assert(prefix.push('/')[prefix.len() as int] == '/');
    }
    if parts.len() == 1 {
        assert(parts[0][prefix.len() as int] == '/');
    } else {
        let front = parts.drop_last();
        let head = joined(front);
        assert(all == head + seq!['/'] + parts.last());
        if prefix.len() < head.len() {
            assert(prefix.push('/').is_prefix_of(head)) by {
                assert forall|j: int| 0 <= j < prefix.len() + 1 implies prefix.push('/')[j] == head[j] by {
                    assert(all[j] == head[j]);
                }
                assert(prefix.push('/') =~= head.subrange(0, prefix.len() + 1 as int));
            };
            assert forall|k: int, j: int| 0 <= k < front.len() && 0 <= j < front[k].len() implies #[trigger] front[k][j] != '/' by {
                assert(front[k] == parts[k]);
            }
            lemma_slash_splits_at_a_piece(front, prefix);
            let i = choose|i: int| 0 <= i < front.len() - 1 && prefix == #[trigger] joined(front.take(i + 1));
            assert(front.take(i + 1) =~= parts.take(i + 1));
            assert(prefix == joined(parts.take(i + 1)));
        } else if prefix.len() == head.len() {
            assert(prefix =~= head) by {
                assert forall|j: int| 0 <= j < prefix.len() implies prefix[j] == head[j] by {
                    assert(prefix.push('/')[j] == all[j]);
                    assert(all[j] == head[j]);
                }
            };
            assert(parts.take(parts.len() - 1) =~= front);
            assert(prefix == joined(parts.take((parts.len() - 2) + 1)));
        } else {
            let j = prefix.len() - head.len() - 1;
            assert(all[prefix.len() as int] == parts.last()[j]);
        }
    }
}

/// Counting shared pieces from `i` finds at least `i`.
proof fn lemma_shared_from_at_least(a: Seq<Seq<char>>, b: Seq<Seq<char>>, i: int)
    requires
        0 <= i,
    ensures
        shared_from(a, b, i) >= i,
    decreases a.len() - i,
{
    if i < a.len() && i < b.len() && a[i] == b[i] {
        lemma_shared_from_at_least(a, b, i + 1);
    }
}

/// The path a row stands for: a directory's own, or the path of the file.
pub open spec fn row_path(paths: Seq<Seq<char>>, row: TreeRow) -> Seq<char> {
    match row {
        TreeRow::Dir { path, .. } => path,
        TreeRow::File { file_idx, .. } => paths[file_idx],
    }
}

/// Whether `path` lies beneath the directory `dir`.
pub open spec fn beneath(path: Seq<char>, dir: Seq<char>) -> bool {
    dir.push('/').is_prefix_of(path)
}

/// No row of `rows` lies beneath a folded directory.
pub open spec fn none_beneath(paths: Seq<Seq<char>>, rows: Seq<TreeRow>, folded: Seq<Seq<char>>) -> bool {
    forall|k: int, f: int| 0 <= k < rows.len() && 0 <= f < folded.len() ==> !beneath(#[trigger] row_path(paths, rows[k]), #[trigger] folded[f])
}

proof fn lemma_dir_rows_clear(paths: Seq<Seq<char>>, dirs: Seq<Seq<char>>, from: int, to: int, folded: Seq<Seq<char>>)
    requires
        0 <= from,
        to <= dirs.len(),
        forall|k: int, j: int| 0 <= k < dirs.len() && 0 <= j < dirs[k].len() ==> #[trigger] dirs[k][j] != '/',
    ensures
        none_beneath(paths, dir_rows(dirs, from, to, folded), folded),
    decreases to - from,
{
    if to > from {
        lemma_dir_rows_clear(paths, dirs, from, to - 1, folded);
        let before = dir_rows(dirs, from, to - 1, folded);
        let rows = dir_rows(dirs, from, to, folded);
        assert forall|k: int, f: int| 0 <= k < rows.len() && 0 <= f < folded.len() implies !beneath(#[trigger] row_path(paths, rows[k]), #[trigger] folded[f]) by {
            if k >= before.len() {
                let d = to - 1;
                let parts = dirs.take(d + 1);
                if beneath(joined(parts), folded[f]) {
                    assert forall|a: int, j: int| 0 <= a < parts.len() && 0 <= j < parts[a].len() implies #[trigger] parts[a][j] != '/' by {
                        assert(parts[a] == dirs[a]);
                    }
                    lemma_slash_splits_at_a_piece(parts, folded[f]);
                    let i = choose|i: int| 0 <= i < parts.len() - 1 && folded[f] == #[trigger] joined(parts.take(i + 1));
                    assert(parts.take(i + 1) =~= dirs.take(i + 1));
                    assert(folded.contains(joined(dirs.take(i + 1))));
                    assert(hidden(dirs, d, folded));
                }
            } else {
                assert(rows[k] == before[k]);
            }
        }
    }
}

/// Nothing the tree shows lies beneath a folded directory: no row is a
/// directory or a file whose path runs on from a folded directory's path past
/// a `/`. The folded directory's own row stays.
pub proof fn lemma_nothing_shown_beneath_a_fold(paths: Seq<Seq<char>>, order: Seq<int>, folded: Seq<Seq<char>>)
    requires
        forall|k: int| 0 <= k < order.len() ==> 0 <= #[trigger] order[k] < paths.len(),
    ensures
        none_beneath(paths, tree_rows(paths, order, folded), folded),
    decreases order.len(),
{
    if order.len() > 0 {
        let rest = order.drop_last();
        lemma_nothing_shown_beneath_a_fold(paths, rest, folded);
        let idx = order.last();
        let path = paths[idx];
        let dirs = dirs_of(path);
        let prev = if order.len() >= 2 { dirs_of(paths[order[order.len() - 2]]) } else { Seq::empty() };
        lemma_components_hold_no_slash(path);
        lemma_pieces_len(path, '/');
        assert forall|k: int, j: int| 0 <= k < dirs.len() && 0 <= j < dirs[k].len() implies #[trigger] dirs[k][j] != '/' by {
            assert(dirs[k] == components(path)[k]);
        }
        lemma_shared_from_at_least(prev, dirs, 0);
        lemma_dir_rows_clear(paths, dirs, shared(prev, dirs), dirs.len() as int, folded);
        let before = tree_rows(paths, rest, folded);
        let ds = dir_rows(dirs, shared(prev, dirs), dirs.len() as int, folded);
        let rows = tree_rows(paths, order, folded);
        assert(rows == before + file_rows(prev, path, idx, folded));
        assert forall|k: int, f: int| 0 <= k < rows.len() && 0 <= f < folded.len() implies !beneath(#[trigger] row_path(paths, rows[k]), #[trigger] folded[f]) by {
            if k < before.len() {
                assert(rows[k] == before[k]);
            } else if k < before.len() + ds.len() {
                assert(rows[k] == ds[k - before.len()]);
            } else {
                assert(rows[k] == TreeRow::File { depth: dirs.len() as int, file_idx: idx });
                if beneath(path, folded[f]) {
                    let parts = components(path);
                    lemma_components_rejoin(path);
                    lemma_slash_splits_at_a_piece(parts, folded[f]);
                    let i = choose|i: int| 0 <= i < parts.len() - 1 && folded[f] == #[trigger] joined(parts.take(i + 1));
                    assert(parts.take(i + 1) =~= dirs.take(i + 1));
                    assert(hidden(dirs, dirs.len() as int, folded));
                }
            }
        }
    }
}

// ------------------------------------------------------ each directory once

/// What counting shared pieces finds: the pieces before it agree, and the
/// one at it, where both lists have one, does not.
proof fn lemma_shared_facts(a: Seq<Seq<char>>, b: Seq<Seq<char>>, i: int)
    requires
        0 <= i <= a.len(),
        i <= b.len(),
        forall|t: int| 0 <= t < i ==> a[t] == b[t],
    ensures
        i <= shared_from(a, b, i) <= a.len(),
        shared_from(a, b, i) <= b.len(),
        forall|t: int| 0 <= t < shared_from(a, b, i) ==> a[t] == b[t],
        shared_from(a, b, i) < a.len() && shared_from(a, b, i) < b.len() ==> a[shared_from(a, b, i)] != b[shared_from(a, b, i)],
    decreases a.len() - i,
{
    if i < a.len() && i < b.len() && a[i] == b[i] {
        lemma_shared_facts(a, b, i + 1);
    }
}

/// Lists of pieces between two that begin with the same `q` pieces begin
/// with them too: in sorted order, everything under a directory is together.
proof fn lemma_prefix_between(x: Seq<Seq<char>>, y: Seq<Seq<char>>, z: Seq<Seq<char>>, q: int)
    requires
        0 <= q <= x.len(),
        q <= z.len(),
        x.take(q) == z.take(q),
        !parts_lt(y, x),
        !parts_lt(z, y),
    ensures
        q <= y.len(),
        y.take(q) == x.take(q),
    decreases q,
{
    if q > 0 {
        assert(x[0] == x.take(q)[0] && z[0] == z.take(q)[0]);
        assert(y.len() > 0);
        lemma_chars_lt_total(y[0], x[0]);
        assert(y[0] == x[0]);
        assert(x.drop_first().take(q - 1) =~= x.take(q).drop_first());
        assert(z.drop_first().take(q - 1) =~= z.take(q).drop_first());
        lemma_prefix_between(x.drop_first(), y.drop_first(), z.drop_first(), q - 1);
        assert(y.take(q) =~= seq![y[0]] + y.drop_first().take(q - 1));
        assert(x.take(q) =~= seq![x[0]] + x.drop_first().take(q - 1));
    }
}

/// Pieces holding no `/`, joined: different lists, different paths.
proof fn lemma_joined_injective(p: Seq<Seq<char>>, r: Seq<Seq<char>>)
    requires
        p.len() >= 1,
        r.len() >= 1,
        forall|k: int, j: int| 0 <= k < p.len() && 0 <= j < p[k].len() ==> #[trigger] p[k][j] != '/',
        forall|k: int, j: int| 0 <= k < r.len() && 0 <= j < r[k].len() ==> #[trigger] r[k][j] != '/',
        joined(p) == joined(r),
    ensures
        p == r,
    decreases p.len() + r.len(),
{
    let s = joined(p);
    if p.len() == 1 && r.len() == 1 {
    } else if p.len() == 1 {
        let front = joined(r.drop_last());
        assert(s == front + seq!['/'] + r.last());
        assert(s[front.len() as int] == '/');
        assert(p[0][front.len() as int] == '/');
    } else if r.len() == 1 {
        let front = joined(p.drop_last());
        assert(s == front + seq!['/'] + p.last());
        assert(s[front.len() as int] == '/');
        assert(r[0][front.len() as int] == '/');
    } else {
        let fp = joined(p.drop_last());
        let fr = joined(r.drop_last());
        assert(s == fp + seq!['/'] + p.last());
        assert(s == fr + seq!['/'] + r.last());
        if fp.len() < fr.len() {
            assert(s[fr.len() as int] == '/');
            assert(p.last()[fr.len() - fp.len() - 1] == s[fr.len() as int]);
        } else if fr.len() < fp.len() {
            assert(s[fp.len() as int] == '/');
            assert(r.last()[fp.len() - fr.len() - 1] == s[fp.len() as int]);
        } else {
            assert(fp =~= s.subrange(0, fp.len() as int));
            assert(fr =~= s.subrange(0, fr.len() as int));
            assert(p.last() =~= s.subrange(fp.len() + 1 as int, s.len() as int));
            assert(r.last() =~= s.subrange(fr.len() + 1 as int, s.len() as int));
            assert forall|k: int, j: int| 0 <= k < p.drop_last().len() && 0 <= j < p.drop_last()[k].len() implies #[trigger] p.drop_last()[k][j] != '/' by {
                assert(p.drop_last()[k] == p[k]);
            }
            assert forall|k: int, j: int| 0 <= k < r.drop_last().len() && 0 <= j < r.drop_last()[k].len() implies #[trigger] r.drop_last()[k][j] != '/' by {
                assert(r.drop_last()[k] == r[k]);
            }
            lemma_joined_injective(p.drop_last(), r.drop_last());
            assert(p =~= p.drop_last().push(p.last()));
            assert(r =~= r.drop_last().push(r.last()));
        }
    }
}

/// The directories the file at position `k` of `order` sits in.
pub open spec fn dirs_at(paths: Seq<Seq<char>>, order: Seq<int>, k: int) -> Seq<Seq<char>> {
    dirs_of(paths[order[k]])
}

/// The directories the file before position `k` sits in; none before the
/// first.
pub open spec fn dirs_before(paths: Seq<Seq<char>>, order: Seq<int>, k: int) -> Seq<Seq<char>> {
    if k >= 1 { dirs_at(paths, order, k - 1) } else { Seq::empty() }
}

/// Every directory row of the tree is opened by some file at some depth the
/// file before it did not share.
proof fn lemma_dir_row_origin(paths: Seq<Seq<char>>, order: Seq<int>, folded: Seq<Seq<char>>, t: int)
    requires
        0 <= t < tree_rows(paths, order, folded).len(),
        tree_rows(paths, order, folded)[t] is Dir,
    ensures
        exists|k: int, d: int|
            0 <= k < order.len() && shared(dirs_before(paths, order, k), dirs_at(paths, order, k)) <= d < dirs_at(paths, order, k).len()
                && tree_rows(paths, order, folded)[t] == (TreeRow::Dir { depth: d, path: joined(#[trigger] dirs_at(paths, order, k).take(d + 1)) }),
    decreases order.len(),
{
    let rows = tree_rows(paths, order, folded);
    let n = order.len();
    let rest = order.drop_last();
    let before = tree_rows(paths, rest, folded);
    let k = n - 1;
    let dirs = dirs_at(paths, order, k);
    let prev = dirs_before(paths, order, k);
    let from = shared(prev, dirs);
    let ds = dir_rows(dirs, from, dirs.len() as int, folded);
    assert(rows == before + file_rows(prev, paths[order[k]], order[k], folded));
    if t < before.len() {
        assert(rows[t] == before[t]);
        lemma_dir_row_origin(paths, rest, folded, t);
        let (k1, d1) = choose|k1: int, d1: int|
            0 <= k1 < rest.len() && shared(dirs_before(paths, rest, k1), dirs_at(paths, rest, k1)) <= d1 < dirs_at(paths, rest, k1).len()
                && before[t] == (TreeRow::Dir { depth: d1, path: joined(#[trigger] dirs_at(paths, rest, k1).take(d1 + 1)) });
        assert(dirs_at(paths, rest, k1) == dirs_at(paths, order, k1));
        assert(dirs_before(paths, rest, k1) == dirs_before(paths, order, k1));
    } else {
        let u = t - before.len();
        if u < ds.len() {
            assert(rows[t] == ds[u]);
            lemma_dir_rows_member(dirs, from, dirs.len() as int, folded, u);
        } else {
            assert(rows[t] == TreeRow::File { depth: dirs.len() as int, file_idx: order[k] });
        }
    }
}

/// Every row `dir_rows` makes is a directory of `dirs` from `from` up to `to`.
proof fn lemma_dir_rows_member(dirs: Seq<Seq<char>>, from: int, to: int, folded: Seq<Seq<char>>, u: int)
    requires
        0 <= u < dir_rows(dirs, from, to, folded).len(),
    ensures
        exists|d: int| from <= d < to && dir_rows(dirs, from, to, folded)[u] == (TreeRow::Dir { depth: d, path: joined(#[trigger] dirs.take(d + 1)) }),
    decreases to - from,
{
    if to > from {
        let before = dir_rows(dirs, from, to - 1, folded);
        if u < before.len() {
            lemma_dir_rows_member(dirs, from, to - 1, folded, u);
            assert(dir_rows(dirs, from, to, folded)[u] == before[u]);
        } else {
            assert(dir_rows(dirs, from, to, folded)[u] == TreeRow::Dir { depth: to - 1, path: joined(dirs.take(to)) });
            assert(dirs.take((to - 1) + 1) == dirs.take(to));
        }
    }
}

/// The directories of a file's path hold no `/`.
proof fn lemma_dirs_hold_no_slash(path: Seq<char>)
    ensures
        forall|k: int, j: int| 0 <= k < dirs_of(path).len() && 0 <= j < dirs_of(path)[k].len() ==> #[trigger] dirs_of(path)[k][j] != '/',
{
    lemma_components_hold_no_slash(path);
    lemma_pieces_len(path, '/');
    assert forall|k: int, j: int| 0 <= k < dirs_of(path).len() && 0 <= j < dirs_of(path)[k].len() implies #[trigger] dirs_of(path)[k][j] != '/' by {
        assert(dirs_of(path)[k] == components(path)[k]);
    }
}

/// Two files at positions `k1 < k2` of a sorted order that both open the
/// same directory: the file just before `k2` sits in it too, so `k2` cannot
/// have opened it.
proof fn lemma_no_reopening(paths: Seq<Seq<char>>, order: Seq<int>, k1: int, k2: int, d: int)
    requires
        forall|k: int| 0 <= k < order.len() ==> 0 <= #[trigger] order[k] < paths.len(),
        pairwise_sorted(paths, order),
        0 <= k1 < k2 < order.len(),
        0 <= d < dirs_at(paths, order, k1).len(),
        d < dirs_at(paths, order, k2).len(),
        dirs_at(paths, order, k1).take(d + 1) == dirs_at(paths, order, k2).take(d + 1),
    ensures
        shared(dirs_before(paths, order, k2), dirs_at(paths, order, k2)) > d,
{
    let q = d + 1;
    let c1 = components(paths[order[k1]]);
    let cm = components(paths[order[k2 - 1]]);
    let c2 = components(paths[order[k2]]);
    let d1 = dirs_at(paths, order, k1);
    let d2 = dirs_at(paths, order, k2);
    let dm = dirs_at(paths, order, k2 - 1);
    lemma_pieces_len(paths[order[k1]], '/');
    lemma_pieces_len(paths[order[k2]], '/');
    lemma_pieces_len(paths[order[k2 - 1]], '/');
    assert(c1.take(q) =~= d1.take(q));
    assert(c2.take(q) =~= d2.take(q));
    lemma_parts_lt_asymmetric(c1, cm);
    lemma_parts_lt_asymmetric(cm, c2);
    lemma_parts_lt_asymmetric(c1, c2);
    if k1 < k2 - 1 {
        assert(file_before(paths, order[k1], order[k2 - 1]));
    }
    assert(file_before(paths, order[k2 - 1], order[k2]));
    assert(file_before(paths, order[k1], order[k2]));
    lemma_prefix_between(c1, cm, c2, q);
    // The file before `k2` is not the directory itself: a path that is a
    // proper prefix of another sorts before it, so it cannot follow `k1`.
    if cm.len() == q {
        assert(cm =~= c1.take(q));
        lemma_proper_prefix_first(c1, q);
        if k1 == k2 - 1 {
        } else {
            assert(file_before(paths, order[k1], order[k2 - 1]));
        }
    }
    assert(dm.take(q) =~= cm.take(q));
    lemma_shared_facts(dm, d2, 0);
    let sh = shared(dm, d2);
    if sh <= d {
        assert(dm[sh] == dm.take(q)[sh]);
        assert(d2[sh] == d2.take(q)[sh]);
    }
}

/// A list's proper prefix sorts before it.
proof fn lemma_proper_prefix_first(c: Seq<Seq<char>>, q: int)
    requires
        0 <= q < c.len(),
    ensures
        parts_lt(c.take(q), c),
    decreases q,
{
    if q > 0 {
        lemma_proper_prefix_first(c.drop_first(), q - 1);
        assert(c.take(q).drop_first() =~= c.drop_first().take(q - 1));
        assert(c.take(q)[0] == c[0]);
    }
}

/// Later rows of `dir_rows` stand deeper.
proof fn lemma_dir_rows_deepen(dirs: Seq<Seq<char>>, from: int, to: int, folded: Seq<Seq<char>>, u1: int, u2: int)
    requires
        0 <= u1 < u2 < dir_rows(dirs, from, to, folded).len(),
    ensures
        dir_rows(dirs, from, to, folded)[u1]->Dir_depth < dir_rows(dirs, from, to, folded)[u2]->Dir_depth,
    decreases to - from,
{
    let rows = dir_rows(dirs, from, to, folded);
    let before = dir_rows(dirs, from, to - 1, folded);
    if u2 < before.len() {
        lemma_dir_rows_deepen(dirs, from, to - 1, folded, u1, u2);
        assert(rows[u1] == before[u1] && rows[u2] == before[u2]);
    } else {
        lemma_dir_rows_member(dirs, from, to - 1, folded, u1);
        assert(rows[u1] == before[u1]);
        assert(rows[u2] == TreeRow::Dir { depth: to - 1, path: joined(dirs.take(to)) });
    }
}

/// No two directory rows of `rows` stand for the same path.
pub open spec fn dirs_distinct(rows: Seq<TreeRow>) -> bool {
    forall|t1: int, t2: int|
        0 <= t1 < t2 < rows.len() && (#[trigger] rows[t1]) is Dir && (#[trigger] rows[t2]) is Dir
            ==> rows[t1]->Dir_path != rows[t2]->Dir_path
}

proof fn lemma_dirs_once_upto(paths: Seq<Seq<char>>, order: Seq<int>, folded: Seq<Seq<char>>)
    requires
        forall|k: int| 0 <= k < order.len() ==> 0 <= #[trigger] order[k] < paths.len(),
        pairwise_sorted(paths, order),
    ensures
        dirs_distinct(tree_rows(paths, order, folded)),
    decreases order.len(),
{
    let n = order.len();
    if n > 0 {
        let rest = order.drop_last();
        assert forall|k: int, l: int| 0 <= k < l < rest.len() implies file_before(paths, #[trigger] rest[k], #[trigger] rest[l]) by {
            assert(rest[k] == order[k] && rest[l] == order[l]);
        }
        lemma_dirs_once_upto(paths, rest, folded);
        let rows = tree_rows(paths, order, folded);
        let before = tree_rows(paths, rest, folded);
        let k2 = n - 1;
        let dirs = dirs_at(paths, order, k2);
        let prev = dirs_before(paths, order, k2);
        let from = shared(prev, dirs);
        let ds = dir_rows(dirs, from, dirs.len() as int, folded);
        assert(rows == before + file_rows(prev, paths[order[k2]], order[k2], folded));
        lemma_dirs_hold_no_slash(paths[order[k2]]);
        lemma_shared_from_at_least(prev, dirs, 0);
        assert forall|t1: int, t2: int|
            0 <= t1 < t2 < rows.len() && (#[trigger] rows[t1]) is Dir && (#[trigger] rows[t2]) is Dir
            implies rows[t1]->Dir_path != rows[t2]->Dir_path by {
            if t2 < before.len() {
                assert(rows[t1] == before[t1] && rows[t2] == before[t2]);
            } else if t2 - before.len() < ds.len() {
                let u2 = t2 - before.len();
                assert(rows[t2] == ds[u2]);
                lemma_dir_rows_member(dirs, from, dirs.len() as int, folded, u2);
                let d2 = choose|d: int| from <= d < dirs.len() && ds[u2] == (TreeRow::Dir { depth: d, path: joined(#[trigger] dirs.take(d + 1)) });
                assert(from <= d2 < dirs.len());
                let p2 = dirs.take(d2 + 1);
                assert(p2.len() == d2 + 1);
                assert forall|k: int, j: int| 0 <= k < p2.len() && 0 <= j < p2[k].len() implies #[trigger] p2[k][j] != '/' by {
                    assert(p2[k] == dirs[k]);
                }
                if t1 < before.len() {
                    assert(rows[t1] == before[t1]);
                    lemma_dir_row_origin(paths, rest, folded, t1);
                    let (k1, d1) = choose|k: int, d: int|
                        0 <= k < rest.len() && shared(dirs_before(paths, rest, k), dirs_at(paths, rest, k)) <= d < dirs_at(paths, rest, k).len()
                            && before[t1] == (TreeRow::Dir { depth: d, path: joined(#[trigger] dirs_at(paths, rest, k).take(d + 1)) });
                    assert(dirs_at(paths, rest, k1) == dirs_at(paths, order, k1));
                    lemma_shared_from_at_least(dirs_before(paths, rest, k1), dirs_at(paths, rest, k1), 0);
                    let p1 = dirs_at(paths, order, k1).take(d1 + 1);
                    if rows[t1]->Dir_path == rows[t2]->Dir_path {
                        lemma_dirs_hold_no_slash(paths[order[k1]]);
                        assert forall|k: int, j: int| 0 <= k < p1.len() && 0 <= j < p1[k].len() implies #[trigger] p1[k][j] != '/' by {
                            assert(p1[k] == dirs_at(paths, order, k1)[k]);
                        }
                        lemma_joined_injective(p1, p2);
                        assert(p1.len() == p2.len());
                        assert(dirs_at(paths, order, k1).take(d1 + 1) == dirs_at(paths, order, k2).take(d1 + 1));
                        lemma_no_reopening(paths, order, k1, k2, d1);
                    }
                } else {
                    let u1 = t1 - before.len();
                    assert(rows[t1] == ds[u1]);
                    lemma_dir_rows_member(dirs, from, dirs.len() as int, folded, u1);
                    let d1 = choose|d: int| from <= d < dirs.len() && ds[u1] == (TreeRow::Dir { depth: d, path: joined(#[trigger] dirs.take(d + 1)) });
                    lemma_dir_rows_deepen(dirs, from, dirs.len() as int, folded, u1, u2);
                    let p1 = dirs.take(d1 + 1);
                    if rows[t1]->Dir_path == rows[t2]->Dir_path {
                        assert forall|k: int, j: int| 0 <= k < p1.len() && 0 <= j < p1[k].len() implies #[trigger] p1[k][j] != '/' by {
                            assert(p1[k] == dirs[k]);
                        }
                        lemma_joined_injective(p1, p2);
                    }
                }
            } else {
                assert(rows[t2] == TreeRow::File { depth: dirs.len() as int, file_idx: order[k2] });
            }
        }
    }
}

/// Each directory has one row at most: no two rows of the tree stand for the
/// same directory, however many files sit in it.
pub proof fn lemma_each_directory_once(paths: Seq<Seq<char>>, order: Seq<int>, folded: Seq<Seq<char>>)
    requires
        sorted_order(paths, order),
    ensures
        dirs_distinct(tree_rows(paths, order, folded)),
{
    lemma_sorted_is_pairwise(paths, order);
    lemma_dirs_once_upto(paths, order, folded);
}

/// The depth of every row of a tree.
pub open spec fn depths_of(tree: Seq<TreeEntry>) -> Seq<usize> {
    tree.map_values(|e: TreeEntry| e.depth)
}

/// Tree-drawing guides for each visible row: a column per ancestor, then the
/// row's own connector.
pub fn tree_guides(tree: &[TreeEntry]) -> (out: Vec<String>)
    ensures
        out@.len() == tree@.len(),
        forall|i: int| 0 <= i < tree@.len() ==> #[trigger] out@[i]@ == guide(depths_of(tree@), i),
{
    let mut depths: Vec<usize> = Vec::new();
    let mut i: usize = 0;
    while i < tree.len()
        invariant
            i <= tree@.len(),
            depths@ == depths_of(tree@).take(i as int),
        decreases tree@.len() - i,
    {
        depths.push(tree[i].depth);
        assert(depths_of(tree@).take(i + 1) =~= depths_of(tree@).take(i as int).push(tree@[i as int].depth));
        i = i + 1;
    }
    assert(depths_of(tree@).take(tree@.len() as int) =~= depths_of(tree@));
    guides_for_depths(depths.as_slice())
}

// --------------------------------------------------------- files under a row

/// File `i` sorts before file `j`: by path, and between equal paths by index.
pub open spec fn path_before(paths: Seq<Seq<char>>, i: int, j: int) -> bool {
    chars_lt(paths[i], paths[j]) || (paths[i] == paths[j] && i < j)
}

/// File `i` is under directory `dir`: its path starts with `dir/`.
pub open spec fn in_dir(paths: Seq<Seq<char>>, dir: Seq<char>, i: int) -> bool {
    dir.push('/').is_prefix_of(paths[i])
}

/// How many of the first `n` files are under `dir`.
pub open spec fn files_in_dir(paths: Seq<Seq<char>>, dir: Seq<char>, n: int) -> nat
    decreases n,
{
    if n <= 0 {
        0
    } else {
        files_in_dir(paths, dir, n - 1) + if in_dir(paths, dir, n - 1) { 1nat } else { 0nat }
    }
}

/// `out` lists the files under `dir`, each once, in path order.
pub open spec fn lists_dir(paths: Seq<Seq<char>>, dir: Seq<char>, out: Seq<usize>) -> bool {
    &&& forall|k: int| 0 <= k < out.len() ==> (#[trigger] out[k]) < paths.len() && in_dir(paths, dir, out[k] as int)
    &&& forall|i: int| 0 <= i < paths.len() && in_dir(paths, dir, i) ==> out.contains(i as usize)
    &&& forall|k: int, l: int| 0 <= k < l < out.len() ==> path_before(paths, #[trigger] out[k] as int, #[trigger] out[l] as int)
}

/// The files tree row `row` covers, by index into `paths`: a file row its
/// own file; a directory row every file under it, in path order so the diff
/// pane presents them in the order the tree lists them; nothing past the
/// tree.
pub fn files_under(tree: &[TreeEntry], paths: &[String], row: usize) -> (out: Vec<usize>)
    ensures
        row >= tree@.len() ==> out@.len() == 0,
        row < tree@.len() ==> match tree@[row as int].kind {
            TreeKind::File { file_idx } => out@ == seq![file_idx],
            TreeKind::Dir { path } => lists_dir(texts(paths@), path@, out@)
                && out@.len() == files_in_dir(texts(paths@), path@, paths@.len() as int),
        },
{
    if row >= tree.len() {
        return Vec::new();
    }
    match &tree[row].kind {
        TreeKind::File { file_idx } => {
            let mut out = Vec::new();
            out.push(*file_idx);
            assert(out@ =~= seq![*file_idx]);
            out
        },
        TreeKind::Dir { path } => {
            let ghost ps = texts(paths@);
            let mut prefix = String::new();
            push_text(&mut prefix, path.as_str());
            push_char(&mut prefix, '/');
            assert(prefix@ =~= path@.push('/'));
            let mut out: Vec<usize> = Vec::new();
            let mut i: usize = 0;
            while i < paths.len()
                invariant
                    i <= paths@.len(),
                    ps == texts(paths@),
                    prefix@ == path@.push('/'),
                    forall|k: int| 0 <= k < out@.len() ==> (#[trigger] out@[k]) < i && in_dir(ps, path@, out@[k] as int),
                    forall|j: int| 0 <= j < i && in_dir(ps, path@, j) ==> out@.contains(j as usize),
                    forall|k: int, l: int| 0 <= k < l < out@.len() ==> path_before(ps, #[trigger] out@[k] as int, #[trigger] out@[l] as int),
                    out@.len() == files_in_dir(ps, path@, i as int),
                decreases paths@.len() - i,
            {
                if begins_with(paths[i].as_str(), prefix.as_str()) {
                    insert_in_order(&mut out, paths, i, Ghost(path@));
                }
                i = i + 1;
            }
            out
        },
    }
}

/// Put file `i`, under `dir` and later than every file in `out`, into `out`
/// at its place in path order.
fn insert_in_order(out: &mut Vec<usize>, paths: &[String], i: usize, Ghost(dir): Ghost<Seq<char>>)
    requires
        i < paths@.len(),
        in_dir(texts(paths@), dir, i as int),
        forall|k: int| 0 <= k < old(out)@.len() ==> (#[trigger] old(out)@[k]) < i && in_dir(texts(paths@), dir, old(out)@[k] as int),
        forall|k: int, l: int| 0 <= k < l < old(out)@.len() ==> path_before(texts(paths@), #[trigger] old(out)@[k] as int, #[trigger] old(out)@[l] as int),
    ensures
        forall|k: int| 0 <= k < final(out)@.len() ==> (#[trigger] final(out)@[k]) < i + 1 && in_dir(texts(paths@), dir, final(out)@[k] as int),
        forall|j: usize| #[trigger] old(out)@.contains(j) ==> final(out)@.contains(j),
        final(out)@.contains(i),
        final(out)@.len() == old(out)@.len() + 1,
        forall|k: int, l: int| 0 <= k < l < final(out)@.len() ==> path_before(texts(paths@), #[trigger] final(out)@[k] as int, #[trigger] final(out)@[l] as int),
{
    let ghost ps = texts(paths@);
    let ghost before = out@;
    let mut at: usize = 0;
    while at < out.len() && !text_lt(paths[i].as_str(), paths[out[at]].as_str())
        invariant
            at <= out@.len(),
            out@ == before,
            ps == texts(paths@),
            i < paths@.len(),
            forall|k: int| 0 <= k < out@.len() ==> (#[trigger] out@[k]) < i,
            forall|m: int| 0 <= m < at ==> !chars_lt(ps[i as int], ps[(#[trigger] out@[m]) as int]),
        decreases out@.len() - at,
    {
        at = at + 1;
    }
    proof {
        assert forall|m: int| 0 <= m < at implies path_before(ps, #[trigger] before[m] as int, i as int) by {
            lemma_chars_lt_total(ps[i as int], ps[before[m] as int]);
        }
        if at < before.len() {
            assert forall|m: int| at <= m < before.len() implies path_before(ps, i as int, #[trigger] before[m] as int) by {
                let p = ps[i as int];
                let q = ps[before[at as int] as int];
                let r = ps[before[m] as int];
                if m > at {
                    assert(path_before(ps, before[at as int] as int, before[m] as int));
                    if chars_lt(q, r) {
                        lemma_chars_lt_transitive(p, q, r);
                    }
                }
            }
        }
    }
    out.insert(at, i);
    proof {
        let after = out@;
        assert(after == before.insert(at as int, i));
        assert forall|k: int, l: int| 0 <= k < l < after.len() implies path_before(ps, #[trigger] after[k] as int, #[trigger] after[l] as int) by {
            if l < at {
                assert(after[k] == before[k] && after[l] == before[l]);
            } else if l == at {
                assert(after[l] == i);
                assert(after[k] == before[k]);
            } else if k == at {
                assert(after[k] == i);
                assert(after[l] == before[l - 1]);
            } else if k < at {
                assert(after[k] == before[k] && after[l] == before[l - 1]);
            } else {
                assert(after[k] == before[k - 1] && after[l] == before[l - 1]);
            }
        }
        assert forall|j: usize| #[trigger] before.contains(j) implies after.contains(j) by {
            let k = choose|k: int| 0 <= k < before.len() && before[k] == j;
            if k < at {
                assert(after[k] == before[k]);
            } else {
                assert(after[k + 1] == before[k]);
            }
        }
        assert(after[at as int] == i);
        assert forall|k: int| 0 <= k < after.len() implies (#[trigger] after[k]) < i + 1 && in_dir(ps, dir, after[k] as int) by {
            if k < at {
                assert(after[k] == before[k]);
            } else if k > at {
                assert(after[k] == before[k - 1]);
            }
        }
    }
}

} // verus!
