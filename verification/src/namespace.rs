//! Which names are allowed to match which.
//!
//! A reader hands the dependency graph a namespace along with the names it
//! found, and two global symbols match only when their namespaces do. Every
//! reader reads the one table here, so a language reached by more than one
//! extension, or by more than one reader, stays one namespace. Languages share
//! a namespace where they genuinely share names: TypeScript, TSX, JavaScript
//! and the single-file component formats are one `js`; Java, Kotlin and Scala
//! are one `jvm`; C and C++ are one `c`.
use vstd::prelude::*;
use vstd::string::StringSliceAdditionalSpecFns;

use vstd::utf8::encode_utf8;

use crate::bytes::ends_with_str;

verus! {

/// Every extension a reader knows, and the namespace it belongs to. A
/// whitelist, never a blacklist: a file type nobody thought about gets silence.
pub open spec fn namespace_table() -> Seq<(Seq<char>, Seq<Seq<char>>)> {
    seq![
        ("rust"@, seq![".rs"@]),
        ("python"@, seq![".py"@, ".pyi"@]),
        ("go"@, seq![".go"@]),
        ("js"@, seq![".ts"@, ".mts"@, ".cts"@, ".tsx"@, ".js"@, ".jsx"@, ".mjs"@, ".cjs"@, ".vue"@, ".svelte"@]),
        ("jvm"@, seq![".kt"@, ".kts"@, ".java"@, ".scala"@]),
        ("c"@, seq![".c"@, ".h"@, ".cc"@, ".cpp"@, ".cxx"@, ".hpp"@, ".hh"@]),
        ("csharp"@, seq![".cs"@]),
        ("ruby"@, seq![".rb"@]),
        ("php"@, seq![".php"@]),
        ("swift"@, seq![".swift"@]),
        ("shell"@, seq![".sh"@, ".bash"@, ".zsh"@]),
        ("perl"@, seq![".pl"@, ".pm"@]),
        ("lua"@, seq![".lua"@]),
        ("elixir"@, seq![".ex"@, ".exs"@]),
        ("erlang"@, seq![".erl"@]),
        ("haskell"@, seq![".hs"@]),
        ("ocaml"@, seq![".ml"@, ".mli"@]),
        ("dart"@, seq![".dart"@]),
        ("sql"@, seq![".sql"@]),
        ("proto"@, seq![".proto"@]),
        ("zig"@, seq![".zig"@]),
    ]
}

/// Whether one of `extensions` ends `path`, byte for byte.
pub open spec fn claims(extensions: Seq<Seq<char>>, path: Seq<u8>) -> bool {
    exists|k: int| 0 <= k < extensions.len() && encode_utf8(#[trigger] extensions[k]).is_suffix_of(path)
}

/// The namespace of the first row of `table` that claims `path`.
pub open spec fn first_claim(table: Seq<(Seq<char>, Seq<Seq<char>>)>, path: Seq<u8>) -> Option<Seq<char>>
    decreases table.len(),
{
    if table.len() == 0 {
        None
    } else if claims(table[0].1, path) {
        Some(table[0].0)
    } else {
        first_claim(table.drop_first(), path)
    }
}

/// The table's answer for `path`, when it has one.
pub open spec fn spec_lookup(path: Seq<u8>) -> Option<Seq<char>> {
    first_claim(namespace_table(), path)
}

/// An unclaimed path's own answer: the path from its last `.` on, or the
/// whole path when it has no `.`.
pub open spec fn fallback(path: Seq<u8>) -> Seq<u8> {
    match last_dot(path) {
        Some(dot) => path.subrange(dot as int, path.len() as int),
        None => path,
    }
}

/// Whether `bytes` spell the name of one of the table's namespaces.
pub open spec fn names_a_namespace(bytes: Seq<u8>) -> bool {
    exists|i: int| 0 <= i < namespace_table().len() && encode_utf8(#[trigger] namespace_table()[i].0) == bytes
}

/// A byte no UTF-8 text holds. It marks an unclaimed file whose own answer
/// spells a language's namespace — a file named `c` — so that it still
/// cannot land in that language's bucket.
pub const APART: u8 = 0xff;

/// The namespace `of` answers: the table's; for an unclaimed path, its own
/// answer, marked apart when that spells a table namespace.
pub open spec fn spec_namespace(path: Seq<u8>) -> Seq<u8> {
    match spec_lookup(path) {
        Some(ns) => encode_utf8(ns),
        None => if names_a_namespace(fallback(path)) { seq![APART] + fallback(path) } else { fallback(path) },
    }
}

/// The first claim of a table is one of its namespaces.
proof fn lemma_first_claim_is_a_row(table: Seq<(Seq<char>, Seq<Seq<char>>)>, path: Seq<u8>)
    ensures
        first_claim(table, path) matches Some(ns) ==> exists|i: int| 0 <= i < table.len() && #[trigger] table[i].0 == ns,
    decreases table.len(),
{
    if table.len() > 0 && !claims(table[0].1, path) {
        lemma_first_claim_is_a_row(table.drop_first(), path);
        if let Some(ns) = first_claim(table, path) {
            let i = choose|i: int| 0 <= i < table.drop_first().len() && #[trigger] table.drop_first()[i].0 == ns;
            assert(table[i + 1].0 == ns);
        }
    }
}

/// A file the table claims and a file it does not never share a namespace:
/// an unclaimed file cannot land in a claimed language's bucket.
pub proof fn lemma_an_unclaimed_file_stays_apart(claimed: Seq<u8>, unclaimed: Seq<u8>)
    requires
        spec_lookup(claimed) is Some,
        spec_lookup(unclaimed) is None,
    ensures
        spec_namespace(claimed) != spec_namespace(unclaimed),
{
    let ns = spec_lookup(claimed)->0;
    lemma_first_claim_is_a_row(namespace_table(), claimed);
    let i = choose|i: int| 0 <= i < namespace_table().len() && #[trigger] namespace_table()[i].0 == ns;
    assert(names_a_namespace(encode_utf8(ns)));
    let f = fallback(unclaimed);
    if names_a_namespace(f) {
        let marked = seq![APART] + f;
        vstd::utf8::encode_utf8_valid_utf8(ns);
        if encode_utf8(ns) == marked {
            assert(marked[0] == APART);
            assert(!vstd::utf8::valid_leading_and_continuation_bytes_first_codepoint(marked));
            assert(!vstd::utf8::valid_utf8(marked));
        }
    }
}

/// The index of the last `.` in `path`.
pub open spec fn last_dot(path: Seq<u8>) -> Option<nat>
    decreases path.len(),
{
    if path.len() == 0 {
        None
    } else if path.last() == DOT {
        Some((path.len() - 1) as nat)
    } else {
        last_dot(path.drop_last())
    }
}

/// The byte `.`.
pub const DOT: u8 = 46;

/// One row of the table as the code holds it.
fn row(i: usize) -> (r: (&'static str, &'static [&'static str]))
    requires
        i < namespace_table().len(),
    ensures
        r.0@ == namespace_table()[i as int].0,
        r.1@.len() == namespace_table()[i as int].1.len(),
        forall|k: int| 0 <= k < r.1@.len() ==> (#[trigger] r.1@[k])@ == namespace_table()[i as int].1[k],
{
    match i {
        0 => ("rust", &[".rs"]),
        1 => ("python", &[".py", ".pyi"]),
        2 => ("go", &[".go"]),
        3 => ("js", &[".ts", ".mts", ".cts", ".tsx", ".js", ".jsx", ".mjs", ".cjs", ".vue", ".svelte"]),
        4 => ("jvm", &[".kt", ".kts", ".java", ".scala"]),
        5 => ("c", &[".c", ".h", ".cc", ".cpp", ".cxx", ".hpp", ".hh"]),
        6 => ("csharp", &[".cs"]),
        7 => ("ruby", &[".rb"]),
        8 => ("php", &[".php"]),
        9 => ("swift", &[".swift"]),
        10 => ("shell", &[".sh", ".bash", ".zsh"]),
        11 => ("perl", &[".pl", ".pm"]),
        12 => ("lua", &[".lua"]),
        13 => ("elixir", &[".ex", ".exs"]),
        14 => ("erlang", &[".erl"]),
        15 => ("haskell", &[".hs"]),
        16 => ("ocaml", &[".ml", ".mli"]),
        17 => ("dart", &[".dart"]),
        18 => ("sql", &[".sql"]),
        19 => ("proto", &[".proto"]),
        _ => ("zig", &[".zig"]),
    }
}

/// The table's answer for `path`, when it has one.
fn lookup(path: &[u8]) -> (r: Option<&'static str>)
    ensures
        match r {
            Some(ns) => spec_lookup(path@) == Some(ns@),
            None => spec_lookup(path@) is None,
        },
{
    let ghost table = namespace_table();
    assert(table.skip(0) =~= table);
    let mut i: usize = 0;
    while i < 21
        invariant
            i <= 21,
            table == namespace_table(),
            table.len() == 21,
            first_claim(table, path@) == first_claim(table.skip(i as int), path@),
        decreases 21 - i,
    {
        let (ns, extensions) = row(i);
        let mut k: usize = 0;
        while k < extensions.len()
            invariant
                i < 21,
                table == namespace_table(),
                table.len() == 21,
                k <= extensions@.len(),
                first_claim(table, path@) == first_claim(table.skip(i as int), path@),
                ns@ == table[i as int].0,
                extensions@.len() == table[i as int].1.len(),
                forall|j: int| 0 <= j < extensions@.len() ==> (#[trigger] extensions@[j])@ == table[i as int].1[j],
                forall|j: int| 0 <= j < k ==> !encode_utf8(#[trigger] table[i as int].1[j]).is_suffix_of(path@),
            decreases extensions@.len() - k,
        {
            if ends_with_str(path, extensions[k]) {
                let ghost e = table[i as int].1[k as int];
                assert(encode_utf8(e).is_suffix_of(path@));
                assert(claims(table[i as int].1, path@));
                let ghost rest = table.skip(i as int);
                assert(rest[0] == table[i as int]);
                assert(first_claim(rest, path@) == Some(table[i as int].0));
                return Some(ns);
            }
            k = k + 1;
        }
        assert(table.skip(i as int).drop_first() =~= table.skip(i + 1));
        assert(table.skip(i as int)[0] == table[i as int]);
        i = i + 1;
    }
    None
}

/// Whether `path` is a file the table names at all.
///
/// This is the crude reader's claim, read from the same table as every
/// namespace: a fallback that knew fewer extensions than the readers it stands
/// under would not be a fallback for those files.
pub fn is_code(path: &[u8]) -> (r: bool)
    ensures
        r == spec_lookup(path@) is Some,
{
    lookup(path).is_some()
}

/// Whether `bytes` spell the name of one of the table's namespaces.
fn spells_a_namespace(bytes: &[u8]) -> (r: bool)
    ensures
        r == names_a_namespace(bytes@),
{
    let mut i: usize = 0;
    while i < 21
        invariant
            i <= 21,
            namespace_table().len() == 21,
            forall|j: int| 0 <= j < i ==> encode_utf8(#[trigger] namespace_table()[j].0) != bytes@,
        decreases 21 - i,
    {
        let (ns, _) = row(i);
        let name = ns.as_bytes();
        if name.len() == bytes.len() && crate::bytes::ends_with(bytes, name) {
            assert(name@ =~= bytes@);
            return true;
        }
        i = i + 1;
    }
    false
}

/// An unclaimed path's own answer: from its last `.` on, or all of it.
fn own_answer(path: &[u8]) -> (r: Vec<u8>)
    ensures
        r@ == fallback(path@),
{
    let mut i: usize = path.len();
    assert(path@.subrange(0, i as int) =~= path@);
    while i > 0
        invariant
            i <= path@.len(),
            last_dot(path@) == last_dot(path@.subrange(0, i as int)),
        decreases i,
    {
        assert(path@.subrange(0, i as int).drop_last() =~= path@.subrange(0, i - 1));
        if path[i - 1] == DOT {
            assert(path@.subrange(0, i as int).last() == DOT);
            assert(last_dot(path@) == Some((i - 1) as nat));
            return vstd::slice::slice_to_vec(vstd::slice::slice_subrange(path, i - 1, path.len()));
        }
        i = i - 1;
    }
    assert(path@.subrange(0, path@.len() as int) =~= path@);
    vstd::slice::slice_to_vec(path)
}

/// The namespace for `path`, by extension.
///
/// Falls back to the extension itself, so an unclaimed file cannot land in a
/// shared bucket with an unrelated one; a path with no `.` is its own
/// namespace, marked apart with [`APART`] when it spells a language's.
pub fn of(path: &[u8]) -> (r: Vec<u8>)
    ensures
        r@ == spec_namespace(path@),
{
    if let Some(namespace) = lookup(path) {
        return vstd::slice::slice_to_vec(namespace.as_bytes());
    }
    let own = own_answer(path);
    if spells_a_namespace(own.as_slice()) {
        let mut marked: Vec<u8> = Vec::new();
        marked.push(APART);
        let mut k: usize = 0;
        while k < own.len()
            invariant
                k <= own@.len(),
                marked@ == seq![APART] + own@.take(k as int),
            decreases own@.len() - k,
        {
            assert(own@.take(k + 1) =~= own@.take(k as int).push(own@[k as int]));
            marked.push(own[k]);
            k = k + 1;
        }
        assert(own@.take(own@.len() as int) =~= own@);
        return marked;
    }
    own
}

} // verus!
