//! The rules a syntax-tree reader applies to node kinds and field names.
//!
//! Comments and strings are prose, not code, and every grammar gives them
//! node kinds named with those words. A token is prose when it sits in a
//! comment, or in a string without passing through an interpolation on the
//! way up: `"${resolve(id)}"` holds a real call. The rule is stated once as a
//! climb from a token to the root ([`is_prose`]), and carried down a walk as
//! two flags instead ([`below`]) — the law below says the two agree.
//!
//! For grammars read without a query, field names say what a token is: the
//! occupant of `function:` is being called, the occupant of `name:` under a
//! declaration is the name it introduces.
use vstd::prelude::*;

use crate::symbols::Scope;
use crate::text::chars_of;

verus! {

/// Whether `word` occurs in `kind`.
pub open spec fn mentions(kind: Seq<char>, word: Seq<char>) -> bool {
    exists|i: int| 0 <= i && i + word.len() <= kind.len() && #[trigger] kind.subrange(i, i + word.len()) == word
}

/// Whether `w` occurs in `k` at `i`.
fn occurs_at(k: &Vec<char>, w: &Vec<char>, i: usize) -> (r: bool)
    requires
        i + w.len() <= k.len(),
    ensures
        r == (k@.subrange(i as int, i + w@.len()) == w@),
{
    let mut q: usize = 0;
    while q < w.len()
        invariant
            q <= w@.len(),
            i + w.len() <= k.len(),
            forall|j: int| 0 <= j < q ==> k@[i + j] == w@[j],
        decreases w@.len() - q,
    {
        if k[i + q] != w[q] {
            assert(k@.subrange(i as int, i + w@.len())[q as int] != w@[q as int]);
            return false;
        }
        q = q + 1;
    }
    assert(k@.subrange(i as int, i + w@.len()) =~= w@);
    true
}

/// Whether `word` occurs in `kind`.
pub fn mentions_word(kind: &str, word: &str) -> (r: bool)
    ensures
        r == mentions(kind@, word@),
{
    let k = chars_of(kind);
    let w = chars_of(word);
    if w.len() > k.len() {
        return false;
    }
    let last = k.len() - w.len();
    let mut i: usize = 0;
    while i <= last
        invariant
            last + w@.len() == k@.len(),
            last + w.len() == k.len(),
            k@ == kind@,
            w@ == word@,
            i <= last + 1,
            forall|j: int| 0 <= j < i ==> #[trigger] k@.subrange(j, j + w@.len()) != w@,
        decreases last + 1 - i,
    {
        if occurs_at(&k, &w, i) {
            return true;
        }
        if last == i {
            assert forall|j: int| 0 <= j && j + w@.len() <= k@.len() implies #[trigger] k@.subrange(j, j + w@.len()) != w@ by {
                assert(j <= last);
            }
            return false;
        }
        i = i + 1;
    }
    false
}

/// The climb from a token toward the root over `path`, the kinds of its
/// ancestors from the root down to its parent: prose at the first comment,
/// or at a string reached with no interpolation passed since `through`.
pub open spec fn climbs_to_prose(path: Seq<Seq<char>>, through: bool) -> bool
    decreases path.len(),
{
    if path.len() == 0 {
        false
    } else {
        let kind = path.last();
        if mentions(kind, "comment"@) {
            true
        } else {
            let passed = through || mentions(kind, "interpolation"@) || mentions(kind, "substitution"@);
            if mentions(kind, "string"@) && !passed {
                true
            } else {
                climbs_to_prose(path.drop_last(), passed)
            }
        }
    }
}

/// Is a token whose ancestors' kinds, root first, are `path` prose rather
/// than code?
pub fn is_prose(path: &[&str]) -> (r: bool)
    ensures
        r == climbs_to_prose(path@.map_values(|k: &str| k@), false),
{
    let ghost kinds = path@.map_values(|k: &str| k@);
    let mut through = false;
    let mut n: usize = path.len();
    assert(kinds.take(n as int) =~= kinds);
    while n > 0
        invariant
            n <= path@.len(),
            kinds == path@.map_values(|k: &str| k@),
            climbs_to_prose(kinds, false) == climbs_to_prose(kinds.take(n as int), through),
        decreases n,
    {
        let kind = path[n - 1];
        assert(kinds.take(n as int).last() == kind@);
        assert(kinds.take(n as int).drop_last() =~= kinds.take(n - 1));
        if mentions_word(kind, "comment") {
            return true;
        }
        if mentions_word(kind, "interpolation") || mentions_word(kind, "substitution") {
            through = true;
        }
        if mentions_word(kind, "string") && !through {
            return true;
        }
        n = n - 1;
    }
    false
}

/// What a node hands down to its children: whether they sit in a comment,
/// and whether they sit in a string with no interpolation since.
#[derive(Debug, Clone, Copy, PartialEq, Eq)]
pub struct Above {
    pub in_comment: bool,
    pub in_string: bool,
}

/// The flags a node of `kind` under `above` hands its children.
pub open spec fn handed_down(above: Above, kind: Seq<char>) -> Above {
    Above {
        in_comment: above.in_comment || mentions(kind, "comment"@),
        in_string: !(mentions(kind, "interpolation"@) || mentions(kind, "substitution"@))
            && (above.in_string || mentions(kind, "string"@)),
    }
}

/// The flags a node of `kind` under `above` hands its children.
pub fn below(above: Above, kind: &str) -> (r: Above)
    ensures
        r == handed_down(above, kind@),
{
    let interpolates = mentions_word(kind, "interpolation") || mentions_word(kind, "substitution");
    Above {
        in_comment: above.in_comment || mentions_word(kind, "comment"),
        in_string: !interpolates && (above.in_string || mentions_word(kind, "string")),
    }
}

/// The flags carried down `path` from the root.
pub open spec fn carried(path: Seq<Seq<char>>) -> Above
    decreases path.len(),
{
    if path.len() == 0 {
        Above { in_comment: false, in_string: false }
    } else {
        handed_down(carried(path.drop_last()), path.last())
    }
}

/// Carrying the two flags down a walk decides exactly what climbing from the
/// token decides: a token is prose by the walk's flags if and only if it is
/// prose by the climb.
pub proof fn lemma_carried_flags_agree_with_the_climb(path: Seq<Seq<char>>)
    ensures
        (carried(path).in_comment || carried(path).in_string) == climbs_to_prose(path, false),
        carried(path).in_comment == climbs_to_prose(path, true),
    decreases path.len(),
{
    if path.len() > 0 {
        lemma_carried_flags_agree_with_the_climb(path.drop_last());
    }
}

// ------------------------------------------------------------ field readers

/// Fields whose occupant is the thing being called.
pub open spec fn callee_fields() -> Seq<Seq<char>> {
    seq!["function"@, "callee"@]
}

/// Fields that hold a call's name only when the parent says it is a call.
pub open spec fn member_fields() -> Seq<Seq<char>> {
    seq!["field"@, "property"@, "attribute"@, "name"@]
}

/// Fields whose occupant is the name a declaration introduces.
pub open spec fn name_fields() -> Seq<Seq<char>> {
    seq!["name"@, "declarator"@]
}

/// Kinds naming a type, so a declaration of one introduces a usable symbol.
pub open spec fn type_like() -> Seq<Seq<char>> {
    seq!["class"@, "struct"@, "enum"@, "interface"@, "trait"@, "union"@, "record"@]
}

/// Whether `kind` mentions one of `words`.
pub open spec fn mentions_any(kind: Seq<char>, words: Seq<Seq<char>>) -> bool {
    exists|i: int| 0 <= i < words.len() && mentions(kind, #[trigger] words[i])
}

/// Whether the token in `field` under a `parent_kind` node is what is called:
/// a callee field, or a member field of a call.
pub open spec fn callee_here(field: Seq<char>, parent_kind: Seq<char>) -> bool {
    callee_fields().contains(field)
        || (member_fields().contains(field) && (mentions(parent_kind, "call"@) || mentions(parent_kind, "invocation"@)))
}

/// Whether one of `words` is `w`.
fn one_of(words: &[&str], w: &str) -> (r: bool)
    ensures
        r == words@.map_values(|x: &str| x@).contains(w@),
{
    let ghost texts = words@.map_values(|x: &str| x@);
    let mut k: usize = 0;
    while k < words.len()
        invariant
            k <= words@.len(),
            texts == words@.map_values(|x: &str| x@),
            forall|j: int| 0 <= j < k ==> texts[j] != w@,
        decreases words@.len() - k,
    {
        if crate::strings::same_text(words[k], w) {
            assert(texts[k as int] == w@);
            return true;
        }
        k = k + 1;
    }
    false
}

/// Whether `kind` mentions one of `words`.
fn mentions_one(kind: &str, words: &[&str]) -> (r: bool)
    ensures
        r == mentions_any(kind@, words@.map_values(|x: &str| x@)),
{
    let ghost texts = words@.map_values(|x: &str| x@);
    let mut k: usize = 0;
    while k < words.len()
        invariant
            k <= words@.len(),
            texts == words@.map_values(|x: &str| x@),
            forall|j: int| 0 <= j < k ==> !mentions(kind@, #[trigger] texts[j]),
        decreases words@.len() - k,
    {
        if mentions_word(kind, words[k]) {
            assert(mentions(kind@, texts[k as int]));
            return true;
        }
        k = k + 1;
    }
    false
}

fn callee_table() -> (r: &'static [&'static str])
    ensures
        r@.map_values(|x: &str| x@) == callee_fields(),
{
    let r: &'static [&'static str] = &["function", "callee"];
    assert(r@.map_values(|x: &str| x@) =~= callee_fields());
    r
}

fn member_table() -> (r: &'static [&'static str])
    ensures
        r@.map_values(|x: &str| x@) == member_fields(),
{
    let r: &'static [&'static str] = &["field", "property", "attribute", "name"];
    assert(r@.map_values(|x: &str| x@) =~= member_fields());
    r
}

fn name_table() -> (r: &'static [&'static str])
    ensures
        r@.map_values(|x: &str| x@) == name_fields(),
{
    let r: &'static [&'static str] = &["name", "declarator"];
    assert(r@.map_values(|x: &str| x@) =~= name_fields());
    r
}

fn type_table() -> (r: &'static [&'static str])
    ensures
        r@.map_values(|x: &str| x@) == type_like(),
{
    let r: &'static [&'static str] = &["class", "struct", "enum", "interface", "trait", "union", "record"];
    assert(r@.map_values(|x: &str| x@) =~= type_like());
    r
}

/// Whether the token in `field` under a `parent_kind` node is what is called.
pub fn is_callee_here(field: &str, parent_kind: &str) -> (r: bool)
    ensures
        r == callee_here(field@, parent_kind@),
{
    one_of(callee_table(), field)
        || (one_of(member_table(), field) && (mentions_word(parent_kind, "call") || mentions_word(parent_kind, "invocation")))
}

/// Whether a token whose ancestors' kinds, root first, are `path` sits inside
/// a type's body: under an `impl` or a type-like declaration.
pub open spec fn in_type_body(path: Seq<Seq<char>>) -> bool {
    exists|i: int| 0 <= i < path.len() && (mentions(#[trigger] path[i], "impl"@) || mentions_any(path[i], type_like()))
}

/// Whether a token whose ancestors' kinds, root first, are `path` sits inside
/// a type's body.
pub fn inside_a_type_body(path: &[&str]) -> (r: bool)
    ensures
        r == in_type_body(path@.map_values(|k: &str| k@)),
{
    let ghost kinds = path@.map_values(|k: &str| k@);
    let mut n: usize = path.len();
    while n > 0
        invariant
            n <= path@.len(),
            kinds == path@.map_values(|k: &str| k@),
            forall|i: int| n <= i < path@.len() ==> !(mentions(#[trigger] kinds[i], "impl"@) || mentions_any(kinds[i], type_like())),
        decreases n,
    {
        let kind = path[n - 1];
        assert(kinds[n - 1] == kind@);
        if mentions_word(kind, "impl") || mentions_one(kind, type_table()) {
            return true;
        }
        n = n - 1;
    }
    false
}

/// How far a name in `field` under a `parent_kind` node reaches, if it names
/// anything: a callee is a use, never a declaration; a type-like
/// declaration's name reaches every file; so does a function's, at file scope
/// and not inside a type's body; every other declared name is the file's.
pub open spec fn scope_of(field: Seq<char>, parent_kind: Seq<char>, inside_callee: bool, in_body: bool) -> Option<Scope> {
    if inside_callee || !name_fields().contains(field) {
        None
    } else if mentions_any(parent_kind, type_like()) {
        Some(Scope::Global)
    } else if (mentions(parent_kind, "function"@) || mentions(parent_kind, "method"@)) && !in_body {
        Some(Scope::Global)
    } else {
        Some(Scope::File)
    }
}

/// Does this token name something, and if so how far does the name reach?
/// `in_body` says whether the token sits inside a type's body.
pub fn definition_scope(field: &str, parent_kind: &str, inside_callee: bool, in_body: bool) -> (r: Option<Scope>)
    ensures
        r == scope_of(field@, parent_kind@, inside_callee, in_body),
{
    if inside_callee || !one_of(name_table(), field) {
        return None;
    }
    if mentions_one(parent_kind, type_table()) {
        return Some(Scope::Global);
    }
    let function_like = mentions_word(parent_kind, "function") || mentions_word(parent_kind, "method");
    if function_like && !in_body {
        return Some(Scope::Global);
    }
    Some(Scope::File)
}

/// What a field reader takes a leaf token for.
#[derive(Debug, Clone, Copy, PartialEq, Eq)]
pub enum TokenRole {
    /// Neither an identifier nor a type: nothing.
    Skipped,
    /// A name this token's declaration introduces, reaching this far.
    Defines(Scope),
    /// A name read: always as a possible file-local binding, and also as a
    /// global reference when it is called or names a type.
    Reads { global: bool },
}

/// What a leaf of `kind` in `field`, under a `parent_kind` node, is taken for.
pub open spec fn role_of(kind: Seq<char>, field: Seq<char>, parent_kind: Seq<char>, inside_callee: bool, in_body: bool) -> TokenRole {
    if !mentions(kind, "identifier"@) && !mentions(kind, "type"@) {
        TokenRole::Skipped
    } else {
        match scope_of(field, parent_kind, inside_callee, in_body) {
            Some(scope) => TokenRole::Defines(scope),
            None => TokenRole::Reads { global: inside_callee || mentions(kind, "type"@) || field == "type"@ },
        }
    }
}

/// What a leaf of `kind` in `field`, under a `parent_kind` node, is taken for.
pub fn token_role(kind: &str, field: &str, parent_kind: &str, inside_callee: bool, in_body: bool) -> (r: TokenRole)
    ensures
        r == role_of(kind@, field@, parent_kind@, inside_callee, in_body),
{
    let typed = mentions_word(kind, "type");
    if !mentions_word(kind, "identifier") && !typed {
        return TokenRole::Skipped;
    }
    match definition_scope(field, parent_kind, inside_callee, in_body) {
        Some(scope) => TokenRole::Defines(scope),
        None => TokenRole::Reads { global: inside_callee || typed || crate::strings::same_text(field, "type") },
    }
}

/// A token's byte range within its own line, from where it starts and ends
/// (row and byte column each) and how many bytes it spans. A token spanning
/// rows reports its first row's tail rather than a range that runs past the
/// end of a line.
pub fn columns_of(start: (usize, usize), end: (usize, usize), bytes: usize) -> (r: (u32, u32))
    requires
        end.0 != start.0 ==> (start.1 as u32) + (bytes as u32) <= u32::MAX,
    ensures
        r.0 == start.1 as u32,
        r.1 == (if end.0 == start.0 { end.1 as u32 } else { ((start.1 as u32) + (bytes as u32)) as u32 }),
{
    let from = start.1 as u32;
    let to = if end.0 == start.0 { end.1 as u32 } else { from + bytes as u32 };
    (from, to)
}

} // verus!
