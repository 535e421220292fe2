//! The regular-expression searches the readers make, through the `regex`
//! crate's byte API.
use vstd::prelude::*;

verus! {

/// For each successive, non-overlapping match of `pattern` in `haystack`,
/// as `regex::bytes::Regex::captures_iter` finds them, the span of its
/// capture group 1, or nothing where that group took no part; empty when
/// `pattern` does not compile.
pub uninterp spec fn regex_group1_captures(pattern: Seq<char>, haystack: Seq<u8>) -> Seq<Option<(usize, usize)>>;

/// The group-1 spans that are there, in order.
pub open spec fn present(caps: Seq<Option<(usize, usize)>>) -> Seq<(usize, usize)>
    decreases caps.len(),
{
    if caps.len() == 0 {
        Seq::empty()
    } else {
        present(caps.drop_last()) + match caps.last() {
            Some(sp) => seq![sp],
            None => Seq::<(usize, usize)>::empty(),
        }
    }
}

/// The spans of capture group 1 of each successive match of `pattern` in
/// `haystack`, a match whose group 1 took no part passed over.
pub open spec fn regex_group1_spans(pattern: Seq<char>, haystack: Seq<u8>) -> Seq<(usize, usize)> {
    present(regex_group1_captures(pattern, haystack))
}

/// The span of each successive, non-overlapping match of `pattern` in
/// `haystack`, as `regex::bytes::Regex::find_iter` finds them; empty when
/// `pattern` does not compile.
pub uninterp spec fn regex_match_spans(pattern: Seq<char>, haystack: Seq<u8>) -> Seq<(usize, usize)>;

/// Whether every span is a range of bytes inside a haystack `len` long.
pub open spec fn spans_within(spans: Seq<(usize, usize)>, len: nat) -> bool {
    forall|i: int| 0 <= i < spans.len() ==> (#[trigger] spans[i]).0 <= spans[i].1 <= len
}

/// Calls `regex::bytes::Regex::new(pattern)` and, when it compiles,
/// `captures_iter(haystack)`, taking from each capture `get(1)`'s
/// `start()..end()` where group 1 took part.
///
/// Trusted: the result is the name [`regex_group1_captures`] of the two
/// arguments, and every span lies inside `haystack` (the crate documents
/// `start() <= end()`, and a match slices its haystack).
#[verifier::external_body]
fn group1_captures(pattern: &str, haystack: &[u8]) -> (caps: Vec<Option<(usize, usize)>>)
    ensures
        caps@ == regex_group1_captures(pattern@, haystack@),
        forall|i: int| 0 <= i < caps@.len() ==> (#[trigger] caps@[i] matches Some(sp) ==> sp.0 <= sp.1 <= haystack@.len()),
{
    match regex::bytes::Regex::new(pattern) {
        Ok(re) => re.captures_iter(haystack).map(|c| c.get(1).map(|m| (m.start(), m.end()))).collect(),
        Err(_) => Vec::new(),
    }
}

/// The spans of capture group 1 of each successive match of `pattern` in
/// `haystack`; empty when `pattern` does not compile.
pub(crate) fn group1_spans(pattern: &str, haystack: &[u8]) -> (spans: Vec<(usize, usize)>)
    ensures
        spans@ == regex_group1_spans(pattern@, haystack@),
        spans_within(spans@, haystack@.len()),
{
    let caps = group1_captures(pattern, haystack);
    let mut spans: Vec<(usize, usize)> = Vec::new();
    let mut i: usize = 0;
    assert(caps@.take(0) =~= Seq::<Option<(usize, usize)>>::empty());
    while i < caps.len()
        invariant
            i <= caps@.len(),
            caps@ == regex_group1_captures(pattern@, haystack@),
            forall|k: int| 0 <= k < caps@.len() ==> (#[trigger] caps@[k] matches Some(sp) ==> sp.0 <= sp.1 <= haystack@.len()),
            spans@ == present(caps@.take(i as int)),
            spans_within(spans@, haystack@.len()),
        decreases caps@.len() - i,
    {
        assert(caps@.take(i + 1).drop_last() =~= caps@.take(i as int));
        assert(caps@.take(i + 1).last() == caps@[i as int]);
        match caps[i] {
            Some(sp) => {
                spans.push(sp);
            },
            None => {},
        }
        assert(spans@ =~= present(caps@.take(i + 1)));
        i = i + 1;
    }
    assert(caps@.take(caps@.len() as int) =~= caps@);
    spans
}

/// Calls `regex::bytes::Regex::new(pattern)` and, when it compiles,
/// `find_iter(haystack)`, keeping each match's `start()..end()`.
///
/// Trusted: the result is the name [`regex_match_spans`] of the two arguments,
/// and every span lies inside `haystack`.
#[verifier::external_body]
pub(crate) fn match_spans(pattern: &str, haystack: &[u8]) -> (spans: Vec<(usize, usize)>)
    ensures
        spans@ == regex_match_spans(pattern@, haystack@),
        spans_within(spans@, haystack@.len()),
{
    match regex::bytes::Regex::new(pattern) {
        Ok(re) => re.find_iter(haystack).map(|m| (m.start(), m.end())).collect(),
        Err(_) => Vec::new(),
    }
}

} // verus!
