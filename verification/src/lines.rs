//! A file as its lines: split on `\n` and nothing else.
use vstd::prelude::*;

verus! {

/// The byte `\n`.
pub const NEWLINE: u8 = 10;

/// The pieces of `s` between `\n` bytes, in order. A `\r` survives into its
/// piece, and a trailing `\n` leaves one empty piece after it.
pub open spec fn split_lines(s: Seq<u8>) -> Seq<Seq<u8>>
    decreases s.len(),
{
    if s.len() == 0 {
        seq![Seq::<u8>::empty()]
    } else {
        let before = split_lines(s.drop_last());
        if s.last() == NEWLINE {
            before.push(Seq::<u8>::empty())
        } else {
            before.update(before.len() - 1, before.last().push(s.last()))
        }
    }
}

/// How many `\n` bytes `s` holds.
pub open spec fn newlines(s: Seq<u8>) -> nat
    decreases s.len(),
{
    if s.len() == 0 {
        0
    } else {
        newlines(s.drop_last()) + if s.last() == NEWLINE { 1nat } else { 0nat }
    }
}

/// A file always has at least one line, and one more than it has `\n` bytes.
pub proof fn lemma_split_lines_len(s: Seq<u8>)
    ensures
        split_lines(s).len() == newlines(s) + 1,
    decreases s.len(),
{
    if s.len() > 0 {
        lemma_split_lines_len(s.drop_last());
    }
}

/// How many lines `content` has, for sizing a reader's answer: one more than
/// its `\n` bytes, which is exactly how many pieces [`split`] cuts it into.
pub fn line_count(content: &[u8]) -> (n: usize)
    requires
        content@.len() < usize::MAX,
    ensures
        n == newlines(content@) + 1,
        n == split_lines(content@).len(),
{
    let mut count: usize = 0;
    let mut i: usize = 0;
    while i < content.len()
        invariant
            i <= content@.len(),
            content@.len() < usize::MAX,
            count == newlines(content@.subrange(0, i as int)),
            count <= i,
        decreases content@.len() - i,
    {
        assert(content@.subrange(0, i + 1).drop_last() =~= content@.subrange(0, i as int));
        if content[i] == NEWLINE {
            count = count + 1;
        }
        i = i + 1;
    }
    assert(content@.subrange(0, content@.len() as int) =~= content@);
    proof {
        lemma_split_lines_len(content@);
    }
    count + 1
}

/// `content` cut on `\n`, each piece a slice of it.
pub fn split<'a>(content: &'a [u8]) -> (lines: Vec<&'a [u8]>)
    ensures
        lines@.map_values(|l: &[u8]| l@) == split_lines(content@),
{
    let mut lines: Vec<&'a [u8]> = Vec::new();
    let mut start: usize = 0;
    let mut i: usize = 0;
    assert(content@.subrange(0, 0) =~= Seq::<u8>::empty());
    assert(lines@.map_values(|l: &[u8]| l@) =~= Seq::<Seq<u8>>::empty());
    assert(lines@.map_values(|l: &[u8]| l@).push(content@.subrange(0, 0)) =~= seq![Seq::<u8>::empty()]);
    while i < content.len()
        invariant
            start <= i <= content@.len(),
            lines@.map_values(|l: &[u8]| l@).push(content@.subrange(start as int, i as int))
                == split_lines(content@.subrange(0, i as int)),
        decreases content@.len() - i,
    {
        let ghost before = lines@.map_values(|l: &[u8]| l@);
        assert(content@.subrange(0, i + 1).drop_last() =~= content@.subrange(0, i as int));
        if content[i] == NEWLINE {
            lines.push(vstd::slice::slice_subrange(content, start, i));
            assert(lines@.map_values(|l: &[u8]| l@) =~= before.push(content@.subrange(start as int, i as int)));
            start = i + 1;
            assert(content@.subrange(start as int, i + 1) =~= Seq::<u8>::empty());
        } else {
            assert(content@.subrange(start as int, i + 1) =~= content@.subrange(start as int, i as int).push(content@[i as int]));
        }
        i = i + 1;
    }
    lines.push(vstd::slice::slice_subrange(content, start, content.len()));
    assert(content@.subrange(0, content@.len() as int) =~= content@);
    lines
}

} // verus!
