//! Text in the order std compares it: `str`'s order is its bytes', which for
//! UTF-8 is the order of its characters' code points.
use vstd::prelude::*;

verus! {

/// Whether `a` comes strictly before `b`, character by character, a proper
/// prefix first.
pub open spec fn chars_lt(a: Seq<char>, b: Seq<char>) -> bool
    decreases a.len(),
{
    if a.len() == 0 {
        b.len() > 0
    } else if b.len() == 0 {
        false
    } else if a[0] != b[0] {
        (a[0] as u32) < (b[0] as u32)
    } else {
        chars_lt(a.drop_first(), b.drop_first())
    }
}

/// Two texts are equal or one comes before the other, never both.
pub proof fn lemma_chars_lt_total(a: Seq<char>, b: Seq<char>)
    ensures
        chars_lt(a, b) || chars_lt(b, a) || a == b,
        !(chars_lt(a, b) && chars_lt(b, a)),
        !(chars_lt(a, b) && a == b),
    decreases a.len(),
{
    if a.len() > 0 && b.len() > 0 {
        if a[0] == b[0] {
            lemma_chars_lt_total(a.drop_first(), b.drop_first());
            if a.drop_first() == b.drop_first() {
                assert(a =~= seq![a[0]] + a.drop_first());
                assert(b =~= seq![b[0]] + b.drop_first());
            }
        } else {
            vstd::utf8::char_u32_cast(a[0], a[0] as u32);
            vstd::utf8::char_u32_cast(b[0], b[0] as u32);
        }
    } else if a.len() == 0 && b.len() == 0 {
        assert(a =~= b);
    }
}

/// Text before text before text is text before text.
pub proof fn lemma_chars_lt_transitive(a: Seq<char>, b: Seq<char>, c: Seq<char>)
    requires
        chars_lt(a, b),
        chars_lt(b, c),
    ensures
        chars_lt(a, c),
    decreases a.len(),
{
    if a.len() > 0 {
        vstd::utf8::char_u32_cast(a[0], a[0] as u32);
        vstd::utf8::char_u32_cast(b[0], b[0] as u32);
        vstd::utf8::char_u32_cast(c[0], c[0] as u32);
        if a[0] == b[0] && b[0] == c[0] {
            lemma_chars_lt_transitive(a.drop_first(), b.drop_first(), c.drop_first());
        }
    }
}

/// Whether `a` comes strictly before `b`.
pub fn text_lt(a: &str, b: &str) -> (r: bool)
    ensures
        r == chars_lt(a@, b@),
{
    let ca = crate::text::chars_of(a);
    let cb = crate::text::chars_of(b);
    let mut i: usize = 0;
    assert(ca@.skip(0) =~= ca@);
    assert(cb@.skip(0) =~= cb@);
    while i < ca.len() && i < cb.len() && ca[i] == cb[i]
        invariant
            i <= ca@.len(),
            i <= cb@.len(),
            chars_lt(a@, b@) == chars_lt(ca@.skip(i as int), cb@.skip(i as int)),
            ca@ == a@,
            cb@ == b@,
        decreases ca@.len() - i,
    {
        assert(ca@.skip(i as int).drop_first() =~= ca@.skip(i + 1));
        assert(cb@.skip(i as int).drop_first() =~= cb@.skip(i + 1));
        i = i + 1;
    }
    if i == ca.len() {
        i < cb.len()
    } else if i == cb.len() {
        false
    } else {
        (ca[i] as u32) < (cb[i] as u32)
    }
}

} // verus!
