//! Building text one piece at a time.
use vstd::prelude::*;

verus! {

/// Calls `String::push`: `c` is appended to `s`, as std documents.
#[verifier::external_body]
pub(crate) fn push_char(s: &mut String, c: char)
    ensures
        final(s)@ == old(s)@.push(c),
{
    s.push(c)
}

/// `text` appended to `s`, a character at a time.
pub(crate) fn push_text(s: &mut String, text: &str)
    ensures
        final(s)@ == old(s)@ + text@,
{
    let cs = crate::text::chars_of(text);
    let mut i: usize = 0;
    while i < cs.len()
        invariant
            i <= cs@.len(),
            cs@ == text@,
            s@ == old(s)@ + text@.take(i as int),
        decreases cs@.len() - i,
    {
        assert(text@.take(i + 1) =~= text@.take(i as int).push(cs@[i as int]));
        push_char(s, cs[i]);
        i = i + 1;
    }
    assert(text@.take(cs@.len() as int) =~= text@);
}

/// The decimal digits of `n`, most significant first, with no leading zero.
pub open spec fn decimal(n: nat) -> Seq<char>
    decreases n,
{
    if n < 10 {
        seq![digit(n)]
    } else {
        decimal(n / 10).push(digit(n % 10))
    }
}

/// The character of one decimal digit.
pub open spec fn digit(d: nat) -> char {
    if d == 0 { '0' }
    else if d == 1 { '1' }
    else if d == 2 { '2' }
    else if d == 3 { '3' }
    else if d == 4 { '4' }
    else if d == 5 { '5' }
    else if d == 6 { '6' }
    else if d == 7 { '7' }
    else if d == 8 { '8' }
    else { '9' }
}

fn digit_char(d: u64) -> (c: char)
    requires
        d < 10,
    ensures
        c == digit(d as nat),
{
    if d == 0 { '0' }
    else if d == 1 { '1' }
    else if d == 2 { '2' }
    else if d == 3 { '3' }
    else if d == 4 { '4' }
    else if d == 5 { '5' }
    else if d == 6 { '6' }
    else if d == 7 { '7' }
    else if d == 8 { '8' }
    else { '9' }
}

/// Append the decimal digits of `n` to `out`.
pub fn push_decimal(out: &mut String, n: u64)
    ensures
        final(out)@ == old(out)@ + decimal(n as nat),
    decreases n,
{
    if n >= 10 {
        push_decimal(out, n / 10);
    }
    push_char(out, digit_char(n % 10));
}

/// How many decimal digits `n` is written with.
pub fn decimal_len(n: u64) -> (len: usize)
    ensures
        len == decimal(n as nat).len(),
        1 <= len <= 20,
    decreases n,
{
    proof {
        lemma_decimal_len_bound(n as nat);
    }
    if n < 10 {
        1
    } else {
        decimal_len(n / 10) + 1
    }
}

/// `10^k`.
pub open spec fn pow10(k: nat) -> nat
    decreases k,
{
    if k == 0 { 1 } else { 10 * pow10((k - 1) as nat) }
}

/// A number takes at most `k` digits exactly when it is below `10^k`.
pub proof fn lemma_decimal_len(n: nat, k: nat)
    requires
        k >= 1,
    ensures
        decimal(n).len() <= k <==> n < pow10(k),
    decreases n,
{
    lemma_pow10_positive(k);
    if n >= 10 {
        if k == 1 {
            lemma_decimal_len_at_least_one(n / 10);
        } else {
            let k1 = (k - 1) as nat;
            lemma_decimal_len(n / 10, k1);
            lemma_pow10_positive(k1);
            let p = pow10(k1);
            assert(n / 10 < p <==> n < 10 * p) by (nonlinear_arith)
                requires n >= 10, p >= 1;
        }
    } else {
        lemma_pow10_at_least_ten(k);
    }
}

proof fn lemma_decimal_len_at_least_one(n: nat)
    ensures
        decimal(n).len() >= 1,
    decreases n,
{
    if n >= 10 {
        lemma_decimal_len_at_least_one(n / 10);
    }
}

proof fn lemma_pow10_positive(k: nat)
    ensures
        pow10(k) >= 1,
    decreases k,
{
    if k > 0 {
        lemma_pow10_positive((k - 1) as nat);
    }
}

proof fn lemma_pow10_at_least_ten(k: nat)
    requires
        k >= 1,
    ensures
        pow10(k) >= 10,
    decreases k,
{
    reveal_with_fuel(pow10, 2);
    if k > 1 {
        lemma_pow10_at_least_ten((k - 1) as nat);
        lemma_pow10_positive((k - 1) as nat);
    }
}

/// A number below `10^k` takes at most `k` digits; a `u64` at most 20.
pub proof fn lemma_decimal_len_bound(n: nat)
    ensures
        decimal(n).len() >= 1,
        n < 10 ==> decimal(n).len() == 1,
        n < 10000 ==> decimal(n).len() <= 4,
        n >= 10000 ==> decimal(n).len() >= 5,
        n <= u64::MAX ==> decimal(n).len() <= 20,
{
    lemma_decimal_len_at_least_one(n);
    lemma_decimal_len(n, 4);
    lemma_decimal_len(n, 20);
    reveal_with_fuel(pow10, 21);
    assert(pow10(4) == 10000);
    assert(pow10(20) == 100000000000000000000);
}


/// Whether `a` and `b` are the same text.
pub fn same_text(a: &str, b: &str) -> (r: bool)
    ensures
        r == (a@ == b@),
{
    let ca = crate::text::chars_of(a);
    let cb = crate::text::chars_of(b);
    if ca.len() != cb.len() {
        return false;
    }
    let mut i: usize = 0;
    while i < ca.len()
        invariant
            i <= ca@.len(),
            ca@.len() == cb@.len(),
            ca@ == a@,
            cb@ == b@,
            ca@.take(i as int) =~= cb@.take(i as int),
        decreases ca@.len() - i,
    {
        if ca[i] != cb[i] {
            assert(a@[i as int] != b@[i as int]);
            return false;
        }
        assert(ca@.take(i + 1) =~= ca@.take(i as int).push(ca@[i as int]));
        assert(cb@.take(i + 1) =~= cb@.take(i as int).push(cb@[i as int]));
        i = i + 1;
    }
    assert(ca@.take(ca@.len() as int) =~= ca@);
    assert(cb@.take(cb@.len() as int) =~= cb@);
    true
}

/// Whether `s` begins with `prefix`.
pub fn begins_with(s: &str, prefix: &str) -> (r: bool)
    ensures
        r == prefix@.is_prefix_of(s@),
{
    let cs = crate::text::chars_of(s);
    let cp = crate::text::chars_of(prefix);
    if cp.len() > cs.len() {
        return false;
    }
    let mut i: usize = 0;
    while i < cp.len()
        invariant
            i <= cp@.len() <= cs@.len(),
            cs@ == s@,
            cp@ == prefix@,
            cp@.take(i as int) =~= cs@.take(i as int),
        decreases cp@.len() - i,
    {
        if cp[i] != cs[i] {
            assert(s@.subrange(0, prefix@.len() as int)[i as int] != prefix@[i as int]);
            return false;
        }
        assert(cp@.take(i + 1) =~= cp@.take(i as int).push(cp@[i as int]));
        assert(cs@.take(i + 1) =~= cs@.take(i as int).push(cs@[i as int]));
        i = i + 1;
    }
    assert(cp@.take(cp@.len() as int) =~= cp@);
    assert(prefix@ =~= s@.subrange(0, prefix@.len() as int));
    true
}

/// Whether `c` occurs in `s`.
pub fn holds_char(s: &str, c: char) -> (r: bool)
    ensures
        r == s@.contains(c),
{
    let cs = crate::text::chars_of(s);
    let mut i: usize = 0;
    while i < cs.len()
        invariant
            i <= cs@.len(),
            cs@ == s@,
            forall|j: int| 0 <= j < i ==> cs@[j] != c,
        decreases cs@.len() - i,
    {
        if cs[i] == c {
            assert(s@[i as int] == c);
            return true;
        }
        i = i + 1;
    }
    false
}

/// The pieces of `s` between `sep` characters, in order; text with no `sep`
/// is one piece, and a trailing `sep` leaves an empty piece after it.
pub open spec fn pieces(s: Seq<char>, sep: char) -> Seq<Seq<char>>
    decreases s.len(),
{
    if s.len() == 0 {
        seq![Seq::<char>::empty()]
    } else {
        let before = pieces(s.drop_last(), sep);
        if s.last() == sep {
            before.push(Seq::<char>::empty())
        } else {
            before.update(before.len() - 1, before.last().push(s.last()))
        }
    }
}

/// Text always has at least one piece.
pub proof fn lemma_pieces_len(s: Seq<char>, sep: char)
    ensures
        pieces(s, sep).len() >= 1,
    decreases s.len(),
{
    if s.len() > 0 {
        lemma_pieces_len(s.drop_last(), sep);
    }
}

/// `s` cut into its pieces at each `sep`.
pub fn split_on(s: &str, sep: char) -> (out: Vec<String>)
    ensures
        out@.map_values(|x: String| x@) == pieces(s@, sep),
{
    let chars = crate::text::chars_of(s);
    let mut out: Vec<String> = Vec::new();
    let mut cur = String::new();
    let mut i: usize = 0;
    assert(chars@.take(0) =~= Seq::<char>::empty());
    assert(out@.map_values(|x: String| x@).push(cur@) =~= pieces(chars@.take(0), sep));
    while i < chars.len()
        invariant
            i <= chars@.len(),
            chars@ == s@,
            out@.map_values(|x: String| x@).push(cur@) == pieces(chars@.take(i as int), sep),
        decreases chars@.len() - i,
    {
        let ghost before = out@.map_values(|x: String| x@).push(cur@);
        assert(chars@.take(i + 1).drop_last() =~= chars@.take(i as int));
        assert(chars@.take(i + 1).last() == chars@[i as int]);
        if chars[i] == sep {
            let piece = cur;
            out.push(piece);
            cur = String::new();
            assert(out@.map_values(|x: String| x@).push(cur@) =~= before.push(Seq::<char>::empty()));
        } else {
            push_char(&mut cur, chars[i]);
            assert(out@.map_values(|x: String| x@).push(cur@) =~= before.update(before.len() - 1, before.last().push(chars@[i as int])));
        }
        i = i + 1;
    }
    assert(chars@.take(chars@.len() as int) =~= chars@);
    let ghost whole = out@.map_values(|x: String| x@).push(cur@);
    out.push(cur);
    assert(out@.map_values(|x: String| x@) =~= whole);
    out
}

} // verus!
