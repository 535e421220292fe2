//! Where a token the engine located by RAW byte offsets is drawn, once the
//! pane has expanded the line's tabs.
use vstd::prelude::*;
use vstd::string::StringSliceAdditionalSpecFns;
use vstd::utf8::{decode_utf8, encode_utf8, encode_utf8_decode_utf8, is_char_boundary};

use crate::strings::push_char;

verus! {

/// The columns a tab advances to the next multiple of.
pub const TAB_WIDTH: usize = 4;

/// `n` spaces.
pub open spec fn spaces(n: nat) -> Seq<char> {
    Seq::new(n, |i: int| ' ')
}

/// `s` with every tab replaced by the spaces that reach the next multiple of
/// `width` columns, counting one column per character.
pub open spec fn expanded(s: Seq<char>, width: nat) -> Seq<char>
    decreases s.len(),
{
    if s.len() == 0 {
        s
    } else {
        let before = expanded(s.drop_last(), width);
        if s.last() == '\t' {
            before + spaces((width - before.len() % width) as nat)
        } else {
            before.push(s.last())
        }
    }
}

proof fn lemma_expanded_len(s: Seq<char>, width: nat)
    requires
        width >= 1,
    ensures
        expanded(s, width).len() <= s.len() * width,
    decreases s.len(),
{
    if s.len() > 0 {
        lemma_expanded_len(s.drop_last(), width);
        let b = expanded(s.drop_last(), width).len();
        assert(b % width >= 0);
        assert((s.len() - 1) * width + width == s.len() * width) by (nonlinear_arith);
    }
}

/// Expand the tabs of `s`, each to the next multiple of `width` columns.
pub fn expand_tabs(s: &str, width: usize) -> (out: String)
    requires
        width >= 1,
        s@.len() * width <= usize::MAX,
    ensures
        out@ == expanded(s@, width as nat),
{
    let mut out = String::new();
    let mut col: usize = 0;
    for c in it: s.chars()
        invariant
            width >= 1,
            s@.len() * width <= usize::MAX,
            it.seq() == s@,
            out@ == expanded(s@.take(it.index() as int), width as nat),
            col == out@.len(),
    {
        let ghost i = it.index();
        assert(s@.take(i + 1).drop_last() =~= s@.take(i as int));
        proof {
            lemma_expanded_len(s@.take(i + 1), width as nat);
            lemma_expanded_len(s@.take(i as int), width as nat);
            assert(i * width + width <= s@.len() * width) by (nonlinear_arith)
                requires i + 1 <= s@.len(), width >= 1;
        }
        if c == '\t' {
            let pad = width - col % width;
            let ghost before = out@;
            let mut k: usize = 0;
            while k < pad
                invariant
                    k <= pad,
                    out@ == before + spaces(k as nat),
                decreases pad - k,
            {
                assert(spaces((k + 1) as nat) =~= spaces(k as nat).push(' '));
                push_char(&mut out, ' ');
                k = k + 1;
            }
            col = col + pad;
        } else {
            push_char(&mut out, c);
            col = col + 1;
        }
    }
    assert(s@.take(s@.len() as int) =~= s@);
    out
}

/// Where raw byte `byte` of the line `raw` is drawn: the byte length of the
/// line's expanded prefix — or `byte` itself when it does not fall on a
/// character boundary inside the line.
pub open spec fn drawn_at(raw: Seq<char>, byte: usize) -> usize {
    let bytes = encode_utf8(raw);
    if is_char_boundary(bytes, byte as int) {
        encode_utf8(expanded(decode_utf8(bytes.subrange(0, byte as int)), TAB_WIDTH as nat)).len() as usize
    } else {
        byte
    }
}

fn drawn_offset(raw: &str, byte: usize) -> (n: usize)
    requires
        raw@.len() * TAB_WIDTH <= usize::MAX,
    ensures
        n == drawn_at(raw@, byte),
{
    proof {
        vstd::utf8::encode_utf8_valid_utf8(raw@);
    }
    if raw.is_char_boundary(byte) {
        let (prefix, _) = raw.split_at(byte);
        proof {
            vstd::utf8::valid_utf8_split(encode_utf8(raw@), byte as int);
            encode_utf8_decode_utf8(prefix@);
            assert(prefix@.len() <= raw@.len()) by {
                lemma_decoded_prefix_shorter(raw@, byte as int);
            }
            assert(prefix@.len() * TAB_WIDTH <= raw@.len() * TAB_WIDTH) by (nonlinear_arith)
                requires prefix@.len() <= raw@.len();
        }
        let out = expand_tabs(prefix, TAB_WIDTH);
        let text = out.as_str();
        assert(prefix@ == decode_utf8(encode_utf8(raw@).subrange(0, byte as int)));
        assert(text@ == expanded(prefix@, TAB_WIDTH as nat));
        text.len()
    } else {
        byte
    }
}

/// A prefix of a text's bytes that ends on a boundary holds no more
/// characters than the text.
proof fn lemma_decoded_prefix_shorter(raw: Seq<char>, byte: int)
    requires
        is_char_boundary(encode_utf8(raw), byte),
    ensures
        decode_utf8(encode_utf8(raw).subrange(0, byte)).len() <= raw.len(),
{
    let bytes = encode_utf8(raw);
    vstd::utf8::encode_utf8_valid_utf8(raw);
    vstd::utf8::decode_utf8_split(bytes, byte);
    encode_utf8_decode_utf8(raw);
}

/// Turn raw-line byte offsets into offsets in the text the pane draws.
///
/// Expanding the PREFIX is exact and needs no table: whatever the expansion
/// did to the bytes before the token is exactly how far the token moved.
/// Without the raw line there is nothing to translate against, so the offsets
/// pass through.
pub fn drawn_columns(raw: Option<&str>, start: u32, end: u32) -> (r: (usize, usize))
    requires
        raw matches Some(line) ==> line@.len() * TAB_WIDTH <= usize::MAX,
    ensures
        raw is None ==> r == (start as usize, end as usize),
        raw matches Some(line) ==> r == (drawn_at(line@, start as usize), drawn_at(line@, end as usize)),
{
    let (s, e) = (start as usize, end as usize);
    match raw {
        None => (s, e),
        Some(line) => (drawn_offset(line, s), drawn_offset(line, e)),
    }
}

} // verus!
