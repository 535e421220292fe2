//! Byte-string helpers shared by the readers.
use vstd::prelude::*;
use vstd::string::StringSliceAdditionalSpecFns;
use vstd::utf8::encode_utf8;

verus! {

/// Whether `suffix` ends `s`.
pub fn ends_with(s: &[u8], suffix: &[u8]) -> (r: bool)
    ensures
        r == suffix@.is_suffix_of(s@),
{
    if suffix.len() > s.len() {
        return false;
    }
    let off = s.len() - suffix.len();
    let mut i: usize = 0;
    while i < suffix.len()
        invariant
            off + suffix@.len() == s@.len(),
            s@.len() == s.len(),
            i <= suffix@.len(),
            forall|k: int| 0 <= k < i ==> suffix@[k] == s@[off + k],
        decreases suffix@.len() - i,
    {
        if suffix[i] != s[off + i] {
            assert(suffix@[i as int] != s@.subrange(off as int, s@.len() as int)[i as int]);
            return false;
        }
        i = i + 1;
    }
    assert(suffix@ =~= s@.subrange(off as int, s@.len() as int));
    true
}

/// Whether the bytes of the text `suffix` end `s`.
pub fn ends_with_str(s: &[u8], suffix: &str) -> (r: bool)
    ensures
        r == encode_utf8(suffix@).is_suffix_of(s@),
{
    ends_with(s, suffix.as_bytes())
}

} // verus!
