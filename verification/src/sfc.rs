//! The single-file component's script, read where it stands.
//!
//! A `.vue` file is a `<template>`, a `<script>` and a `<style>` in one file,
//! and the part a dependency graph needs is the script. This **masks** the
//! file: every byte outside a `<script>` body becomes a space and every line
//! break is kept, so byte offsets, line numbers and columns are all unchanged
//! and a TypeScript reader can run over the result as it is.
use vstd::prelude::*;

use crate::lines::{newlines, NEWLINE};
use crate::patterns::{group1_spans, regex_group1_spans, spans_within};

verus! {

/// `<script …>` … `</script>`, case-insensitively, across lines, and the
/// shortest body so two blocks do not become one. Group 1 is the body.
pub const SCRIPT_PATTERN: &'static str = "(?is)<script\\b[^>]*>(.*?)</script\\s*>";

/// The byte `\r`.
pub const RETURN: u8 = 13;

/// The byte ` `.
pub const SPACE: u8 = 32;

/// Whether byte `i` lies inside one of `spans`.
pub open spec fn covered(spans: Seq<(usize, usize)>, i: int) -> bool {
    exists|k: int| 0 <= k < spans.len() && (#[trigger] spans[k]).0 <= i < spans[k].1
}

/// `content` with every byte outside `spans` made a space, line breaks kept.
pub open spec fn mask(content: Seq<u8>, spans: Seq<(usize, usize)>) -> Seq<u8> {
    Seq::new(content.len(), |i: int|
        if covered(spans, i) || content[i] == NEWLINE || content[i] == RETURN {
            content[i]
        } else {
            SPACE
        })
}

/// The script bodies of `content`, as the pattern finds them.
pub open spec fn script_bodies(content: Seq<u8>) -> Seq<(usize, usize)> {
    regex_group1_spans(SCRIPT_PATTERN@, content)
}

/// Everything outside a `<script>` body replaced by a space, line breaks kept.
///
/// `None` when the file holds no script block at all — a template-only
/// component. That is the "claimed it and could not read it" answer, and the
/// floor takes the file, exactly as it does for a failed parse.
pub fn script_only(content: &[u8]) -> (r: Option<Vec<u8>>)
    ensures
        script_bodies(content@).len() == 0 <==> r is None,
        r matches Some(masked) ==> masked@ == mask(content@, script_bodies(content@)),
{
    let spans = group1_spans(SCRIPT_PATTERN, content);
    let ghost bodies = spans@;
    let mut masked: Vec<u8> = Vec::new();
    let mut i: usize = 0;
    while i < content.len()
        invariant
            i <= content@.len(),
            masked@.len() == i,
            forall|j: int| 0 <= j < i ==> #[trigger] masked@[j] == (if content@[j] == NEWLINE || content@[j] == RETURN {
                content@[j]
            } else {
                SPACE
            }),
        decreases content@.len() - i,
    {
        let b = content[i];
        if b == NEWLINE || b == RETURN {
            masked.push(b);
        } else {
            masked.push(SPACE);
        }
        i = i + 1;
    }
    let mut k: usize = 0;
    while k < spans.len()
        invariant
            k <= spans@.len(),
            spans@ == bodies,
            spans_within(bodies, content@.len()),
            masked@.len() == content@.len(),
            forall|j: int| 0 <= j < content@.len() ==> #[trigger] masked@[j] == (
                if covered(bodies.take(k as int), j) || content@[j] == NEWLINE || content@[j] == RETURN {
                    content@[j]
                } else {
                    SPACE
                }),
        decreases spans@.len() - k,
    {
        let (start, end) = spans[k];
        assert(bodies[k as int].0 <= bodies[k as int].1 <= content@.len());
        let ghost before = masked@;
        let mut j: usize = start;
        while j < end
            invariant
                start <= j <= end,
                end <= content@.len(),
                masked@.len() == content@.len(),
                forall|m: int| 0 <= m < content@.len() ==> #[trigger] masked@[m] == (
                    if start <= m < j { content@[m] } else { before[m] }),
            decreases end - j,
        {
            masked.set(j, content[j]);
            j = j + 1;
        }
        assert forall|m: int| 0 <= m < content@.len() implies #[trigger] masked@[m] == (
            if covered(bodies.take(k + 1), m) || content@[m] == NEWLINE || content@[m] == RETURN {
                content@[m]
            } else {
                SPACE
            }) by {
            let t = bodies.take(k + 1);
            if covered(bodies.take(k as int), m) {
                let w = choose|w: int| 0 <= w < bodies.take(k as int).len() && (#[trigger] bodies.take(k as int)[w]).0 <= m < bodies.take(k as int)[w].1;
                assert(t[w] == bodies.take(k as int)[w]);
            }
            if start <= m < end {
                assert(t[k as int] == bodies[k as int]);
            }
            if covered(t, m) {
                let w = choose|w: int| 0 <= w < t.len() && (#[trigger] t[w]).0 <= m < t[w].1;
                if w < k {
                    assert(bodies.take(k as int)[w] == t[w]);
                }
            }
        }
        k = k + 1;
    }
    assert(bodies.take(bodies.len() as int) =~= bodies);
    if spans.len() == 0 {
        None
    } else {
        assert(masked@ =~= mask(content@, bodies));
        Some(masked)
    }
}

/// The mask keeps every byte position and every line: it is as long as the
/// file, and it holds a `\n` exactly where the file does — so the line count
/// and every line's start stand where they stood.
pub proof fn lemma_mask_keeps_lines(content: Seq<u8>, spans: Seq<(usize, usize)>)
    ensures
        mask(content, spans).len() == content.len(),
        forall|i: int| 0 <= i < content.len() ==> (#[trigger] mask(content, spans)[i] == NEWLINE <==> content[i] == NEWLINE),
        newlines(mask(content, spans)) == newlines(content),
    decreases content.len(),
{
    if content.len() > 0 {
        let shorter = content.drop_last();
        lemma_mask_keeps_lines(shorter, spans);
        assert(mask(content, spans).drop_last() =~= mask(shorter, spans));
    }
}

} // verus!
