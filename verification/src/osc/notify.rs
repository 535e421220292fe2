//! OSC 9: the desktop notification the TERMINAL raises.
//!
//! The session that matters may be at the far end of an SSH connection; the
//! sequence travels the pipe that is already open. It carries a title and
//! nothing else, so the line has to be the whole message.
use vstd::prelude::*;

use super::{wrapped, Wrap};

verus! {

/// Preparation finished and the app is open.
pub const READY: &'static str = "dfr: the review is ready";

/// Preparation did not finish. The reason stays on stderr, where the reader
/// finds it when they come back — a title is one line and an error is not.
pub const FAILED: &'static str = "dfr: preparing the review failed";

/// The notification sequence for `title`: `ESC ] 9 ; <title> ESC \`.
pub open spec fn notify_sequence(title: Seq<char>) -> Seq<char> {
    "\u{1b}]9;"@ + title + "\u{1b}\\"@
}

/// The bytes to write to stdout.
pub fn sequence(title: &str, wrap: Wrap) -> (r: String)
    ensures
        r@ == wrapped(wrap, notify_sequence(title@)),
{
    let mut inner = String::new();
    inner.append("\u{1b}]9;");
    inner.append(title);
    inner.append("\u{1b}\\");
    wrap.apply(inner)
}

/// Whether `c` is an ASCII digit.
pub open spec fn is_digit(c: char) -> bool {
    '0' <= c <= '9'
}

/// Whether a terminal would read `title` as a progress command: OSC 9 and
/// OSC 9;4 share a prefix, and a title that opens with digits and then a `;`
/// is told apart from one only by what follows.
pub open spec fn reads_as_progress(title: Seq<char>) -> bool {
    exists|n: int| 1 <= n < title.len() && title[n] == ';' && forall|j: int| 0 <= j < n ==> is_digit(#[trigger] title[j])
}

/// No title this crate sends can be mistaken for a progress command.
pub proof fn lemma_no_title_reads_as_progress()
    ensures
        !reads_as_progress(READY@),
        !reads_as_progress(FAILED@),
{
    reveal_strlit("dfr: the review is ready");
    reveal_strlit("dfr: preparing the review failed");
    assert(!is_digit(READY@[0]));
    assert(!is_digit(FAILED@[0]));
}

} // verus!
