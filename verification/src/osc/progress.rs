//! OSC 9;4: the progress bar the TERMINAL draws, on its own tab.
//!
//! The ConEmu extension. Three of its five states: a failed run clears the bar
//! and says so with a notification, because a red bar left in someone's tab
//! outlives the process that put it there.
use vstd::prelude::*;

use crate::strings::{decimal, push_decimal};

use super::{wrapped, Wrap};

verus! {

/// What the bar shows.
#[derive(Debug, Clone, Copy, PartialEq, Eq)]
pub enum State {
    /// State 1. This percentage of the run is done.
    At(u8),
    /// State 3, indeterminate: working, and nothing can estimate for how long.
    Working,
    /// State 0. Nothing is running; the terminal takes the bar down.
    Clear,
}

/// The percentage a bar at `p` shows: clamped, never above a hundred.
pub open spec fn shown(p: u8) -> nat {
    if p > 100 { 100 } else { p as nat }
}

/// The progress sequence for `state`.
pub open spec fn progress_sequence(state: State) -> Seq<char> {
    match state {
        State::At(p) => "\u{1b}]9;4;1;"@ + decimal(shown(p)) + "\u{1b}\\"@,
        State::Working => "\u{1b}]9;4;3\u{1b}\\"@,
        State::Clear => "\u{1b}]9;4;0\u{1b}\\"@,
    }
}

/// The bytes to write to stdout. A percentage over a hundred is clamped
/// rather than refused: a bar is not worth a panic.
pub fn sequence(state: State, wrap: Wrap) -> (r: String)
    ensures
        r@ == wrapped(wrap, progress_sequence(state)),
{
    let mut inner = String::new();
    match state {
        State::At(p) => {
            inner.append("\u{1b}]9;4;1;");
            let clamped: u8 = if p > 100 { 100 } else { p };
            push_decimal(&mut inner, clamped as u64);
            inner.append("\u{1b}\\");
        },
        State::Working => inner.append("\u{1b}]9;4;3\u{1b}\\"),
        State::Clear => inner.append("\u{1b}]9;4;0\u{1b}\\"),
    }
    wrap.apply(inner)
}

/// A percentage over a hundred is sent as a hundred, and one at or under it
/// as itself.
pub proof fn lemma_percentage_is_clamped(p: u8)
    ensures
        p >= 100 ==> progress_sequence(State::At(p)) == progress_sequence(State::At(100)),
        p <= 100 ==> shown(p) == p,
{
}

/// A bar on the reader's tab. The process that owns one clears it on every
/// way out (see [`Bar::clear`]).
pub struct Bar {
    wrap: Wrap,
}

impl Bar {
    /// How this bar's sequences are framed.
    pub closed spec fn wrap(&self) -> Wrap {
        self.wrap
    }

    pub fn new(wrap: Wrap) -> (b: Bar)
        ensures
            b.wrap() == wrap,
    {
        Bar { wrap }
    }

    /// The bytes that put the bar in `state`. Idempotent: sending them again
    /// is the keep-alive a terminal needs.
    pub fn set(&self, state: State) -> (r: String)
        ensures
            r@ == wrapped(self.wrap(), progress_sequence(state)),
    {
        sequence(state, self.wrap)
    }

    /// The bytes that take the bar down.
    pub fn clear(&self) -> (r: String)
        ensures
            r@ == wrapped(self.wrap(), progress_sequence(State::Clear)),
    {
        self.set(State::Clear)
    }
}

} // verus!
