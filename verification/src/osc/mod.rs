//! Escape sequences for the terminal the reader is AT: the clipboard, a
//! desktop notification and a progress bar, each written to stdout for the
//! terminal emulator to interpret.
//!
//! Every one of them is write-only: there is no reply, so nothing here may
//! report that a sequence landed.
use vstd::prelude::*;

pub mod clipboard;
pub mod notify;
pub mod progress;

verus! {

/// How a sequence is framed for the terminal it travels to.
#[derive(Debug, Clone, Copy, PartialEq, Eq)]
pub enum Wrap {
    /// Nothing between this process and the terminal: the sequence goes as
    /// it is.
    Bare,
}

/// The bytes `wrap` sends for the sequence `inner`.
pub open spec fn wrapped(wrap: Wrap, inner: Seq<char>) -> Seq<char> {
    match wrap {
        Wrap::Bare => inner,
    }
}

impl Wrap {
    /// The sequence `inner`, ready for stdout.
    pub fn apply(self, inner: String) -> (out: String)
        ensures
            out@ == wrapped(self, inner@),
    {
        match self {
            Wrap::Bare => inner,
        }
    }
}

} // verus!
