//! `e` — the terminal goes to the reader's editor, and comes back. This is
//! what the footer says about it afterwards.
use vstd::prelude::*;

use crate::strings::{decimal, push_char, push_decimal};

verus! {

/// What happened, in the words the footer uses. Every arm is a sentence for
/// the reader rather than an error for a log.
#[derive(Debug)]
pub enum Outcome {
    /// The editor ran and exited cleanly.
    Edited,
    /// It ran and exited non-zero; the reader is told and nothing else changes.
    ExitedWith(String),
    /// It never started. The message is the operating system's, passed
    /// through.
    NotStarted(String),
    /// The path is not in the working tree.
    NotOnDisk,
}

/// What the footer says after `outcome`, for the path the reader asked for and
/// whether the command said where the line goes.
pub open spec fn outcome_message(outcome: Outcome, path: Seq<char>, carries_line: bool) -> Seq<char> {
    match outcome {
        Outcome::Edited => if carries_line {
            "edited "@ + path + " · the diff is not reloaded"@
        } else {
            "edited "@ + path + " · the command has no {line} · the diff is not reloaded"@
        },
        Outcome::ExitedWith(what) => what@ + " · the diff is not reloaded"@,
        Outcome::NotStarted(why) => why@,
        Outcome::NotOnDisk => path + " is not in the working tree"@,
    }
}

/// A signed number as decimal digits, `-` first when negative.
pub open spec fn signed_decimal(n: int) -> Seq<char> {
    if n < 0 { seq!['-'] + decimal((-n) as nat) } else { decimal(n as nat) }
}

/// What a failed exit says: the code it exited with, or — with no code, which
/// is a signal — that it was killed.
pub open spec fn exit_words(program: Seq<char>, code: Option<i32>) -> Seq<char> {
    match code {
        Some(c) => program + " exited "@ + signed_decimal(c as int),
        None => program + " was killed"@,
    }
}

impl Outcome {
    /// The footer line. Two facts on a clean exit, and the second is the one
    /// nobody would guess: the diff on screen is the diff that was generated,
    /// whatever was just written to the file.
    pub fn message(&self, path: &str, carries_line: bool) -> (m: String)
        ensures
            m@ == outcome_message(*self, path@, carries_line),
    {
        match self {
            Outcome::Edited => {
                let mut m = String::new();
                m.append("edited ");
                m.append(path);
                if carries_line {
                    m.append(" · the diff is not reloaded");
                } else {
                    m.append(" · the command has no {line} · the diff is not reloaded");
                }
                m
            },
            Outcome::ExitedWith(what) => {
                let mut m = what.clone();
                m.append(" · the diff is not reloaded");
                m
            },
            Outcome::NotStarted(why) => why.clone(),
            Outcome::NotOnDisk => {
                let mut m = String::new();
                m.append(path);
                m.append(" is not in the working tree");
                m
            },
        }
    }

    /// What an editor that ran and exited says: `Edited` on success, and
    /// otherwise its code — or, with none, that a signal killed it; "exited
    /// none" would say less than nothing.
    pub fn finished(program: &str, success: bool, code: Option<i32>) -> (o: Outcome)
        ensures
            success ==> o is Edited,
            !success ==> (o matches Outcome::ExitedWith(w) && w@ == exit_words(program@, code)),
    {
        if success {
            return Outcome::Edited;
        }
        let mut w = String::new();
        w.append(program);
        match code {
            Some(c) => {
                w.append(" exited ");
                if c < 0 {
                    push_char(&mut w, '-');
                    let magnitude: u64 = if c == i32::MIN { 2147483648u64 } else { (-c) as u64 };
                    push_decimal(&mut w, magnitude);
                } else {
                    push_decimal(&mut w, c as u64);
                }
            },
            None => w.append(" was killed"),
        }
        Outcome::ExitedWith(w)
    }

    /// An editor that never started: the program, then the operating system's
    /// own words for why.
    pub fn not_started(program: &str, why: &str) -> (o: Outcome)
        ensures
            o matches Outcome::NotStarted(m) && m@ == program@ + ": "@ + why@,
    {
        let mut m = String::new();
        m.append(program);
        m.append(": ");
        m.append(why);
        Outcome::NotStarted(m)
    }
}

} // verus!
