//! The forge, as the reader of a change talks to it: whether a call may go
//! out, what a poll of the call in flight does, and the footer's words for
//! each answer.
//!
//! The calls themselves run on worker threads and the answers are written
//! into the session; both are the app's. What is decided here is which call
//! is still out after a poll, whether the screen changed, and what the
//! reader is told.
use vstd::prelude::*;

use crate::strings::{decimal, push_decimal, push_text};

verus! {

/// A forge call that can be in flight; one at a time.
#[derive(Debug, Clone, Copy, PartialEq, Eq, Structural)]
pub enum Call {
    Fetch,
    Resolve,
    Publish,
    Edit,
    Delete,
}

/// What the worker's channel held when it was asked.
#[derive(Debug, Clone, Copy, PartialEq, Eq, Structural)]
pub enum Reply {
    /// No answer yet.
    Empty,
    /// The worker went away without answering.
    Gone,
    /// The answer is in.
    Came,
}

/// What a poll came to.
#[derive(Debug, Clone, Copy, PartialEq, Eq, Structural)]
pub enum Polled {
    /// No call was out.
    Nothing,
    /// The call is still out, and stays in flight.
    StillWaiting,
    /// The call's worker is gone: the footer says the call was lost.
    Lost,
    /// This call's answer is in, for the app to take into the session.
    Answered(Call),
}

/// The call still in flight after a poll, and what the poll came to.
pub open spec fn spec_poll(inflight: Option<Call>, reply: Reply) -> (Option<Call>, Polled) {
    match inflight {
        None => (None, Polled::Nothing),
        Some(c) => match reply {
            Reply::Empty => (Some(c), Polled::StillWaiting),
            Reply::Gone => (None, Polled::Lost),
            Reply::Came => (None, Polled::Answered(c)),
        },
    }
}

/// One poll of the forge: the call in flight is taken, and put back only
/// when its answer has not come yet. A call is never left in flight once it
/// has answered or its worker is gone.
pub fn poll(inflight: Option<Call>, reply: Reply) -> (r: (Option<Call>, Polled))
    ensures
        r == spec_poll(inflight, reply),
        r.0 is Some ==> r.1 == Polled::StillWaiting,
{
    match inflight {
        None => (None, Polled::Nothing),
        Some(c) => match reply {
            Reply::Empty => (Some(c), Polled::StillWaiting),
            Reply::Gone => (None, Polled::Lost),
            Reply::Came => (None, Polled::Answered(c)),
        },
    }
}

/// Whether a poll changed the screen: an answer came, or the call was lost.
pub fn changed(p: Polled) -> (r: bool)
    ensures
        r == (p is Lost || p is Answered),
{
    match p {
        Polled::Lost => true,
        Polled::Answered(_) => true,
        _ => false,
    }
}

/// Why no call may go out now, if one may not: the review is not of a
/// request, or a call is already out. A second call is refused rather than
/// queued.
pub fn refusal(has_forge: bool, syncing: bool) -> (r: Option<&'static str>)
    ensures
        !has_forge ==> r is Some && r->0@ == "this review is not of a pull request"@,
        has_forge && syncing ==> r is Some && r->0@ == "still syncing with the forge"@,
        has_forge && !syncing ==> r is None,
{
    if !has_forge {
        Some("this review is not of a pull request")
    } else if syncing {
        Some("still syncing with the forge")
    } else {
        None
    }
}

/// The plural ending for a count.
pub open spec fn spec_plural(n: nat) -> Seq<char> {
    if n == 1 { ""@ } else { "s"@ }
}

/// `n`, a space, and a noun that agrees with it.
pub open spec fn counted(n: nat, noun: Seq<char>) -> Seq<char> {
    decimal(n) + " "@ + noun + spec_plural(n)
}

/// The plural ending for a count: none for one, `s` otherwise.
pub fn plural(n: usize) -> (r: &'static str)
    ensures
        r@ == spec_plural(n as nat),
{
    if n == 1 { "" } else { "s" }
}

/// Append `n`, a space and `noun` agreeing with it.
fn push_counted(out: &mut String, n: usize, noun: &str)
    ensures
        final(out)@ == old(out)@ + counted(n as nat, noun@),
{
    push_decimal(out, n as u64);
    push_text(out, " ");
    push_text(out, noun);
    push_text(out, plural(n));
}

/// The footer after a fetch: how many threads there are, how many have no
/// line in this diff, and how many findings the fetch showed were already
/// published.
pub open spec fn spec_fetched_status(n: nat, unplaced: nat, reconciled: nat) -> Seq<char> {
    let head = if n == 0 {
        "no review threads on the request"@
    } else if unplaced == 0 {
        counted(n, "review thread"@)
    } else {
        counted(n, "review thread"@) + " · "@ + decimal(unplaced) + " with no line in this diff"@
    };
    if reconciled > 0 {
        head + " · "@ + counted(reconciled, "finding"@) + " found already published"@
    } else {
        head
    }
}

/// The footer after a fetch whose threads were saved.
pub fn fetched_status(n: usize, unplaced: usize, reconciled: usize) -> (r: String)
    ensures
        r@ == spec_fetched_status(n as nat, unplaced as nat, reconciled as nat),
{
    let mut out = String::new();
    if n == 0 {
        push_text(&mut out, "no review threads on the request");
    } else {
        push_counted(&mut out, n, "review thread");
        if unplaced != 0 {
            push_text(&mut out, " · ");
            push_decimal(&mut out, unplaced as u64);
            push_text(&mut out, " with no line in this diff");
        }
    }
    if reconciled > 0 {
        push_text(&mut out, " · ");
        push_counted(&mut out, reconciled, "finding");
        push_text(&mut out, " found already published");
    }
    out
}

/// The footer after a publish. `save_error` is the session's own failure to
/// save what came back, which outranks everything; `stopped` says the forge
/// took part of the batch and stopped; `refetch_error` says why the threads
/// could not be fetched back. `landed` of the `total` findings sent are on
/// the request.
pub open spec fn spec_published_status(
    landed: nat,
    total: nat,
    stopped: bool,
    save_error: Option<Seq<char>>,
    refetch_error: Option<Seq<char>>,
) -> Seq<char> {
    let tally = "published "@ + decimal(landed) + " of "@ + decimal(total);
    if save_error is Some {
        "save failed: "@ + save_error->0
    } else if stopped {
        tally + " · the forge stopped part-way · R to check, P to send the rest"@
    } else if refetch_error is Some {
        tally + " · the threads could not be fetched back ("@ + refetch_error->0 + ") · R to retry"@
    } else if landed < total {
        tally + " · "@ + decimal((total - landed) as nat) + " not confirmed by the forge, R to check, P to retry"@
    } else {
        "published "@ + counted(landed, "comment"@)
    }
}

/// The footer after a publish, as `spec_published_status` words it.
pub fn published_status(
    landed: usize,
    total: usize,
    stopped: bool,
    save_error: Option<&str>,
    refetch_error: Option<&str>,
) -> (r: String)
    ensures
        r@ == spec_published_status(
            landed as nat,
            total as nat,
            stopped,
            match save_error { Some(e) => Some(e@), None => None },
            match refetch_error { Some(e) => Some(e@), None => None },
        ),
{
    let mut out = String::new();
    if let Some(e) = save_error {
        push_text(&mut out, "save failed: ");
        push_text(&mut out, e);
        return out;
    }
    if !stopped && refetch_error.is_none() && landed >= total {
        push_text(&mut out, "published ");
        push_counted(&mut out, landed, "comment");
        return out;
    }
    push_text(&mut out, "published ");
    push_decimal(&mut out, landed as u64);
    push_text(&mut out, " of ");
    push_decimal(&mut out, total as u64);
    if stopped {
        push_text(&mut out, " · the forge stopped part-way · R to check, P to send the rest");
    } else if let Some(e) = refetch_error {
        push_text(&mut out, " · the threads could not be fetched back (");
        push_text(&mut out, e);
        push_text(&mut out, ") · R to retry");
    } else {
        push_text(&mut out, " · ");
        push_decimal(&mut out, (total - landed) as u64);
        push_text(&mut out, " not confirmed by the forge, R to check, P to retry");
    }
    out
}

/// The footer while a batch goes out.
pub open spec fn spec_publishing_status(n: nat) -> Seq<char> {
    "publishing "@ + counted(n, "comment"@) + "…"@
}

/// The footer while a batch of `n` comments goes out.
pub fn publishing_status(n: usize) -> (r: String)
    ensures
        r@ == spec_publishing_status(n as nat),
{
    let mut out = String::new();
    push_text(&mut out, "publishing ");
    push_counted(&mut out, n, "comment");
    push_text(&mut out, "…");
    out
}

/// `P` with nothing to send: every open finding is on the request, or
/// `excluded` of them cannot be held by the request's diff.
pub open spec fn spec_nothing_to_publish(excluded: nat) -> Seq<char> {
    if excluded == 0 {
        "nothing to publish: every open finding is on the request"@
    } else {
        "nothing to publish · "@ + counted(excluded, "finding"@) + " the request's diff cannot hold"@
    }
}

/// The footer for `P` when the batch is empty.
pub fn nothing_to_publish(excluded: usize) -> (r: String)
    ensures
        r@ == spec_nothing_to_publish(excluded as nat),
{
    let mut out = String::new();
    if excluded == 0 {
        push_text(&mut out, "nothing to publish: every open finding is on the request");
    } else {
        push_text(&mut out, "nothing to publish · ");
        push_counted(&mut out, excluded, "finding");
        push_text(&mut out, " the request's diff cannot hold");
    }
    out
}

/// The footer after the forge took a resolve: whether the session still had
/// the thread, and which way it went.
pub fn resolved_status(found: bool, resolved: bool) -> (r: &'static str)
    ensures
        !found ==> r@ == "that thread is gone"@,
        found && resolved ==> r@ == "thread resolved"@,
        found && !resolved ==> r@ == "thread reopened"@,
{
    if !found {
        "that thread is gone"
    } else if resolved {
        "thread resolved"
    } else {
        "thread reopened"
    }
}

/// The footer after the forge took an edit of the reader's comment.
pub fn edited_status(found: bool) -> (r: &'static str)
    ensures
        found ==> r@ == "comment rewritten on the request"@,
        !found ==> r@ == "that comment is gone"@,
{
    if found { "comment rewritten on the request" } else { "that comment is gone" }
}

/// The footer after the forge took a delete of the reader's comment.
pub fn deleted_status(found: bool) -> (r: &'static str)
    ensures
        found ==> r@ == "comment deleted on the request"@,
        !found ==> r@ == "that comment is gone"@,
{
    if found { "comment deleted on the request" } else { "that comment is gone" }
}

/// The footer when a call's worker went away.
pub fn lost_status() -> (r: &'static str)
    ensures
        r@ == "the forge call was lost"@,
{
    "the forge call was lost"
}

/// The headline of the notice a failed call opens; the forge's own words go
/// under it.
pub open spec fn spec_failure_headline(c: Call) -> Seq<char> {
    match c {
        Call::Fetch => "could not fetch review threads"@,
        Call::Resolve => "the thread was not resolved"@,
        Call::Publish => "nothing published"@,
        Call::Edit => "the comment was not changed"@,
        Call::Delete => "the comment was not deleted"@,
    }
}

/// The headline for a failed call.
pub fn failure_headline(c: Call) -> (r: &'static str)
    ensures
        r@ == spec_failure_headline(c),
{
    match c {
        Call::Fetch => "could not fetch review threads",
        Call::Resolve => "the thread was not resolved",
        Call::Publish => "nothing published",
        Call::Edit => "the comment was not changed",
        Call::Delete => "the comment was not deleted",
    }
}

/// One call at a time: whatever a poll answers, a call left in flight is the
/// one that was in flight, and a poll with no call out leaves none out and
/// changes nothing.
pub proof fn lemma_one_call_at_a_time(inflight: Option<Call>, reply: Reply)
    ensures
        spec_poll(inflight, reply).0 is Some ==> spec_poll(inflight, reply).0 == inflight,
        inflight is None ==> spec_poll(inflight, reply) == (None::<Call>, Polled::Nothing),
        inflight is Some && reply != Reply::Empty ==> spec_poll(inflight, reply).0 is None,
{
}

} // verus!
