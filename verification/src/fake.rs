//! A stand-in for a language model in tests: it answers every prompt from
//! the class ids the prompt offers, and keeps count of what it was asked.
use vstd::prelude::*;

use crate::prompts::{ids_in_prompt, prompt_ids};

verus! {

/// A model that answers with `respond` applied to the prompt's class ids,
/// counting its calls and keeping every prompt it was given.
pub struct FakeBackend<F> {
    name: String,
    calls: usize,
    prompts: Vec<String>,
    respond: F,
}

impl<F: Fn(&[String]) -> String> FakeBackend<F> {
    /// The name it reports.
    pub closed spec fn spec_name(&self) -> Seq<char> {
        self.name@
    }

    /// How many prompts it has been asked, counted as a `usize` counts.
    pub closed spec fn spec_calls(&self) -> usize {
        self.calls
    }

    /// Every prompt it has been given, oldest first.
    pub closed spec fn spec_prompts(&self) -> Seq<Seq<char>> {
        self.prompts@.map_values(|p: String| p@)
    }

    /// The prompt it was given last, or the empty text before the first.
    pub open spec fn spec_last_prompt(&self) -> Seq<char> {
        if self.spec_prompts().len() == 0 { Seq::<char>::empty() } else { self.spec_prompts().last() }
    }

    /// What it answers with.
    pub closed spec fn spec_respond(&self) -> F {
        self.respond
    }

    /// A model called `name` that has not been asked anything yet.
    pub fn new(name: &str, respond: F) -> (r: Self)
        ensures
            r.spec_name() == name@,
            r.spec_calls() == 0,
            r.spec_prompts() == Seq::<Seq<char>>::empty(),
            r.spec_respond() == respond,
    {
        let r = FakeBackend { name: name.to_string(), calls: 0, prompts: Vec::new(), respond };
        assert(r.prompts@.map_values(|p: String| p@) =~= Seq::<Seq<char>>::empty());
        r
    }

    /// The name it reports.
    pub fn name(&self) -> (r: &str)
        ensures
            r@ == self.spec_name(),
    {
        self.name.as_str()
    }

    /// How many prompts it has been asked.
    pub fn calls(&self) -> (r: usize)
        ensures
            r == self.spec_calls(),
    {
        self.calls
    }

    /// The prompt it was given last, or nothing before the first.
    pub fn last_prompt(&self) -> (r: String)
        ensures
            r@ == self.spec_last_prompt(),
    {
        let n = self.prompts.len();
        if n == 0 {
            String::new()
        } else {
            self.prompts[n - 1].clone()
        }
    }

    /// `after` is `before` having answered `prompt`: one more call counted
    /// (wrapping, as an atomic counter does) and the prompt kept last.
    pub open spec fn completes(before: Self, prompt: Seq<char>, after: Self) -> bool {
        &&& after.spec_name() == before.spec_name()
        &&& after.spec_respond() == before.spec_respond()
        &&& after.spec_calls() == (if before.spec_calls() == usize::MAX { 0 } else { (before.spec_calls() + 1) as usize })
        &&& after.spec_prompts() == before.spec_prompts().push(prompt)
    }

    /// Answer `prompt`: count the call, keep the prompt, and hand the
    /// prompt's class ids to `respond`. The count wraps, as an atomic
    /// counter's does.
    pub fn complete(&mut self, prompt: &str) -> (answer: String)
        requires
            forall|ids: &[String]| call_requires(old(self).spec_respond(), (ids,)),
        ensures
            Self::completes(*old(self), prompt@, *final(self)),
            exists|ids: &[String]|
                ids@.map_values(|w: String| w@) == prompt_ids(prompt@)
                && call_ensures(old(self).spec_respond(), (ids,), answer),
    {
        self.calls = if self.calls == usize::MAX { 0 } else { self.calls + 1 };
        let ghost before = self.prompts@;
        self.prompts.push(prompt.to_string());
        assert(self.prompts@.map_values(|p: String| p@) =~= before.map_values(|p: String| p@).push(prompt@));
        let ids = ids_in_prompt(prompt);
        let given = ids.as_slice();
        assert(given@ == ids@);
        assert(call_requires(old(self).spec_respond(), (given,)));
        (self.respond)(given)
    }
}

/// A backend asked `prompts` in order from new has counted every call and
/// kept every prompt: after `k` calls its count is `k`, and its last prompt
/// is the last one asked (the empty text before the first).
pub proof fn lemma_the_fake_counts_every_call_and_keeps_the_last_prompt<F: Fn(&[String]) -> String>(
    states: Seq<FakeBackend<F>>,
    prompts: Seq<Seq<char>>,
)
    requires
        states.len() == prompts.len() + 1,
        prompts.len() <= usize::MAX,
        states[0].spec_calls() == 0,
        states[0].spec_prompts() == Seq::<Seq<char>>::empty(),
        forall|k: int| 0 <= k < prompts.len() ==> FakeBackend::completes(#[trigger] states[k], prompts[k], states[k + 1]),
    ensures
        states.last().spec_calls() == prompts.len(),
        states.last().spec_prompts() == prompts,
        states.last().spec_last_prompt() == (if prompts.len() == 0 { Seq::<char>::empty() } else { prompts.last() }),
        states.last().spec_name() == states[0].spec_name(),
    decreases prompts.len(),
{
    if prompts.len() > 0 {
        let n = prompts.len() - 1;
        lemma_the_fake_counts_every_call_and_keeps_the_last_prompt(states.take(n + 1), prompts.take(n));
        assert(states.take(n + 1).last() == states[n]);
        assert(FakeBackend::completes(states[n], prompts[n], states[n + 1]));
        assert(prompts.take(n).push(prompts[n]) =~= prompts);
    }
}

} // verus!
