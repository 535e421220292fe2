//! Where the reader is standing, as the help modal and the footer name it.
use vstd::prelude::*;

use crate::hints::{is_separator, piece_texts, Hint};
use crate::keymap::Screen;
use crate::strings::{push_char, push_text};
use crate::text::Ink;

verus! {

/// Where the reader is standing. Everything the two key lists differ by.
#[derive(Debug, Clone, Copy, PartialEq, Eq)]
pub enum Area {
    /// The left pane: the reading plan, or the file tree.
    Plan,
    /// The diff pane, on an ordinary row.
    Diff,
    /// The diff pane, with a line selection open.
    Selecting,
    /// The diff pane, with the symbol float open. Not modal: `j`/`k` still
    /// move the cursor, and moving it is one of the ways out.
    Peeking,
    /// The diff pane, on a review thread the forge holds.
    Thread { own: bool, resolved: bool },
    FileList,
    Findings,
    /// `/` — the search box. Every printable key types into it.
    Search,
    /// Writing a finding.
    Composer,
    /// A question only `y` answers: a publish, a comment's deletion.
    Question,
    /// Help itself, and a notice. Any key closes them.
    Reading,
}

/// The places of the review proper; every other place is a modal.
pub open spec fn in_review(area: Area) -> bool {
    area is Plan || area is Diff || area is Selecting || area is Peeking || area is Thread
}

impl Area {
    /// A modal takes every key it is given, so the keys that work in the
    /// review behind it do not work here — and naming them would be a lie.
    pub fn modal(self) -> (r: bool)
        ensures
            r == !in_review(self),
    {
        !matches!(self, Area::Plan | Area::Diff | Area::Selecting | Area::Peeking | Area::Thread { .. })
    }

    /// What the help modal calls this place.
    pub fn title(self) -> (r: &'static str)
        ensures
            r@ == match self {
                Area::Plan => "the plan pane"@,
                Area::Diff => "the diff pane"@,
                Area::Selecting => "a line selection"@,
                Area::Peeking => "a symbol's declaration"@,
                Area::Thread { own, .. } => if own { "your own comment"@ } else { "a review thread"@ },
                Area::FileList => "the file list"@,
                Area::Findings => "the findings list"@,
                Area::Search => "the search"@,
                Area::Composer => "writing a finding"@,
                Area::Question => "the question"@,
                Area::Reading => "here"@,
            },
    {
        match self {
            Area::Plan => "the plan pane",
            Area::Diff => "the diff pane",
            Area::Selecting => "a line selection",
            Area::Peeking => "a symbol's declaration",
            Area::Thread { own: false, .. } => "a review thread",
            Area::Thread { own: true, .. } => "your own comment",
            Area::FileList => "the file list",
            Area::Findings => "the findings list",
            Area::Search => "the search",
            Area::Composer => "writing a finding",
            Area::Question => "the question",
            Area::Reading => "here",
        }
    }

    /// Whose keys this place reads: the review's, a list's, or none the
    /// reader binds.
    pub fn screen(self) -> (r: Option<Screen>)
        ensures
            r == (if in_review(self) {
                Some(Screen::Review)
            } else if self is FileList {
                Some(Screen::FileList)
            } else if self is Findings {
                Some(Screen::Findings)
            } else {
                None
            }),
    {
        match self {
            Area::Plan | Area::Diff | Area::Selecting | Area::Peeking | Area::Thread { .. } => Some(Screen::Review),
            Area::FileList => Some(Screen::FileList),
            Area::Findings => Some(Screen::Findings),
            Area::Search | Area::Composer | Area::Question | Area::Reading => None,
        }
    }
}

/// One row of keys and what they do here: as the footer says it, and as `?`
/// does. `footer` is the short words, and `None` keeps the row out of the
/// footer.
pub struct Act<P> {
    /// Every key the row's actions answer to, as `?` writes them.
    pub key: String,
    /// The first of each, as the footer writes them: a footer is short.
    pub short: String,
    /// What a click on the row's footer button presses.
    pub presses: Vec<P>,
    pub footer: Option<String>,
    pub help: String,
}

/// The key column of a row, before its words are added.
pub struct Keys<P> {
    pub full: String,
    pub short: String,
    pub presses: Vec<P>,
}

/// A text that may be missing, as values.
pub open spec fn opt_text(o: Option<String>) -> Option<Seq<char>> {
    match o {
        Some(s) => Some(s@),
        None => None,
    }
}

impl<P> Keys<P> {
    /// Keys that are not the reader's to bind: the composer's, the search
    /// box's, a question's. Written once, pressed as given.
    pub fn fixed(text: &str, presses: Vec<P>) -> (k: Keys<P>)
        ensures
            k.full@ == text@,
            k.short@ == text@,
            k.presses@ == presses@,
    {
        let mut full = String::new();
        push_text(&mut full, text);
        let mut short = String::new();
        push_text(&mut short, text);
        Keys { full, short, presses }
    }

    /// The row, named on the footer as `short` and in help as `help`.
    pub fn footer(self, short: &str, help: &str) -> (a: Act<P>)
        ensures
            a.key@ == self.full@,
            a.short@ == self.short@,
            a.presses@ == self.presses@,
            opt_text(a.footer) == Some(short@),
            a.help@ == help@,
    {
        let mut words = String::new();
        push_text(&mut words, short);
        let mut said = String::new();
        push_text(&mut said, help);
        Act { key: self.full, short: self.short, presses: self.presses, footer: Some(words), help: said }
    }

    /// The row, in help only.
    pub fn quiet(self, help: &str) -> (a: Act<P>)
        ensures
            a.key@ == self.full@,
            a.short@ == self.short@,
            a.presses@ == self.presses@,
            a.footer is None,
            a.help@ == help@,
    {
        let mut said = String::new();
        push_text(&mut said, help);
        Act { key: self.full, short: self.short, presses: self.presses, footer: None, help: said }
    }
}

/// `h` is row `act` as a footer button: its first keys and a space, then
/// its short words, pressing what the row presses.
pub open spec fn is_hint_of<P: Clone>(act: Act<P>, h: Hint<P>) -> bool {
    &&& piece_texts(h.pieces@) == seq![
        (act.short@.push(' '), Ink::Key),
        (match opt_text(act.footer) { Some(w) => w, None => Seq::<char>::empty() }, Ink::Text),
    ]
    &&& h.presses@.len() == act.presses@.len()
    &&& forall|i: int| 0 <= i < act.presses@.len() ==> cloned::<P>(#[trigger] act.presses@[i], h.presses@[i])
}

/// One row as a footer button: its first keys and a space, then its short
/// words (none for a row kept off the footer); a click presses the row's
/// keys.
pub fn hint<P: Clone>(act: &Act<P>) -> (h: Hint<P>)
    ensures
        is_hint_of(*act, h),
{
    let mut key = String::new();
    push_text(&mut key, act.short.as_str());
    assert(key@ =~= act.short@);
    push_char(&mut key, ' ');
    let what: &str = match &act.footer {
        Some(w) => w.as_str(),
        None => "",
    };
    proof {
        reveal_strlit("");
        assert(what@ =~= (match opt_text(act.footer) { Some(w) => w, None => Seq::<char>::empty() }));
    }
    let h = Hint::button(key.as_str(), what, act.presses.clone());
    assert(piece_texts(h.pieces@) =~= seq![
        (act.short@.push(' '), Ink::Key),
        (match opt_text(act.footer) { Some(w) => w, None => Seq::<char>::empty() }, Ink::Text),
    ]);
    h
}

/// Which of `acts` the footer names, by index, in order: those with short
/// words.
pub open spec fn on_footer<P>(acts: Seq<Act<P>>) -> Seq<int>
    decreases acts.len(),
{
    if acts.len() == 0 {
        Seq::empty()
    } else {
        let before = on_footer(acts.drop_last());
        if acts.last().footer is Some { before.push(acts.len() - 1) } else { before }
    }
}

proof fn lemma_on_footer_in_range<P>(acts: Seq<Act<P>>)
    ensures
        forall|k: int| 0 <= k < on_footer(acts).len() ==> 0 <= #[trigger] on_footer(acts)[k] < acts.len(),
    decreases acts.len(),
{
    if acts.len() > 0 {
        let before = on_footer(acts.drop_last());
        lemma_on_footer_in_range(acts.drop_last());
        assert forall|k: int| 0 <= k < on_footer(acts).len() implies 0 <= #[trigger] on_footer(acts)[k] < acts.len() by {
            if k < before.len() {
                assert(on_footer(acts)[k] == before[k]);
            }
        }
    }
}

/// The short words of a place, as buttons: what a modal draws on its own
/// footer, and what the window footer draws when no modal is up.
pub fn modal_hints<P: Clone>(acts: &[Act<P>]) -> (out: Vec<Hint<P>>)
    ensures
        out@.len() == on_footer(acts@).len(),
        forall|k: int| 0 <= k < out@.len() ==> is_hint_of(acts@[on_footer(acts@)[k]], #[trigger] out@[k]),
{
    let mut out: Vec<Hint<P>> = Vec::new();
    let mut i: usize = 0;
    while i < acts.len()
        invariant
            i <= acts@.len(),
            out@.len() == on_footer(acts@.take(i as int)).len(),
            forall|k: int| 0 <= k < out@.len() ==> is_hint_of(acts@[on_footer(acts@.take(i as int))[k]], #[trigger] out@[k]),
        decreases acts@.len() - i,
    {
        assert(acts@.take(i + 1).drop_last() =~= acts@.take(i as int));
        proof {
            lemma_on_footer_in_range(acts@.take(i as int));
        }
        if acts[i].footer.is_some() {
            out.push(hint(&acts[i]));
        }
        i = i + 1;
    }
    assert(acts@.take(acts@.len() as int) =~= acts@);
    out
}

/// A modal's own footer, exactly as drawn: a lead of two columns that
/// presses nothing, then its short words with a separator between them.
pub fn modal_footer<P: Clone>(acts: &[Act<P>]) -> (out: Vec<Hint<P>>)
    ensures
        ({
            let n = on_footer(acts@).len();
            &&& out@.len() == (if n == 0 { 1 } else { 2 * n })
            &&& piece_texts(out@[0].pieces@) == seq![("  "@, Ink::Dim)]
            &&& out@[0].presses@.len() == 0
            &&& forall|k: int| 0 <= k < n ==> #[trigger] is_hint_of(acts@[on_footer(acts@)[k]], out@[2 * k + 1])
            &&& forall|k: int| 0 <= k < n - 1 ==> is_separator(#[trigger] out@[2 * k + 2])
        }),
{
    let mut out: Vec<Hint<P>> = Vec::new();
    out.push(Hint::note("  ", Ink::Dim));
    proof {
        reveal_strlit("  ");
    }
    let mut i: usize = 0;
    while i < acts.len()
        invariant
            i <= acts@.len(),
            ({
                let n = on_footer(acts@.take(i as int)).len();
                &&& out@.len() == (if n == 0 { 1 } else { 2 * n })
                &&& forall|k: int| 0 <= k < n ==> #[trigger] is_hint_of(acts@[on_footer(acts@.take(i as int))[k]], out@[2 * k + 1])
                &&& forall|k: int| 0 <= k < n - 1 ==> is_separator(#[trigger] out@[2 * k + 2])
            }),
            piece_texts(out@[0].pieces@) == seq![("  "@, Ink::Dim)],
            out@[0].presses@.len() == 0,
        decreases acts@.len() - i,
    {
        assert(acts@.take(i + 1).drop_last() =~= acts@.take(i as int));
        proof {
            lemma_on_footer_in_range(acts@.take(i as int));
        }
        if acts[i].footer.is_some() {
            if out.len() > 1 {
                out.push(Hint::note("  ·  ", Ink::Dim));
            }
            out.push(hint(&acts[i]));
        }
        i = i + 1;
    }
    assert(acts@.take(acts@.len() as int) =~= acts@);
    out
}

/// The window footer's right edge: this place's short words, then `? help`
/// — or `? help` alone under a modal, whose words are on the modal. Empty
/// where `?` cannot be pressed. `help` is what a click on `? help` presses.
pub fn footer_hints<P: Clone>(acts: &[Act<P>], modal: bool, help_opens: bool, help: Vec<P>) -> (out: Vec<Hint<P>>)
    ensures
        !help_opens ==> out@.len() == 0,
        help_opens ==> ({
            let n = if modal { 0 } else { on_footer(acts@).len() };
            &&& out@.len() == n + 1
            &&& forall|k: int| 0 <= k < n ==> #[trigger] is_hint_of(acts@[on_footer(acts@)[k]], out@[k])
            &&& piece_texts(out@[n as int].pieces@) == seq![("? "@, Ink::Key), ("help"@, Ink::Text)]
            &&& out@[n as int].presses@.len() == help@.len()
            &&& forall|i: int| 0 <= i < help@.len() ==> cloned::<P>(#[trigger] help@[i], out@[n as int].presses@[i])
        }),
{
    if !help_opens {
        return Vec::new();
    }
    let mut out: Vec<Hint<P>> = if modal { Vec::new() } else { modal_hints(acts) };
    let ghost own = out@;
    let key = Keys::fixed("?", help).footer("help", "these keys");
    let last = hint(&key);
    proof {
        reveal_strlit("?");
        reveal_strlit("? ");
        reveal_strlit("help");
        assert("?"@.push(' ') =~= "? "@);
    }
    out.push(last);
    assert(out@ =~= own.push(last));
    out
}

} // verus!