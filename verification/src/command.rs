//! `:` — one line that names a command, as vim's does.
//!
//! One table, [`commands`], read by the dispatch, by the completion popup and
//! by `?`, so a command cannot be runnable without being listed or listed
//! without running.
//!
//! Completion is shown, not guessed: while the reader types a name, the
//! commands it could still become are listed, and the rest of the first is
//! drawn dim after the caret. `tab` and the arrows walk the list, filling the
//! line as they go.
use vstd::prelude::*;

use crate::strings::{begins_with, holds_char, same_text};
use vstd::arithmetic::div_mod::{lemma_add_mod_noop, lemma_mod_add_multiples_vanish, lemma_mod_bound, lemma_small_mod};

verus! {

/// What a key or a command asks of the loop that runs the app.
#[derive(Debug)]
pub enum Effect {
    Quit,
    /// Put this text on the clipboard.
    CopySummary(String),
}

/// One command: the name completion fills in, the others it answers to, and
/// the words the popup gives it.
#[derive(Debug, Clone, Copy)]
pub struct Command {
    pub name: &'static str,
    pub aliases: &'static [&'static str],
    pub what: &'static str,
}

/// A command as text.
pub struct CommandView {
    pub name: Seq<char>,
    pub aliases: Seq<Seq<char>>,
    pub what: Seq<char>,
}

impl View for Command {
    type V = CommandView;

    open spec fn view(&self) -> CommandView {
        CommandView { name: self.name@, aliases: self.aliases@.map_values(|a: &str| a@), what: self.what@ }
    }
}

/// Every command, in the order `?` lists them and `tab` offers them.
pub open spec fn command_table() -> Seq<CommandView> {
    seq![
        CommandView { name: "config"@, aliases: seq![], what: "edit your config — theme, layout, context, keys, agent"@ },
        CommandView { name: "help"@, aliases: seq![], what: "the keys, where you are"@ },
        CommandView { name: "findings"@, aliases: seq![], what: "every finding and thread, in one list"@ },
        CommandView { name: "search"@, aliases: seq![], what: "find a word in any changed file · :search <text>"@ },
        CommandView { name: "files"@, aliases: seq![], what: "the files in the diff pane, in a list"@ },
        CommandView { name: "publish"@, aliases: seq![], what: "publish the open findings (asks first)"@ },
        CommandView { name: "refetch"@, aliases: seq![], what: "fetch the review threads again"@ },
        CommandView { name: "copy"@, aliases: seq![], what: "copy the open findings"@ },
        CommandView { name: "quit"@, aliases: seq!["q"@], what: "quit — state is saved on every change"@ },
    ]
}

/// The commands, as the table above.
pub fn commands() -> (r: &'static [Command])
    ensures
        r@.map_values(|c: Command| c@) == command_table(),
{
    let r: &'static [Command] = &[
        Command { name: "config", aliases: &[], what: "edit your config — theme, layout, context, keys, agent" },
        Command { name: "help", aliases: &[], what: "the keys, where you are" },
        Command { name: "findings", aliases: &[], what: "every finding and thread, in one list" },
        Command { name: "search", aliases: &[], what: "find a word in any changed file · :search <text>" },
        Command { name: "files", aliases: &[], what: "the files in the diff pane, in a list" },
        Command { name: "publish", aliases: &[], what: "publish the open findings (asks first)" },
        Command { name: "refetch", aliases: &[], what: "fetch the review threads again" },
        Command { name: "copy", aliases: &[], what: "copy the open findings" },
        Command { name: "quit", aliases: &["q"], what: "quit — state is saved on every change" },
    ];
    assert forall|i: int| 0 <= i < 9 implies #[trigger] r@[i]@ == command_table()[i] by {
        assert(r@[i]@.aliases =~= command_table()[i].aliases);
    }
    assert(r@.map_values(|c: Command| c@) =~= command_table());
    r
}

/// Whether `c` answers to `word`, by its name or an alias.
pub open spec fn answers_to(c: CommandView, word: Seq<char>) -> bool {
    c.name == word || c.aliases.contains(word)
}

/// The first of `cs` that answers to `word`.
pub open spec fn first_answering(cs: Seq<CommandView>, word: Seq<char>) -> Option<CommandView>
    decreases cs.len(),
{
    if cs.len() == 0 {
        None
    } else if answers_to(cs[0], word) {
        Some(cs[0])
    } else {
        first_answering(cs.drop_first(), word)
    }
}

/// Whether one of `names` is `word`.
fn listed(names: &[&str], word: &str) -> (r: bool)
    ensures
        r == names@.map_values(|a: &str| a@).contains(word@),
{
    let ghost texts = names@.map_values(|a: &str| a@);
    let mut k: usize = 0;
    while k < names.len()
        invariant
            k <= names@.len(),
            texts == names@.map_values(|a: &str| a@),
            forall|j: int| 0 <= j < k ==> texts[j] != word@,
        decreases names@.len() - k,
    {
        if same_text(names[k], word) {
            assert(texts[k as int] == word@);
            return true;
        }
        k = k + 1;
    }
    false
}

/// The command `word` names, by its name or an alias.
pub fn find(word: &str) -> (r: Option<Command>)
    ensures
        match r {
            Some(c) => first_answering(command_table(), word@) == Some(c@),
            None => first_answering(command_table(), word@) is None,
        },
{
    let table = commands();
    let ghost views = table@.map_values(|c: Command| c@);
    let mut i: usize = 0;
    assert(views.skip(0) =~= views);
    while i < table.len()
        invariant
            i <= table@.len(),
            views == table@.map_values(|c: Command| c@),
            views == command_table(),
            first_answering(command_table(), word@) == first_answering(views.skip(i as int), word@),
        decreases table@.len() - i,
    {
        let c = table[i];
        assert(views[i as int] == c@);
        assert(views.skip(i as int)[0] == c@);
        assert(views.skip(i as int).drop_first() =~= views.skip(i + 1));
        if same_text(c.name, word) || listed(c.aliases, word) {
            return Some(c);
        }
        i = i + 1;
    }
    None
}

/// Whether the typed `word` could still become `c`: a prefix of its name or
/// of one of its aliases.
pub open spec fn could_become(c: CommandView, word: Seq<char>) -> bool {
    word.is_prefix_of(c.name) || exists|k: int| 0 <= k < c.aliases.len() && word.is_prefix_of(#[trigger] c.aliases[k])
}

/// Those of `cs` that `word` could still become, in order.
pub open spec fn becoming(cs: Seq<CommandView>, word: Seq<char>) -> Seq<CommandView>
    decreases cs.len(),
{
    if cs.len() == 0 {
        cs
    } else {
        let before = becoming(cs.drop_last(), word);
        if could_become(cs.last(), word) {
            before.push(cs.last())
        } else {
            before
        }
    }
}

/// The commands the typed text could still become, in table order. None once
/// the text holds a space: past it, the text is the reader's own argument.
pub open spec fn candidates_of(typed: Seq<char>) -> Seq<CommandView> {
    if typed.contains(' ') {
        Seq::empty()
    } else {
        becoming(command_table(), typed)
    }
}

/// Whether `word` begins one of `names`.
fn begins_one(names: &[&str], word: &str) -> (r: bool)
    ensures
        r == exists|k: int| 0 <= k < names@.len() && word@.is_prefix_of((#[trigger] names@[k])@),
{
    let ghost texts = names@.map_values(|a: &str| a@);
    let mut k: usize = 0;
    while k < names.len()
        invariant
            k <= names@.len(),
            texts == names@.map_values(|a: &str| a@),
            forall|j: int| 0 <= j < k ==> !word@.is_prefix_of((#[trigger] names@[j])@),
        decreases names@.len() - k,
    {
        if begins_with(names[k], word) {
            return true;
        }
        k = k + 1;
    }
    false
}

/// The line's text and where its caret stands, counted in characters.
pub struct Input {
    value: String,
    cursor: usize,
}

impl Input {
    /// The text on the line.
    pub closed spec fn text(&self) -> Seq<char> {
        self.value@
    }

    /// The caret, in characters from the start.
    pub closed spec fn caret(&self) -> nat {
        self.cursor as nat
    }

    /// A line holding `value`, its caret at the end.
    pub fn new(value: String) -> (r: Input)
        ensures
            r.text() == value@,
            r.caret() == value@.len(),
    {
        let cursor = value.as_str().unicode_len();
        Input { value, cursor }
    }

    pub fn value(&self) -> (r: &str)
        ensures
            r@ == self.text(),
    {
        self.value.as_str()
    }

    pub fn cursor(&self) -> (r: usize)
        ensures
            r == self.caret(),
    {
        self.cursor
    }
}

/// The line being typed, after the `:`.
pub struct CommandLine {
    pub input: Input,
    /// What the reader TYPED, which the candidates are matched against. The
    /// line itself changes as `tab` walks them, and matching against that
    /// would narrow the list to the one just filled in.
    typed: String,
    /// Which candidate `tab` or an arrow last filled the line with. Nothing
    /// until one does, and again after any edit.
    pub pick: Option<usize>,
}

impl Default for CommandLine {
    fn default() -> (r: CommandLine)
        ensures
            r.text() == Seq::<char>::empty(),
            r.caret() == 0,
            r.typed_text() == Seq::<char>::empty(),
            r.picked() is None,
    {
        CommandLine { input: Input::new(String::new()), typed: String::new(), pick: None }
    }
}

/// The rest of the first candidate's name after what was typed: shown only
/// while the caret is at the end of what was typed and nothing has been
/// picked, and only when a name was begun and is not yet whole.
pub open spec fn ghost_of(text: Seq<char>, caret: nat, typed: Seq<char>, pick: Option<usize>) -> Option<Seq<char>> {
    let found = candidates_of(typed);
    if pick is Some || text != typed || caret != text.len() || found.len() == 0 {
        None
    } else if text.is_prefix_of(found[0].name) && 0 < text.len() < found[0].name.len() {
        Some(found[0].name.subrange(text.len() as int, found[0].name.len() as int))
    } else {
        None
    }
}

/// Where a walk of `by` from `pick` lands among `n` candidates: the first or
/// the last when nothing was picked, else `pick + by` round the list.
pub open spec fn walked(pick: Option<usize>, by: int, n: int) -> int {
    match pick {
        None => if by > 0 { 0 } else { n - 1 },
        Some(p) => (p + by) % n,
    }
}

/// How far back from a multiple of `n` the number `-m` stands.
proof fn lemma_negative_mod(m: int, n: int)
    requires
        n > 0,
        m >= 1,
    ensures
        (-m) % n == (if m % n == 0 { 0 } else { n - m % n }),
{
    lemma_add_mod_noop(-m, m, n);
    lemma_small_mod(0, n as nat);
    lemma_mod_bound(-m, n);
    lemma_mod_bound(m, n);
    let a = (-m) % n;
    let b = m % n;
    if a + b >= n {
        lemma_mod_add_multiples_vanish(a + b - n, n);
        lemma_small_mod((a + b - n) as nat, n as nat);
    } else {
        lemma_small_mod((a + b) as nat, n as nat);
    }
}

/// `(p + by) mod n`, taken round the list without overflow.
fn step_round(p: usize, by: isize, n: usize) -> (r: usize)
    requires
        n > 0,
    ensures
        r == (p + by) % (n as int),
{
    let pm = p % n;
    proof {
        lemma_mod_bound(by as int, n as int);
        lemma_add_mod_noop(p as int, by as int, n as int);
    }
    let bm: usize = if by >= 0 {
        (by as usize) % n
    } else {
        let m: usize = ((-(by + 1)) as usize) + 1;
        proof {
            lemma_negative_mod(m as int, n as int);
        }
        if m % n == 0 {
            0
        } else {
            n - m % n
        }
    };
    proof {
        lemma_mod_bound(pm as int, n as int);
    }
    if pm >= n - bm {
        proof {
            let t = pm + bm - n;
            lemma_mod_add_multiples_vanish(t as int, n as int);
            lemma_small_mod(t as nat, n as nat);
        }
        pm - (n - bm)
    } else {
        proof {
            lemma_small_mod((pm + bm) as nat, n as nat);
        }
        pm + bm
    }
}

impl CommandLine {
    /// What was typed, which the candidates are matched against.
    pub closed spec fn typed_text(&self) -> Seq<char> {
        self.typed@
    }

    /// The text on the line.
    pub closed spec fn text(&self) -> Seq<char> {
        self.input.text()
    }

    /// The caret on the line.
    pub closed spec fn caret(&self) -> nat {
        self.input.caret()
    }

    /// The candidate last walked to.
    pub closed spec fn picked(&self) -> Option<usize> {
        self.pick
    }

    /// The commands the typed name could still become, in table order.
    pub fn candidates(&self) -> (r: Vec<Command>)
        ensures
            r@.map_values(|c: Command| c@) == candidates_of(self.typed_text()),
    {
        let mut out: Vec<Command> = Vec::new();
        if holds_char(self.typed.as_str(), ' ') {
            assert(out@.map_values(|c: Command| c@) =~= Seq::<CommandView>::empty());
            return out;
        }
        let word = self.typed.as_str();
        let table = commands();
        let ghost views = table@.map_values(|c: Command| c@);
        let mut i: usize = 0;
        assert(views.take(0) =~= Seq::<CommandView>::empty());
        assert(out@.map_values(|c: Command| c@) =~= becoming(views.take(0), word@));
        while i < table.len()
            invariant
                i <= table@.len(),
                views == table@.map_values(|c: Command| c@),
                views == command_table(),
                out@.map_values(|c: Command| c@) == becoming(views.take(i as int), word@),
            decreases table@.len() - i,
        {
            let c = table[i];
            let ghost before = out@.map_values(|c: Command| c@);
            assert(views[i as int] == c@);
            assert(views.take(i + 1).drop_last() =~= views.take(i as int));
            assert(views.take(i + 1).last() == c@);
            let by_name = begins_with(c.name, word);
            let by_alias = begins_one(c.aliases, word);
            proof {
                if by_alias {
                    let k = choose|k: int| 0 <= k < c.aliases@.len() && word@.is_prefix_of((#[trigger] c.aliases@[k])@);
                    assert(c@.aliases[k] == c.aliases@[k]@);
                } else {
                    assert forall|k: int| 0 <= k < c@.aliases.len() implies !word@.is_prefix_of(#[trigger] c@.aliases[k]) by {
                        assert(c@.aliases[k] == c.aliases@[k]@);
                    }
                }
            }
            let hit = by_name || by_alias;
            assert(hit == could_become(c@, word@));
            if hit {
                out.push(c);
                assert(out@.map_values(|c: Command| c@) =~= before.push(c@));
            }
            i = i + 1;
        }
        assert(views.take(views.len() as int) =~= views);
        out
    }

    /// The rest of the first candidate's name, drawn dim after the caret.
    pub fn ghost(&self) -> (r: Option<&'static str>)
        ensures
            match r {
                Some(g) => ghost_of(self.text(), self.caret(), self.typed_text(), self.picked()) == Some(g@),
                None => ghost_of(self.text(), self.caret(), self.typed_text(), self.picked()) is None,
            },
    {
        let value = self.input.value();
        if self.pick.is_some() || !same_text(value, self.typed.as_str()) || self.input.cursor() != value.unicode_len() {
            return None;
        }
        let found = self.candidates();
        if found.len() == 0 {
            return None;
        }
        let first = found[0];
        assert(found@.map_values(|c: Command| c@)[0] == first@);
        let name_len = first.name.unicode_len();
        let value_len = value.unicode_len();
        if begins_with(first.name, value) && 0 < value_len && value_len < name_len {
            Some(first.name.substring_char(value_len, name_len))
        } else {
            None
        }
    }

    /// Walk the candidates by `by`, filling the line with the one reached.
    /// What was typed stays, so the walk goes round the same list.
    pub fn walk(&mut self, by: isize)
        ensures
            final(self).typed_text() == old(self).typed_text(),
            candidates_of(old(self).typed_text()).len() == 0 ==> {
                &&& final(self).text() == old(self).text()
                &&& final(self).caret() == old(self).caret()
                &&& final(self).picked() == old(self).picked()
            },
            candidates_of(old(self).typed_text()).len() > 0 ==> {
                let found = candidates_of(old(self).typed_text());
                let next = walked(old(self).picked(), by as int, found.len() as int);
                &&& final(self).picked() == Some(next as usize)
                &&& final(self).text() == found[next].name
                &&& final(self).caret() == found[next].name.len()
            },
    {
        let found = self.candidates();
        if found.len() == 0 {
            return;
        }
        let n = found.len();
        let next: usize = match self.pick {
            None => if by > 0 { 0 } else { n - 1 },
            Some(p) => step_round(p, by, n),
        };
        proof {
            lemma_mod_bound(next as int, n as int);
        }
        assert(next < n) by {
            if let Some(p) = self.pick {
                lemma_mod_bound(p + by, n as int);
            }
        };
        let name = found[next].name;
        assert(found@.map_values(|c: Command| c@)[next as int] == found@[next as int]@);
        self.pick = Some(next);
        self.input = Input::new(name.to_string());
    }

    /// The reader changed the text: it is what they typed now, and nothing
    /// is picked.
    pub fn edited(&mut self)
        ensures
            final(self).typed_text() == old(self).text(),
            final(self).text() == old(self).text(),
            final(self).caret() == old(self).caret(),
            final(self).picked() is None,
    {
        self.typed = self.input.value().to_string();
        self.pick = None;
    }
}

/// Every name and alias of `cs`, in table order.
pub open spec fn names_of(cs: Seq<CommandView>) -> Seq<Seq<char>>
    decreases cs.len(),
{
    if cs.len() == 0 {
        Seq::empty()
    } else {
        names_of(cs.drop_last()).push(cs.last().name) + cs.last().aliases
    }
}

/// No two commands answer to the same word: every name and alias in the
/// table is different from every other.
pub proof fn lemma_names_and_aliases_are_unique()
    ensures
        forall|i: int, j: int|
            0 <= i < j < names_of(command_table()).len() ==> names_of(command_table())[i] != names_of(command_table())[j],
{
    reveal_strlit("config");
    reveal_strlit("help");
    reveal_strlit("findings");
    reveal_strlit("search");
    reveal_strlit("files");
    reveal_strlit("publish");
    reveal_strlit("refetch");
    reveal_strlit("copy");
    reveal_strlit("quit");
    reveal_strlit("q");
    let t = command_table();
    assert(t.take(0) =~= Seq::<CommandView>::empty());
    lemma_names_of_step(t, 0);
    lemma_names_of_step(t, 1);
    lemma_names_of_step(t, 2);
    lemma_names_of_step(t, 3);
    lemma_names_of_step(t, 4);
    lemma_names_of_step(t, 5);
    lemma_names_of_step(t, 6);
    lemma_names_of_step(t, 7);
    lemma_names_of_step(t, 8);
    assert(t.take(9) =~= t);
    let all = names_of(t);
    assert(t[0].aliases =~= Seq::<Seq<char>>::empty());
    assert(all =~= seq!["config"@, "help"@, "findings"@, "search"@, "files"@, "publish"@, "refetch"@, "copy"@, "quit"@, "q"@]);
    assert forall|i: int, j: int| 0 <= i < j < all.len() implies all[i] != all[j] by {
        assert(all[i].len() != all[j].len() || all[i][0] != all[j][0]);
    }
}

proof fn lemma_names_of_step(cs: Seq<CommandView>, k: int)
    requires
        0 <= k < cs.len(),
    ensures
        names_of(cs.take(k + 1)) == names_of(cs.take(k)).push(cs[k].name) + cs[k].aliases,
{
    assert(cs.take(k + 1).drop_last() =~= cs.take(k));
}

} // verus!
