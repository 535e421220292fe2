//! Which key does what: the actions of the review, their default keys, the
//! reader's own keys laid over them, and the lookup that turns presses into
//! an action.
//!
//! One table serves the dispatch, the footer and `?`. The reader's keys come
//! in already read from the file, one binding or one reason it is not a key
//! each; what is checked here is everything a table of keys can get wrong
//! beyond that: a reserved key, and two actions that answer to one key, or
//! one of whose keys starts the other's, in one screen.
use vstd::prelude::*;

use crate::keys::{Code, Key};
use crate::strings::{push_char, push_text};

verus! {

/// Where a key is looked up. Two actions may share a key only in different
/// screens: `f` opens the file list in the review and closes it in the list.
#[derive(Debug, Clone, Copy, PartialEq, Eq, Structural, Hash, PartialOrd, Ord)]
pub enum Screen {
    /// Both panes of the review proper.
    Review,
    /// The file list over the diff pane.
    FileList,
    /// The findings list.
    Findings,
}

impl Screen {
    /// What an error message calls this screen.
    pub fn title(self) -> (r: &'static str)
        ensures
            r@ == match self {
                Screen::Review => "the review"@,
                Screen::FileList => "the file list"@,
                Screen::Findings => "the findings list"@,
            },
    {
        match self {
            Screen::Review => "the review",
            Screen::FileList => "the file list",
            Screen::Findings => "the findings list",
        }
    }
}

/// What a key can be bound to.
#[derive(Debug, Clone, Copy, PartialEq, Eq, Structural, Hash)]
pub enum Action {
    ToggleFocus,
    Open,
    Close,
    Down,
    Up,
    NextGroup,
    PrevGroup,
    HalfPageDown,
    HalfPageUp,
    Top,
    Bottom,
    NextHunk,
    PrevHunk,
    ToggleSplit,
    ToggleWrap,
    ShiftRight,
    ShiftLeft,
    ShiftReset,
    GrowDiff,
    ShrinkDiff,
    Fold,
    Files,
    Findings,
    Search,
    ToggleReviewed,
    Select,
    Comment,
    Delete,
    ClearNotes,
    Copy,
    Reply,
    Resolve,
    Refetch,
    Publish,
}

/// A shifted letter as the terminal shows it: `shift-j` is `J`.
pub open spec fn shifted(c: char, shift: bool) -> char {
    if shift && 'a' <= c <= 'z' { (((c as u32) - 32) as u8) as char } else { c }
}

/// The one shape a press is compared in: a character carries its own shift
/// (`J`, `?`, `+`), so the modifier is dropped from every character, where
/// terminals disagree about sending it, and a shifted letter is its capital.
/// A named key keeps it.
pub open spec fn canon(k: Key) -> Key {
    match k.code {
        Code::Char(c) => Key { code: Code::Char(shifted(c, k.shift)), shift: false, ..k },
        _ => k,
    }
}

/// A press in its one shape.
pub fn canonical(k: Key) -> (r: Key)
    ensures
        r == canon(k),
{
    match k.code {
        Code::Char(c) => {
            let d = if k.shift && 'a' <= c && c <= 'z' { (((c as u32) - 32) as u8) as char } else { c };
            Key { code: Code::Char(d), shift: false, ..k }
        },
        _ => k,
    }
}

/// One binding: the presses that make it, in order, each in its one shape.
/// Almost always one; `dd` is two.
#[derive(Debug)]
pub struct Binding {
    presses: Vec<Key>,
}

impl View for Binding {
    type V = Seq<Key>;

    closed spec fn view(&self) -> Seq<Key> {
        self.presses@
    }
}

impl Binding {
    /// The binding of these presses, each put in its one shape.
    pub fn new(presses: &[Key]) -> (b: Binding)
        ensures
            b@ == presses@.map_values(|k: Key| canon(k)),
    {
        let mut out: Vec<Key> = Vec::new();
        let mut i: usize = 0;
        while i < presses.len()
            invariant
                i <= presses@.len(),
                out@ == presses@.take(i as int).map_values(|k: Key| canon(k)),
            decreases presses@.len() - i,
        {
            out.push(canonical(presses[i]));
            i = i + 1;
            assert(out@ =~= presses@.take(i as int).map_values(|k: Key| canon(k)));
        }
        assert(presses@.take(presses@.len() as int) =~= presses@);
        Binding { presses: out }
    }

    /// The presses a click on a footer button naming this binding sends.
    pub fn presses(&self) -> (r: Vec<Key>)
        ensures
            r@ == self@,
    {
        copy_keys(&self.presses)
    }

    /// The same binding again.
    pub fn copy(&self) -> (r: Binding)
        ensures
            r@ == self@,
    {
        Binding { presses: copy_keys(&self.presses) }
    }
}

/// The same presses again.
fn copy_keys(keys: &Vec<Key>) -> (r: Vec<Key>)
    ensures
        r@ == keys@,
{
    let mut out: Vec<Key> = Vec::new();
    let mut i: usize = 0;
    while i < keys.len()
        invariant
            i <= keys@.len(),
            out@ == keys@.take(i as int),
        decreases keys@.len() - i,
    {
        out.push(keys[i]);
        i = i + 1;
        assert(out@ =~= keys@.take(i as int));
    }
    assert(keys@.take(keys@.len() as int) =~= keys@);
    out
}

/// A bare character.
pub open spec fn ch(c: char) -> Key {
    Key { code: Code::Char(c), ctrl: false, shift: false, alt: false }
}

/// A named key, bare.
pub open spec fn named(code: Code) -> Key {
    Key { code, ctrl: false, shift: false, alt: false }
}

/// A character with the control key.
pub open spec fn ctrl(c: char) -> Key {
    Key { code: Code::Char(c), ctrl: true, shift: false, alt: false }
}

/// A character with alt.
pub open spec fn alt(c: char) -> Key {
    Key { code: Code::Char(c), ctrl: false, shift: false, alt: true }
}

fn ch_key(c: char) -> (k: Key)
    ensures
        k == ch(c),
{
    Key { code: Code::Char(c), ctrl: false, shift: false, alt: false }
}

fn named_key(code: Code) -> (k: Key)
    ensures
        k == named(code),
{
    Key { code, ctrl: false, shift: false, alt: false }
}

fn ctrl_key(c: char) -> (k: Key)
    ensures
        k == ctrl(c),
{
    Key { code: Code::Char(c), ctrl: true, shift: false, alt: false }
}

fn alt_key(c: char) -> (k: Key)
    ensures
        k == alt(c),
{
    Key { code: Code::Char(c), ctrl: false, shift: false, alt: true }
}

/// Keys no action may take: `ctrl-c` quits from everywhere, `q` quits the
/// review and closes a list, `?` opens help from everywhere.
pub open spec fn is_reserved(b: Seq<Key>) -> bool {
    b == seq![ctrl('c')] || b == seq![ch('q')] || b == seq![ch('?')]
}

/// Whether `b` is a reserved key.
pub fn reserved(b: &Binding) -> (r: bool)
    ensures
        r == is_reserved(b@),
{
    let p = &b.presses;
    if p.len() != 1 {
        return false;
    }
    let k = p[0];
    let r = k == ctrl_key('c') || k == ch_key('q') || k == ch_key('?');
    proof {
        if r {
            assert(b@ =~= seq![k]);
        }
        if is_reserved(b@) {
            assert(b@[0] == k);
        }
    }
    r
}

/// The table's rows, in order: every action once.
pub open spec fn table() -> Seq<Action> {
    seq![
        Action::ToggleFocus, Action::Open, Action::Close, Action::Down, Action::Up, Action::NextGroup,
        Action::PrevGroup, Action::HalfPageDown, Action::HalfPageUp, Action::Top, Action::Bottom,
        Action::NextHunk, Action::PrevHunk, Action::ToggleSplit, Action::ToggleWrap, Action::ShiftRight,
        Action::ShiftLeft, Action::ShiftReset, Action::GrowDiff, Action::ShrinkDiff, Action::Fold,
        Action::Files, Action::Findings, Action::Search, Action::ToggleReviewed, Action::Select,
        Action::Comment, Action::Delete, Action::ClearNotes, Action::Copy, Action::Reply, Action::Resolve,
        Action::Refetch, Action::Publish,
    ]
}

/// The table's rows, in order.
fn table_rows() -> (r: Vec<Action>)
    ensures
        r@ == table(),
{
    vec![
        Action::ToggleFocus, Action::Open, Action::Close, Action::Down, Action::Up, Action::NextGroup,
        Action::PrevGroup, Action::HalfPageDown, Action::HalfPageUp, Action::Top, Action::Bottom,
        Action::NextHunk, Action::PrevHunk, Action::ToggleSplit, Action::ToggleWrap, Action::ShiftRight,
        Action::ShiftLeft, Action::ShiftReset, Action::GrowDiff, Action::ShrinkDiff, Action::Fold,
        Action::Files, Action::Findings, Action::Search, Action::ToggleReviewed, Action::Select,
        Action::Comment, Action::Delete, Action::ClearNotes, Action::Copy, Action::Reply, Action::Resolve,
        Action::Refetch, Action::Publish,
    ]
}

/// Where an action works at all.
pub open spec fn screens_of(a: Action) -> Seq<Screen> {
    match a {
        Action::Open | Action::Close | Action::Down | Action::Up | Action::Search =>
            seq![Screen::Review, Screen::FileList, Screen::Findings],
        Action::Files => seq![Screen::Review, Screen::FileList],
        Action::Findings | Action::Delete | Action::Copy | Action::Publish => seq![Screen::Review, Screen::Findings],
        Action::ClearNotes => seq![Screen::Findings],
        _ => seq![Screen::Review],
    }
}

/// Where an action works.
fn screens(a: Action) -> (r: Vec<Screen>)
    ensures
        r@ == screens_of(a),
{
    match a {
        Action::Open | Action::Close | Action::Down | Action::Up | Action::Search =>
            vec![Screen::Review, Screen::FileList, Screen::Findings],
        Action::Files => vec![Screen::Review, Screen::FileList],
        Action::Findings | Action::Delete | Action::Copy | Action::Publish => vec![Screen::Review, Screen::Findings],
        Action::ClearNotes => vec![Screen::Findings],
        _ => vec![Screen::Review],
    }
}

/// An action's default keys. `+` is shifted `=` on most keyboards, so both
/// grow the diff.
pub open spec fn defaults_of(a: Action) -> Seq<Seq<Key>> {
    match a {
        Action::ToggleFocus => seq![seq![named(Code::Tab)]],
        Action::Open => seq![seq![named(Code::Enter)]],
        Action::Close => seq![seq![named(Code::Esc)]],
        Action::Down => seq![seq![ch('j')], seq![named(Code::Down)]],
        Action::Up => seq![seq![ch('k')], seq![named(Code::Up)]],
        Action::NextGroup => seq![seq![ch('J')], seq![ch('}')]],
        Action::PrevGroup => seq![seq![ch('K')], seq![ch('{')]],
        Action::HalfPageDown => seq![seq![ctrl('d')]],
        Action::HalfPageUp => seq![seq![ctrl('u')]],
        Action::Top => seq![seq![ch('g')]],
        Action::Bottom => seq![seq![ch('G')]],
        Action::NextHunk => seq![seq![ch('n')]],
        Action::PrevHunk => seq![seq![ch('N')]],
        Action::ToggleSplit => seq![seq![ch('s')]],
        Action::ToggleWrap => seq![seq![ch('w')]],
        Action::ShiftRight => seq![seq![ch('l')], seq![named(Code::Right)]],
        Action::ShiftLeft => seq![seq![ch('h')], seq![named(Code::Left)]],
        Action::ShiftReset => seq![seq![ch('0')]],
        Action::GrowDiff => seq![seq![alt('=')], seq![alt('+')]],
        Action::ShrinkDiff => seq![seq![alt('-')]],
        Action::Fold => seq![seq![ch('z')]],
        Action::Files => seq![seq![ch('f')]],
        Action::Findings => seq![seq![ch('F')]],
        Action::Search => seq![seq![ch('/')]],
        Action::ToggleReviewed => seq![seq![ch(' ')]],
        Action::Select => seq![seq![ch('v')]],
        Action::Comment => seq![seq![ch('c')]],
        Action::Delete => seq![seq![ch('d'), ch('d')]],
        Action::ClearNotes => seq![seq![ch('D')]],
        Action::Copy => seq![seq![ch('y')]],
        Action::Reply => seq![seq![ch('r')]],
        Action::Resolve => seq![seq![ch('x')]],
        Action::Refetch => seq![seq![ch('R')]],
        Action::Publish => seq![seq![ch('P')]],
    }
}

/// One binding of one press.
fn one(k: Key) -> (b: Binding)
    ensures
        b@ == seq![k],
{
    Binding { presses: vec![k] }
}

/// An action's default keys.
pub fn defaults(a: Action) -> (r: Vec<Binding>)
    ensures
        r@.map_values(|b: Binding| b@) == defaults_of(a),
{
    let r = match a {
        Action::ToggleFocus => vec![one(named_key(Code::Tab))],
        Action::Open => vec![one(named_key(Code::Enter))],
        Action::Close => vec![one(named_key(Code::Esc))],
        Action::Down => vec![one(ch_key('j')), one(named_key(Code::Down))],
        Action::Up => vec![one(ch_key('k')), one(named_key(Code::Up))],
        Action::NextGroup => vec![one(ch_key('J')), one(ch_key('}'))],
        Action::PrevGroup => vec![one(ch_key('K')), one(ch_key('{'))],
        Action::HalfPageDown => vec![one(ctrl_key('d'))],
        Action::HalfPageUp => vec![one(ctrl_key('u'))],
        Action::Top => vec![one(ch_key('g'))],
        Action::Bottom => vec![one(ch_key('G'))],
        Action::NextHunk => vec![one(ch_key('n'))],
        Action::PrevHunk => vec![one(ch_key('N'))],
        Action::ToggleSplit => vec![one(ch_key('s'))],
        Action::ToggleWrap => vec![one(ch_key('w'))],
        Action::ShiftRight => vec![one(ch_key('l')), one(named_key(Code::Right))],
        Action::ShiftLeft => vec![one(ch_key('h')), one(named_key(Code::Left))],
        Action::ShiftReset => vec![one(ch_key('0'))],
        Action::GrowDiff => vec![one(alt_key('=')), one(alt_key('+'))],
        Action::ShrinkDiff => vec![one(alt_key('-'))],
        Action::Fold => vec![one(ch_key('z'))],
        Action::Files => vec![one(ch_key('f'))],
        Action::Findings => vec![one(ch_key('F'))],
        Action::Search => vec![one(ch_key('/'))],
        Action::ToggleReviewed => vec![one(ch_key(' '))],
        Action::Select => vec![one(ch_key('v'))],
        Action::Comment => vec![one(ch_key('c'))],
        Action::Delete => vec![Binding { presses: vec![ch_key('d'), ch_key('d')] }],
        Action::ClearNotes => vec![one(ch_key('D'))],
        Action::Copy => vec![one(ch_key('y'))],
        Action::Reply => vec![one(ch_key('r'))],
        Action::Resolve => vec![one(ch_key('x'))],
        Action::Refetch => vec![one(ch_key('R'))],
        Action::Publish => vec![one(ch_key('P'))],
    };
    assert(r@.map_values(|b: Binding| b@) =~= defaults_of(a));
    r
}

/// The reader's keys for one action, as read from the file: each one a
/// binding, or the reason it is not a key.
#[derive(Debug)]
pub struct Override {
    pub action: Action,
    pub keys: Vec<Result<Binding, String>>,
}

/// A key as read from the file, as a value.
pub open spec fn read_view(r: Result<Binding, String>) -> Result<Seq<Key>, Seq<char>> {
    match r {
        Ok(b) => Ok(b@),
        Err(e) => Err(e@),
    }
}

/// The reader's keys for `a`: those of the first entry that names it.
pub open spec fn own_keys(config: Seq<Override>, a: Action) -> Option<Seq<Result<Seq<Key>, Seq<char>>>>
    decreases config.len(),
{
    if config.len() == 0 {
        None
    } else if config[0].action == a {
        Some(config[0].keys@.map_values(|r: Result<Binding, String>| read_view(r)))
    } else {
        own_keys(config.drop_first(), a)
    }
}

/// The keys `a` is given: the reader's where the file names it, else its
/// defaults.
pub open spec fn given(config: Seq<Override>, a: Action) -> Seq<Result<Seq<Key>, Seq<char>>> {
    match own_keys(config, a) {
        Some(g) => g,
        None => defaults_of(a).map_values(|b: Seq<Key>| Ok::<Seq<Key>, Seq<char>>(b)),
    }
}

/// The bindings kept of what an action is given: each key once, in order,
/// leaving out what is not a key and what is reserved.
pub open spec fn kept(g: Seq<Result<Seq<Key>, Seq<char>>>) -> Seq<Seq<Key>>
    decreases g.len(),
{
    if g.len() == 0 {
        Seq::empty()
    } else {
        let k = kept(g.drop_last());
        match g.last() {
            Ok(b) => if is_reserved(b) || k.contains(b) { k } else { k.push(b) },
            Err(_) => k,
        }
    }
}

/// One thing wrong with a table of keys, as a value.
pub enum Problem {
    /// A key string that is not a key.
    Unparsed { action: Action, why: Seq<char> },
    /// A key no action may take.
    Reserved { action: Action, key: Seq<Key> },
    /// Two actions answer to one key in one screen, or the first's key is
    /// the start of the second's, so the second could never be pressed.
    Clash { screen: Screen, first: Action, first_key: Seq<Key>, second: Action, second_key: Seq<Key> },
}

/// One thing wrong with a table of keys.
#[derive(Debug)]
pub enum KeyProblem {
    Unparsed { action: Action, why: String },
    Reserved { action: Action, key: Binding },
    Clash { screen: Screen, first: Action, first_key: Binding, second: Action, second_key: Binding },
}

impl View for KeyProblem {
    type V = Problem;

    open spec fn view(&self) -> Problem {
        match self {
            KeyProblem::Unparsed { action, why } => Problem::Unparsed { action: *action, why: why@ },
            KeyProblem::Reserved { action, key } => Problem::Reserved { action: *action, key: key@ },
            KeyProblem::Clash { screen, first, first_key, second, second_key } => Problem::Clash {
                screen: *screen,
                first: *first,
                first_key: first_key@,
                second: *second,
                second_key: second_key@,
            },
        }
    }
}

/// What is wrong with the keys an action is given: each key that is not one,
/// and each reserved key, in order.
pub open spec fn own_problems(a: Action, g: Seq<Result<Seq<Key>, Seq<char>>>) -> Seq<Problem>
    decreases g.len(),
{
    if g.len() == 0 {
        Seq::empty()
    } else {
        let p = own_problems(a, g.drop_last());
        match g.last() {
            Ok(b) => if is_reserved(b) { p.push(Problem::Reserved { action: a, key: b }) } else { p },
            Err(why) => p.push(Problem::Unparsed { action: a, why }),
        }
    }
}

/// The rows of the first `n` actions of the table: one per screen each works
/// in, with the keys it keeps.
pub open spec fn rows_through(config: Seq<Override>, n: int) -> Seq<(Screen, Action, Seq<Seq<Key>>)>
    decreases n,
{
    if n <= 0 {
        Seq::empty()
    } else {
        let a = table()[n - 1];
        rows_through(config, n - 1)
            + screens_of(a).map_values(|s: Screen| (s, a, kept(given(config, a))))
    }
}

/// The problems of the keys of the first `n` actions of the table.
pub open spec fn problems_through(config: Seq<Override>, n: int) -> Seq<Problem>
    decreases n,
{
    if n <= 0 {
        Seq::empty()
    } else {
        let a = table()[n - 1];
        problems_through(config, n - 1) + own_problems(a, given(config, a))
    }
}

/// Every (action, key) bound in screen `s`, in the table's order.
pub open spec fn here(rows: Seq<(Screen, Action, Seq<Seq<Key>>)>, s: Screen) -> Seq<(Action, Seq<Key>)>
    decreases rows.len(),
{
    if rows.len() == 0 {
        Seq::empty()
    } else {
        let r = rows.last();
        here(rows.drop_last(), s) + if r.0 == s {
            r.2.map_values(|k: Seq<Key>| (r.1, k))
        } else {
            Seq::empty()
        }
    }
}

/// Whether `b` starts with the presses of `a`.
pub open spec fn starts(b: Seq<Key>, a: Seq<Key>) -> bool {
    a.len() <= b.len() && b.take(a.len() as int) == a
}

/// The clash of two bindings of different actions in screen `s`, if one's
/// key starts the other's: the starting one first.
pub open spec fn clash_of(s: Screen, x: (Action, Seq<Key>), y: (Action, Seq<Key>)) -> Seq<Problem> {
    if x.0 == y.0 {
        Seq::empty()
    } else if starts(y.1, x.1) {
        seq![Problem::Clash { screen: s, first: x.0, first_key: x.1, second: y.0, second_key: y.1 }]
    } else if starts(x.1, y.1) {
        seq![Problem::Clash { screen: s, first: y.0, first_key: y.1, second: x.0, second_key: x.1 }]
    } else {
        Seq::empty()
    }
}

/// The clashes of entry `i` of `h` with the entries after it, up to `j`.
pub open spec fn clashes_after(s: Screen, h: Seq<(Action, Seq<Key>)>, i: int, j: int) -> Seq<Problem>
    decreases j - i,
{
    if j <= i + 1 {
        Seq::empty()
    } else {
        clashes_after(s, h, i, j - 1) + clash_of(s, h[i], h[j - 1])
    }
}

/// The clashes among the entries of `h`, pair by pair, of the first `i`
/// entries with every entry after them.
pub open spec fn clashes_through(s: Screen, h: Seq<(Action, Seq<Key>)>, i: int) -> Seq<Problem>
    decreases i,
{
    if i <= 0 {
        Seq::empty()
    } else {
        clashes_through(s, h, i - 1) + clashes_after(s, h, i - 1, h.len() as int)
    }
}

/// Every clash in screen `s`.
pub open spec fn clashes_in(rows: Seq<(Screen, Action, Seq<Seq<Key>>)>, s: Screen) -> Seq<Problem> {
    let h = here(rows, s);
    clashes_through(s, h, h.len() as int)
}

/// The defaults with the reader's keys laid over them: every row.
pub open spec fn bound_of(config: Seq<Override>) -> Seq<(Screen, Action, Seq<Seq<Key>>)> {
    rows_through(config, table().len() as int)
}

/// Each problem once, where it first came.
pub open spec fn once(ps: Seq<Problem>) -> Seq<Problem>
    decreases ps.len(),
{
    if ps.len() == 0 {
        Seq::empty()
    } else {
        let d = once(ps.drop_last());
        if d.contains(ps.last()) { d } else { d.push(ps.last()) }
    }
}

/// Every problem with the reader's keys, not just the first: what is not a
/// key and what is reserved, action by action and each once, then every
/// clash, screen by screen.
pub open spec fn problems_of(config: Seq<Override>) -> Seq<Problem> {
    let rows = bound_of(config);
    once(problems_through(config, table().len() as int)) + clashes_in(rows, Screen::Review)
        + clashes_in(rows, Screen::FileList) + clashes_in(rows, Screen::Findings)
}

/// The presses of each binding.
pub open spec fn views(v: Seq<Binding>) -> Seq<Seq<Key>> {
    v.map_values(|b: Binding| b@)
}

/// Whether two bindings are the same presses.
fn same(a: &Binding, b: &Binding) -> (r: bool)
    ensures
        r == (a@ == b@),
{
    let (x, y) = (&a.presses, &b.presses);
    if x.len() != y.len() {
        return false;
    }
    let mut i: usize = 0;
    while i < x.len()
        invariant
            x@ == a@,
            y@ == b@,
            x@.len() == y@.len(),
            i <= x@.len(),
            forall|k: int| 0 <= k < i ==> x@[k] == y@[k],
        decreases x@.len() - i,
    {
        if x[i] != y[i] {
            assert(a@[i as int] != b@[i as int]);
            return false;
        }
        i = i + 1;
    }
    assert(x@ =~= y@);
    true
}

/// Whether `b` starts with the presses of `a`.
fn starts_with(b: &Binding, a: &Binding) -> (r: bool)
    ensures
        r == starts(b@, a@),
{
    let (x, y) = (&b.presses, &a.presses);
    if y.len() > x.len() {
        return false;
    }
    let mut i: usize = 0;
    while i < y.len()
        invariant
            x@ == b@,
            y@ == a@,
            y@.len() <= x@.len(),
            i <= y@.len(),
            forall|k: int| 0 <= k < i ==> x@[k] == y@[k],
        decreases y@.len() - i,
    {
        if x[i] != y[i] {
            assert(b@.take(a@.len() as int)[i as int] == x@[i as int]);
            assert(b@.take(a@.len() as int)[i as int] != a@[i as int]);
            return false;
        }
        i = i + 1;
    }
    assert(x@.take(y@.len() as int) =~= y@);
    true
}

/// Whether `v` holds a binding of the presses of `b`.
fn holds(v: &Vec<Binding>, b: &Binding) -> (r: bool)
    ensures
        r == views(v@).contains(b@),
{
    let mut i: usize = 0;
    while i < v.len()
        invariant
            i <= v@.len(),
            forall|k: int| 0 <= k < i ==> v@[k]@ != b@,
        decreases v@.len() - i,
    {
        if same(&v[i], b) {
            assert(views(v@)[i as int] == b@);
            return true;
        }
        i = i + 1;
    }
    proof {
        if views(v@).contains(b@) {
            let k = choose|k: int| 0 <= k < views(v@).len() && views(v@)[k] == b@;
            assert(v@[k]@ == b@);
        }
    }
    false
}

/// The same bindings again.
fn copy_all(v: &Vec<Binding>) -> (r: Vec<Binding>)
    ensures
        views(r@) == views(v@),
{
    let mut out: Vec<Binding> = Vec::new();
    let mut i: usize = 0;
    while i < v.len()
        invariant
            i <= v@.len(),
            views(out@) == views(v@.take(i as int)),
        decreases v@.len() - i,
    {
        let c = v[i].copy();
        let ghost pre = out@;
        out.push(c);
        proof {
            assert(v@.take(i + 1) =~= v@.take(i as int).push(v@[i as int]));
            assert(views(out@) =~= views(pre).push(c@));
            assert(views(v@.take(i + 1)) =~= views(v@.take(i as int)).push(v@[i as int]@));
        }
        i = i + 1;
    }
    assert(v@.take(v@.len() as int) =~= v@);
    out
}

/// The keys the reader's file gives `a`: the index of the first entry that
/// names it.
fn own_entry(config: &[Override], a: Action) -> (r: Option<usize>)
    ensures
        match r {
            Some(i) => i < config@.len() && own_keys(config@, a)
                == Some(config@[i as int].keys@.map_values(|r: Result<Binding, String>| read_view(r))),
            None => own_keys(config@, a) is None,
        },
{
    let mut i: usize = 0;
    assert(config@.skip(0) =~= config@);
    while i < config.len()
        invariant
            i <= config@.len(),
            own_keys(config@, a) == own_keys(config@.skip(i as int), a),
        decreases config@.len() - i,
    {
        assert(config@.skip(i as int).drop_first() =~= config@.skip(i + 1));
        if config[i].action == a {
            return Some(i);
        }
        i = i + 1;
    }
    assert(config@.skip(i as int).len() == 0);
    None
}

/// Lay `given` over the kept keys and problems of `a`.
fn keep(a: Action, g: &Vec<Result<Binding, String>>, keys: &mut Vec<Binding>, problems: &mut Vec<KeyProblem>)
    requires
        views(old(keys)@) == Seq::<Seq<Key>>::empty(),
    ensures
        views(final(keys)@) == kept(g@.map_values(|r: Result<Binding, String>| read_view(r))),
        final(problems)@.map_values(|p: KeyProblem| p@)
            == old(problems)@.map_values(|p: KeyProblem| p@) + own_problems(a, g@.map_values(|r: Result<Binding, String>| read_view(r))),
{
    let ghost gv = g@.map_values(|r: Result<Binding, String>| read_view(r));
    let ghost before = old(problems)@.map_values(|p: KeyProblem| p@);
    let mut i: usize = 0;
    while i < g.len()
        invariant
            i <= g@.len(),
            gv == g@.map_values(|r: Result<Binding, String>| read_view(r)),
            views(keys@) == kept(gv.take(i as int)),
            problems@.map_values(|p: KeyProblem| p@) == before + own_problems(a, gv.take(i as int)),
        decreases g@.len() - i,
    {
        let ghost pre_p = problems@.map_values(|p: KeyProblem| p@);
        let ghost pre_k = views(keys@);
        assert(gv.take(i + 1).drop_last() =~= gv.take(i as int));
        assert(gv.take(i + 1).last() == read_view(g@[i as int]));
        match &g[i] {
            Ok(b) => {
                if reserved(b) {
                    problems.push(KeyProblem::Reserved { action: a, key: b.copy() });
                    assert(problems@.map_values(|p: KeyProblem| p@) =~= pre_p.push(Problem::Reserved { action: a, key: b@ }));
                } else if !holds(keys, b) {
                    keys.push(b.copy());
                    assert(views(keys@) =~= pre_k.push(b@));
                }
            },
            Err(why) => {
                problems.push(KeyProblem::Unparsed { action: a, why: why.clone() });
                assert(problems@.map_values(|p: KeyProblem| p@) =~= pre_p.push(Problem::Unparsed { action: a, why: why@ }));
            },
        }
        i = i + 1;
    }
    assert(gv.take(g@.len() as int) =~= gv);
}

/// The defaults of `a`, as keys read from a file.
fn defaults_read(a: Action) -> (r: Vec<Result<Binding, String>>)
    ensures
        r@.map_values(|r: Result<Binding, String>| read_view(r))
            == defaults_of(a).map_values(|b: Seq<Key>| Ok::<Seq<Key>, Seq<char>>(b)),
{
    let d = defaults(a);
    let mut out: Vec<Result<Binding, String>> = Vec::new();
    let mut i: usize = 0;
    while i < d.len()
        invariant
            i <= d@.len(),
            views(d@) == defaults_of(a),
            out@.map_values(|r: Result<Binding, String>| read_view(r))
                == views(d@).take(i as int).map_values(|b: Seq<Key>| Ok::<Seq<Key>, Seq<char>>(b)),
        decreases d@.len() - i,
    {
        let c = d[i].copy();
        let ghost pre = out@;
        out.push(Ok(c));
        proof {
            assert(out@ =~= pre.push(Ok(c)));
            assert(out@.map_values(|r: Result<Binding, String>| read_view(r))
                =~= pre.map_values(|r: Result<Binding, String>| read_view(r)).push(Ok::<Seq<Key>, Seq<char>>(c@)));
            assert(views(d@).take(i + 1) =~= views(d@).take(i as int).push(d@[i as int]@));
        }
        i = i + 1;
        assert(out@.map_values(|r: Result<Binding, String>| read_view(r))
            =~= views(d@).take(i as int).map_values(|b: Seq<Key>| Ok::<Seq<Key>, Seq<char>>(b)));
    }
    assert(views(d@).take(d@.len() as int) =~= views(d@));
    out
}

/// One row of the map: an action's keys in one screen.
#[derive(Debug)]
pub struct Row {
    pub screen: Screen,
    pub action: Action,
    pub keys: Vec<Binding>,
}

/// A row as a value.
pub open spec fn row_view(r: Row) -> (Screen, Action, Seq<Seq<Key>>) {
    (r.screen, r.action, views(r.keys@))
}

/// Rows as values.
pub open spec fn rows_view(v: Seq<Row>) -> Seq<(Screen, Action, Seq<Seq<Key>>)> {
    v.map_values(|r: Row| row_view(r))
}

/// Every action's keys in every screen it works in, in the table's order, so
/// the help lists a binding the way the table does.
#[derive(Debug)]
pub struct Keymap {
    rows: Vec<Row>,
}

impl View for Keymap {
    type V = Seq<(Screen, Action, Seq<Seq<Key>>)>;

    closed spec fn view(&self) -> Seq<(Screen, Action, Seq<Seq<Key>>)> {
        rows_view(self.rows@)
    }
}

/// Pairs of an action and a binding, as values.
pub open spec fn pairs_view(h: Seq<(Action, Binding)>) -> Seq<(Action, Seq<Key>)> {
    h.map_values(|p: (Action, Binding)| (p.0, p.1@))
}

/// Problems as values.
pub open spec fn problems_view(v: Seq<KeyProblem>) -> Seq<Problem> {
    v.map_values(|p: KeyProblem| p@)
}

/// The rows and the own problems of every action of the table.
fn lay(config: &[Override], rows: &mut Vec<Row>, problems: &mut Vec<KeyProblem>)
    requires
        old(rows)@.len() == 0,
        old(problems)@.len() == 0,
    ensures
        rows_view(final(rows)@) == bound_of(config@),
        problems_view(final(problems)@) == problems_through(config@, table().len() as int),
{
    let t = table_rows();
    let mut n: usize = 0;
    assert(rows_view(rows@) =~= rows_through(config@, 0));
    assert(problems_view(problems@) =~= problems_through(config@, 0));
    while n < t.len()
        invariant
            t@ == table(),
            n <= t@.len(),
            rows_view(rows@) == rows_through(config@, n as int),
            problems_view(problems@) == problems_through(config@, n as int),
        decreases t@.len() - n,
    {
        let a = t[n];
        let mut keys: Vec<Binding> = Vec::new();
        let ghost before = problems_view(problems@);
        assert(views(keys@) =~= Seq::<Seq<Key>>::empty());
        match own_entry(config, a) {
            Some(i) => keep(a, &config[i].keys, &mut keys, problems),
            None => {
                let d = defaults_read(a);
                keep(a, &d, &mut keys, problems);
            },
        }
        assert(views(keys@) == kept(given(config@, a)));
        assert(problems_view(problems@) =~= before + own_problems(a, given(config@, a)));
        let sc = screens(a);
        let ghost start = rows_view(rows@);
        let mut k: usize = 0;
        while k < sc.len()
            invariant
                sc@ == screens_of(a),
                k <= sc@.len(),
                views(keys@) == kept(given(config@, a)),
                rows_view(rows@) == start + sc@.take(k as int).map_values(|s: Screen| (s, a, kept(given(config@, a)))),
            decreases sc@.len() - k,
        {
            let ghost pre = rows@;
            rows.push(Row { screen: sc[k], action: a, keys: copy_all(&keys) });
            proof {
                assert(rows_view(rows@) =~= rows_view(pre).push((sc@[k as int], a, kept(given(config@, a)))));
                assert(sc@.take(k + 1) =~= sc@.take(k as int).push(sc@[k as int]));
                assert(sc@.take(k + 1).map_values(|s: Screen| (s, a, kept(given(config@, a))))
                    =~= sc@.take(k as int).map_values(|s: Screen| (s, a, kept(given(config@, a)))).push(
                    (sc@[k as int], a, kept(given(config@, a)))));
            }
            k = k + 1;
        }
        proof {
            assert(sc@.take(sc@.len() as int) =~= sc@);
            assert(table()[n as int] == a);
        }
        n = n + 1;
    }
}

/// Every (action, binding) bound in screen `s`, in the rows' order.
fn here_of(rows: &Vec<Row>, s: Screen) -> (h: Vec<(Action, Binding)>)
    ensures
        pairs_view(h@) == here(rows_view(rows@), s),
{
    let mut h: Vec<(Action, Binding)> = Vec::new();
    let mut i: usize = 0;
    assert(rows_view(rows@).take(0) =~= Seq::<(Screen, Action, Seq<Seq<Key>>)>::empty());
    while i < rows.len()
        invariant
            i <= rows@.len(),
            pairs_view(h@) == here(rows_view(rows@).take(i as int), s),
        decreases rows@.len() - i,
    {
        let r = &rows[i];
        proof {
            assert(rows_view(rows@).take(i + 1).drop_last() =~= rows_view(rows@).take(i as int));
            assert(rows_view(rows@).take(i + 1).last() == row_view(*r));
        }
        if r.screen == s {
            let ghost start = pairs_view(h@);
            let mut k: usize = 0;
            while k < r.keys.len()
                invariant
                    k <= r.keys@.len(),
                    pairs_view(h@) == start + views(r.keys@).take(k as int).map_values(|b: Seq<Key>| (r.action, b)),
                decreases r.keys@.len() - k,
            {
                let ghost pre = h@;
                h.push((r.action, r.keys[k].copy()));
                proof {
                    assert(pairs_view(h@) =~= pairs_view(pre).push((r.action, r.keys@[k as int]@)));
                    assert(views(r.keys@).take(k + 1) =~= views(r.keys@).take(k as int).push(r.keys@[k as int]@));
                    assert(views(r.keys@).take(k + 1).map_values(|b: Seq<Key>| (r.action, b))
                        =~= views(r.keys@).take(k as int).map_values(|b: Seq<Key>| (r.action, b)).push(
                        (r.action, r.keys@[k as int]@)));
                }
                k = k + 1;
            }
            assert(views(r.keys@).take(r.keys@.len() as int) =~= views(r.keys@));
        } else {
            assert(here(rows_view(rows@).take(i + 1), s) =~= here(rows_view(rows@).take(i as int), s));
        }
        i = i + 1;
    }
    assert(rows_view(rows@).take(rows@.len() as int) =~= rows_view(rows@));
    h
}

/// The clash of entries `i` and `j` of `h`, if any.
fn clash_at(s: Screen, h: &Vec<(Action, Binding)>, i: usize, j: usize, problems: &mut Vec<KeyProblem>)
    requires
        i < h@.len(),
        j < h@.len(),
    ensures
        problems_view(final(problems)@) == problems_view(old(problems)@)
            + clash_of(s, pairs_view(h@)[i as int], pairs_view(h@)[j as int]),
{
    let x = &h[i];
    let y = &h[j];
    let ghost pre = problems_view(problems@);
    if x.0 == y.0 {
        assert(problems_view(problems@) =~= pre + Seq::<Problem>::empty());
    } else if starts_with(&y.1, &x.1) {
        problems.push(KeyProblem::Clash { screen: s, first: x.0, first_key: x.1.copy(), second: y.0, second_key: y.1.copy() });
        assert(problems_view(problems@) =~= pre + clash_of(s, pairs_view(h@)[i as int], pairs_view(h@)[j as int]));
    } else if starts_with(&x.1, &y.1) {
        problems.push(KeyProblem::Clash { screen: s, first: y.0, first_key: y.1.copy(), second: x.0, second_key: x.1.copy() });
        assert(problems_view(problems@) =~= pre + clash_of(s, pairs_view(h@)[i as int], pairs_view(h@)[j as int]));
    } else {
        assert(problems_view(problems@) =~= pre + Seq::<Problem>::empty());
    }
}

/// Every clash among the bindings of screen `s`.
fn clashes(s: Screen, rows: &Vec<Row>, problems: &mut Vec<KeyProblem>)
    ensures
        problems_view(final(problems)@) == problems_view(old(problems)@) + clashes_in(rows_view(rows@), s),
{
    let h = here_of(rows, s);
    let ghost hv = pairs_view(h@);
    let ghost before = problems_view(problems@);
    let mut i: usize = 0;
    assert(before =~= before + clashes_through(s, hv, 0));
    while i < h.len()
        invariant
            hv == pairs_view(h@),
            i <= h@.len(),
            problems_view(problems@) == before + clashes_through(s, hv, i as int),
        decreases h@.len() - i,
    {
        let mut j: usize = i + 1;
        assert(problems_view(problems@) =~= before + clashes_through(s, hv, i as int) + clashes_after(s, hv, i as int, j as int));
        while j < h.len()
            invariant
                hv == pairs_view(h@),
                i < j <= h@.len(),
                problems_view(problems@) == before + clashes_through(s, hv, i as int) + clashes_after(s, hv, i as int, j as int),
            decreases h@.len() - j,
        {
            let ghost pre = problems_view(problems@);
            clash_at(s, &h, i, j, problems);
            proof {
                assert(clashes_after(s, hv, i as int, j + 1) == clashes_after(s, hv, i as int, j as int) + clash_of(s, hv[i as int], hv[j as int]));
                assert(problems_view(problems@) =~= before + clashes_through(s, hv, i as int) + clashes_after(s, hv, i as int, j + 1));
            }
            j = j + 1;
        }
        proof {
            assert(clashes_through(s, hv, i + 1) == clashes_through(s, hv, i as int) + clashes_after(s, hv, i as int, hv.len() as int));
            assert(problems_view(problems@) =~= before + clashes_through(s, hv, i + 1));
        }
        i = i + 1;
    }
}


/// Whether two problems are the same.
fn same_problem(p: &KeyProblem, q: &KeyProblem) -> (r: bool)
    ensures
        r == (p@ == q@),
{
    match (p, q) {
        (KeyProblem::Unparsed { action: a, why: w }, KeyProblem::Unparsed { action: b, why: v }) => *a == *b && *w == *v,
        (KeyProblem::Reserved { action: a, key: k }, KeyProblem::Reserved { action: b, key: l }) => *a == *b && same(k, l),
        (
            KeyProblem::Clash { screen: s1, first: f1, first_key: k1, second: g1, second_key: l1 },
            KeyProblem::Clash { screen: s2, first: f2, first_key: k2, second: g2, second_key: l2 },
        ) => *s1 == *s2 && *f1 == *f2 && same(k1, k2) && *g1 == *g2 && same(l1, l2),
        _ => false,
    }
}

/// Whether `v` holds a problem the same as `p`.
fn holds_problem(v: &Vec<KeyProblem>, p: &KeyProblem) -> (r: bool)
    ensures
        r == problems_view(v@).contains(p@),
{
    let mut i: usize = 0;
    while i < v.len()
        invariant
            i <= v@.len(),
            forall|k: int| 0 <= k < i ==> v@[k]@ != p@,
        decreases v@.len() - i,
    {
        if same_problem(&v[i], p) {
            assert(problems_view(v@)[i as int] == p@);
            return true;
        }
        i = i + 1;
    }
    proof {
        if problems_view(v@).contains(p@) {
            let k = choose|k: int| 0 <= k < problems_view(v@).len() && problems_view(v@)[k] == p@;
            assert(v@[k]@ == p@);
        }
    }
    false
}

/// Each problem once, where it first came: an action on two rows, or a key
/// written twice, is one problem.
fn keep_once(ps: Vec<KeyProblem>) -> (r: Vec<KeyProblem>)
    ensures
        problems_view(r@) == once(problems_view(ps@)),
{
    let ghost pv = problems_view(ps@);
    let mut ps = ps;
    let mut out: Vec<KeyProblem> = Vec::new();
    let ghost mut k: int = 0;
    assert(pv.skip(0) =~= pv);
    assert(pv.take(0) =~= Seq::<Problem>::empty());
    while ps.len() > 0
        invariant
            0 <= k <= pv.len(),
            ps@.len() == pv.len() - k,
            problems_view(ps@) == pv.skip(k),
            problems_view(out@) == once(pv.take(k)),
        decreases ps@.len(),
    {
        let ghost before = ps@;
        let p = ps.remove(0);
        proof {
            assert(problems_view(before)[0] == p@);
            assert(pv.skip(k)[0] == pv[k]);
            assert(ps@ =~= before.subrange(1, before.len() as int));
            let now = problems_view(ps@);
            assert forall|q: int| 0 <= q < ps@.len() implies #[trigger] now[q] == pv.skip(k + 1)[q] by {
                assert(ps@[q] == before[q + 1]);
                assert(problems_view(before)[q + 1] == pv.skip(k)[q + 1]);
            }
            assert(now =~= pv.skip(k + 1));
            assert(pv.take(k + 1).drop_last() =~= pv.take(k));
            assert(pv.take(k + 1).last() == pv[k]);
        }
        if !holds_problem(&out, &p) {
            let ghost pre = problems_view(out@);
            out.push(p);
            assert(problems_view(out@) =~= pre.push(pv[k]));
        }
        proof {
            k = k + 1;
        }
    }
    assert(pv.take(k) =~= pv);
    out
}

impl Keymap {
    /// The defaults with the reader's keys laid over them, or every reason
    /// that cannot be done. An action the reader names takes exactly the
    /// keys given, in every screen the action works in; none unbinds it. A
    /// clash names both actions, never a quiet winner.
    pub fn new(config: &[Override]) -> (r: Result<Keymap, Vec<KeyProblem>>)
        ensures
            match r {
                Ok(km) => problems_of(config@).len() == 0 && km@ == bound_of(config@),
                Err(ps) => problems_of(config@).len() > 0 && problems_view(ps@) == problems_of(config@),
            },
            forall|i: int, a: int, j: int, b: int|
                0 <= i < bound_of(config@).len() && 0 <= j < bound_of(config@).len()
                && bound_of(config@)[i].0 == bound_of(config@)[j].0
                && bound_of(config@)[i].1 != bound_of(config@)[j].1
                && 0 <= a < bound_of(config@)[i].2.len() && 0 <= b < bound_of(config@)[j].2.len()
                && starts(#[trigger] bound_of(config@)[j].2[b], #[trigger] bound_of(config@)[i].2[a])
                ==> r is Err,
    {
        proof {
            assert forall|i: int, a: int, j: int, b: int|
                0 <= i < bound_of(config@).len() && 0 <= j < bound_of(config@).len()
                && bound_of(config@)[i].0 == bound_of(config@)[j].0
                && bound_of(config@)[i].1 != bound_of(config@)[j].1
                && 0 <= a < bound_of(config@)[i].2.len() && 0 <= b < bound_of(config@)[j].2.len()
                && starts(#[trigger] bound_of(config@)[j].2[b], #[trigger] bound_of(config@)[i].2[a])
                implies problems_of(config@).len() > 0 by {
                lemma_a_key_that_starts_another_is_reported(config@, i, a, j, b);
            }
        }
        let mut rows: Vec<Row> = Vec::new();
        let mut problems: Vec<KeyProblem> = Vec::new();
        lay(config, &mut rows, &mut problems);
        let mut problems = keep_once(problems);
        clashes(Screen::Review, &rows, &mut problems);
        clashes(Screen::FileList, &rows, &mut problems);
        clashes(Screen::Findings, &rows, &mut problems);
        if problems.len() == 0 {
            Ok(Keymap { rows })
        } else {
            Err(problems)
        }
    }
}

/// What a key means, given the presses before it, as a value.
pub enum Meaning {
    /// A whole binding: do this.
    Act(Action),
    /// The start of a binding: keep these presses and wait for the next.
    Pending(Seq<Key>),
    /// Nothing here.
    Nothing,
}

/// What a key means, given the presses before it.
#[derive(Debug)]
pub enum Lookup {
    Act(Action),
    Pending(Vec<Key>),
    Nothing,
}

impl View for Lookup {
    type V = Meaning;

    open spec fn view(&self) -> Meaning {
        match self {
            Lookup::Act(a) => Meaning::Act(*a),
            Lookup::Pending(v) => Meaning::Pending(v@),
            Lookup::Nothing => Meaning::Nothing,
        }
    }
}

/// The action of the first row of screen `s` with a binding of exactly `seq`.
pub open spec fn found(rows: Seq<(Screen, Action, Seq<Seq<Key>>)>, s: Screen, seq: Seq<Key>) -> Option<Action>
    decreases rows.len(),
{
    if rows.len() == 0 {
        None
    } else if rows[0].0 == s && rows[0].2.contains(seq) {
        Some(rows[0].1)
    } else {
        found(rows.drop_first(), s, seq)
    }
}

/// Whether some binding of screen `s` starts with `seq`.
pub open spec fn started(rows: Seq<(Screen, Action, Seq<Seq<Key>>)>, s: Screen, seq: Seq<Key>) -> bool {
    exists|i: int, k: int| 0 <= i < rows.len() && rows[i].0 == s && 0 <= k < rows[i].2.len() && starts(#[trigger] rows[i].2[k], seq)
}

/// What `seq` means in screen `s`, read once.
pub open spec fn meaning_of(rows: Seq<(Screen, Action, Seq<Seq<Key>>)>, s: Screen, seq: Seq<Key>) -> Meaning {
    match found(rows, s, seq) {
        Some(a) => Meaning::Act(a),
        None => if started(rows, s, seq) { Meaning::Pending(seq) } else { Meaning::Nothing },
    }
}

/// What `key` means in screen `s` after the presses in `pending`: the whole
/// run read as a binding or the start of one; and a press that neither
/// finishes nor continues a run is read again on its own, so `d` then `j` is
/// a `j`.
pub open spec fn spec_lookup(rows: Seq<(Screen, Action, Seq<Seq<Key>>)>, s: Screen, pending: Seq<Key>, key: Key) -> Meaning {
    let run = meaning_of(rows, s, pending.push(canon(key)));
    if run is Nothing && pending.len() > 0 {
        meaning_of(rows, s, seq![canon(key)])
    } else {
        run
    }
}

/// What the presses of `seq` mean in screen `s`, read once.
fn read_once(rows: &Vec<Row>, s: Screen, seq: &Binding) -> (r: Lookup)
    ensures
        r@ == meaning_of(rows_view(rows@), s, seq@),
{
    let ghost rv = rows_view(rows@);
    let mut prefix = false;
    let mut i: usize = 0;
    assert(rv.skip(0) =~= rv);
    while i < rows.len()
        invariant
            rv == rows_view(rows@),
            i <= rows@.len(),
            found(rv, s, seq@) == found(rv.skip(i as int), s, seq@),
            prefix == exists|i2: int, k: int| 0 <= i2 < i && rv[i2].0 == s && 0 <= k < rv[i2].2.len() && starts(#[trigger] rv[i2].2[k], seq@),
        decreases rows@.len() - i,
    {
        let r = &rows[i];
        assert(rv.skip(i as int).drop_first() =~= rv.skip(i + 1));
        assert(rv.skip(i as int)[0] == row_view(*r));
        if r.screen == s {
            let mut k: usize = 0;
            let ghost before = prefix;
            while k < r.keys.len()
                invariant
                    rv == rows_view(rows@),
                    i < rows@.len(),
                    *r == rows@[i as int],
                    rv[i as int] == row_view(*r),
                    r.screen == s,
                    found(rv, s, seq@) == found(rv.skip(i as int), s, seq@),
                    rv.skip(i as int).len() > 0,
                    rv.skip(i as int)[0] == row_view(*r),
                    k <= r.keys@.len(),
                    forall|q: int| 0 <= q < k ==> r.keys@[q]@ != seq@,
                    prefix == (before || exists|q: int| 0 <= q < k && starts(#[trigger] rv[i as int].2[q], seq@)),
                decreases r.keys@.len() - k,
            {
                if same(&r.keys[k], seq) {
                    proof {
                        assert(views(r.keys@)[k as int] == seq@);
                        assert(rv.skip(i as int)[0].2.contains(seq@));
                        assert(found(rv.skip(i as int), s, seq@) == Some(r.action));
                    }
                    return Lookup::Act(r.action);
                }
                let st = starts_with(&r.keys[k], seq);
                assert(rv[i as int].2[k as int] == r.keys@[k as int]@);
                prefix = prefix || st;
                k = k + 1;
            }
            proof {
                if views(r.keys@).contains(seq@) {
                    let q = choose|q: int| 0 <= q < views(r.keys@).len() && views(r.keys@)[q] == seq@;
                    assert(r.keys@[q]@ == seq@);
                }
                assert(!rv.skip(i as int)[0].2.contains(seq@));
                assert(prefix == exists|i2: int, k2: int| 0 <= i2 < i + 1 && rv[i2].0 == s && 0 <= k2 < rv[i2].2.len()
                    && starts(#[trigger] rv[i2].2[k2], seq@)) by {
                    if prefix && !before {
                        let q = choose|q: int| 0 <= q < k && starts(#[trigger] rv[i as int].2[q], seq@);
                        assert(0 <= i < i + 1 && rv[i as int].0 == s && 0 <= q < rv[i as int].2.len());
                    }
                }
            }
        }
        i = i + 1;
    }
    proof {
        assert(rv.skip(i as int).len() == 0);
    }
    if prefix {
        Lookup::Pending(copy_keys(&seq.presses))
    } else {
        Lookup::Nothing
    }
}

impl Keymap {
    /// What `key` does in screen `s`, after the presses in `pending`.
    pub fn lookup(&self, s: Screen, pending: &[Key], key: Key) -> (r: Lookup)
        ensures
            r@ == spec_lookup(self@, s, pending@, key),
    {
        let mut run: Vec<Key> = Vec::new();
        let mut i: usize = 0;
        while i < pending.len()
            invariant
                i <= pending@.len(),
                run@ == pending@.take(i as int),
            decreases pending@.len() - i,
        {
            run.push(pending[i]);
            i = i + 1;
            assert(run@ =~= pending@.take(i as int));
        }
        assert(pending@.take(pending@.len() as int) =~= pending@);
        let k = canonical(key);
        run.push(k);
        let whole = Binding { presses: run };
        assert(whole@ =~= pending@.push(canon(key)));
        let first = read_once(&self.rows, s, &whole);
        match first {
            Lookup::Nothing => {
                if pending.len() > 0 {
                    let alone = Binding { presses: vec![k] };
                    assert(alone@ =~= seq![canon(key)]);
                    read_once(&self.rows, s, &alone)
                } else {
                    Lookup::Nothing
                }
            },
            other => other,
        }
    }

    /// The keys `action` answers to in screen `s`, first the one to show:
    /// those of the first row of the two, or none where it does not work.
    pub fn bindings(&self, s: Screen, action: Action) -> (r: Vec<Binding>)
        ensures
            views(r@) == bindings_of(self@, s, action),
    {
        let ghost rv = self@;
        let mut i: usize = 0;
        assert(rv.skip(0) =~= rv);
        while i < self.rows.len()
            invariant
                rv == rows_view(self.rows@),
                i <= self.rows@.len(),
                bindings_of(rv, s, action) == bindings_of(rv.skip(i as int), s, action),
            decreases self.rows@.len() - i,
        {
            assert(rv.skip(i as int).drop_first() =~= rv.skip(i + 1));
            assert(rv.skip(i as int)[0] == row_view(self.rows@[i as int]));
            if self.rows[i].screen == s && self.rows[i].action == action {
                return copy_all(&self.rows[i].keys);
            }
            i = i + 1;
        }
        assert(rv.skip(i as int).len() == 0);
        let none: Vec<Binding> = Vec::new();
        assert(views(none@) =~= Seq::<Seq<Key>>::empty());
        none
    }
}

/// The keys of the first row of screen `s` and action `a`; none if there is
/// no such row.
pub open spec fn bindings_of(rows: Seq<(Screen, Action, Seq<Seq<Key>>)>, s: Screen, a: Action) -> Seq<Seq<Key>>
    decreases rows.len(),
{
    if rows.len() == 0 {
        Seq::empty()
    } else if rows[0].0 == s && rows[0].1 == a {
        rows[0].2
    } else {
        bindings_of(rows.drop_first(), s, a)
    }
}

/// The name a named key is written with.
pub open spec fn key_name(code: Code) -> Seq<char> {
    match code {
        Code::Char(' ') => "space"@,
        Code::Char(c) => seq![c],
        Code::Enter => "enter"@,
        Code::Esc => "esc"@,
        Code::Tab => "tab"@,
        Code::Up => "up"@,
        Code::Down => "down"@,
        Code::Left => "left"@,
        Code::Right => "right"@,
        Code::Other => "other"@,
    }
}

/// One press as the help and the footer write it, which is how the file
/// spells it too: its modifiers, then its key.
pub open spec fn press_text(k: Key) -> Seq<char> {
    (if k.ctrl { "ctrl-"@ } else { Seq::empty() }) + (if k.alt { "alt-"@ } else { Seq::empty() })
        + (if k.shift { "shift-"@ } else { Seq::empty() }) + key_name(k.code)
}

/// A press of a plain character other than space, with no modifier.
pub open spec fn plain_char(k: Key) -> bool {
    !k.ctrl && !k.alt && !k.shift && k.code is Char && k.code != Code::Char(' ')
}

/// The presses written one after another, with `sep` between.
pub open spec fn joined(b: Seq<Key>, sep: Seq<char>) -> Seq<char>
    decreases b.len(),
{
    if b.len() == 0 {
        Seq::empty()
    } else if b.len() == 1 {
        press_text(b[0])
    } else {
        joined(b.drop_last(), sep) + sep + press_text(b.last())
    }
}

/// A binding as written: `dd` rather than `d d`, since a run of plain
/// characters reads as the vim it is; anything with a named key or a
/// modifier keeps its spaces.
pub open spec fn binding_text(b: Seq<Key>) -> Seq<char> {
    let plain = b.len() > 1 && forall|i: int| 0 <= i < b.len() ==> plain_char(#[trigger] b[i]);
    joined(b, if plain { Seq::empty() } else { " "@ })
}

/// Append one press as written.
fn push_press(out: &mut String, k: Key)
    ensures
        final(out)@ == old(out)@ + press_text(k),
{
    let ghost start = out@;
    if k.ctrl {
        push_text(out, "ctrl-");
    }
    if k.alt {
        push_text(out, "alt-");
    }
    if k.shift {
        push_text(out, "shift-");
    }
    let ghost mods = out@;
    match k.code {
        Code::Char(' ') => push_text(out, "space"),
        Code::Char(c) => push_char(out, c),
        Code::Enter => push_text(out, "enter"),
        Code::Esc => push_text(out, "esc"),
        Code::Tab => push_text(out, "tab"),
        Code::Up => push_text(out, "up"),
        Code::Down => push_text(out, "down"),
        Code::Left => push_text(out, "left"),
        Code::Right => push_text(out, "right"),
        Code::Other => push_text(out, "other"),
    }
    assert(out@ =~= start + press_text(k));
}

impl Binding {
    /// The binding as the help, the footer and the file write it.
    pub fn text(&self) -> (r: String)
        ensures
            r@ == binding_text(self@),
    {
        let p = &self.presses;
        let mut plain = p.len() > 1;
        let mut i: usize = 0;
        while i < p.len()
            invariant
                i <= p@.len(),
                plain == (p@.len() > 1 && forall|q: int| 0 <= q < i ==> plain_char(#[trigger] p@[q])),
            decreases p@.len() - i,
        {
            let k = p[i];
            let this = !k.ctrl && !k.alt && !k.shift && match k.code {
                Code::Char(c) => c != ' ',
                _ => false,
            };
            assert(this == plain_char(p@[i as int]));
            plain = plain && this;
            i = i + 1;
        }
        let ghost sep: Seq<char> = if plain { Seq::empty() } else { " "@ };
        let mut out = String::new();
        let mut j: usize = 0;
        while j < p.len()
            invariant
                j <= p@.len(),
                sep == (if plain { Seq::<char>::empty() } else { " "@ }),
                out@ == joined(p@.take(j as int), sep),
            decreases p@.len() - j,
        {
            let ghost pre = out@;
            if j > 0 && !plain {
                push_text(&mut out, " ");
            }
            push_press(&mut out, p[j]);
            proof {
                assert(p@.take(j + 1).drop_last() =~= p@.take(j as int));
                assert(p@.take(j + 1).last() == p@[j as int]);
                if j == 0 {
                    assert(p@.take(1)[0] == p@[0]);
                    assert(pre =~= Seq::<char>::empty());
                    assert(out@ =~= joined(p@.take(1), sep));
                } else {
                    assert(out@ =~= joined(p@.take(j as int), sep) + sep + press_text(p@[j as int]));
                }
            }
            j = j + 1;
        }
        assert(p@.take(p@.len() as int) =~= p@);
        out
    }
}

impl Keymap {
    /// The key to name for `action` in screen `s`, if it has one.
    pub fn first(&self, s: Screen, action: Action) -> (r: Option<Binding>)
        ensures
            match r {
                Some(b) => bindings_of(self@, s, action).len() > 0 && b@ == bindings_of(self@, s, action)[0],
                None => bindings_of(self@, s, action).len() == 0,
            },
    {
        let all = self.bindings(s, action);
        if all.len() == 0 {
            None
        } else {
            assert(views(all@)[0] == all@[0]@);
            Some(all[0].copy())
        }
    }
}

/// Texts joined with `sep` between them.
pub open spec fn join_texts(parts: Seq<Seq<char>>, sep: Seq<char>) -> Seq<char>
    decreases parts.len(),
{
    if parts.len() == 0 {
        Seq::empty()
    } else if parts.len() == 1 {
        parts[0]
    } else {
        join_texts(parts.drop_last(), sep) + sep + parts.last()
    }
}

/// The `i`-th binding of each action that has one, written out.
pub open spec fn nth_texts(bound: Seq<Seq<Seq<Key>>>, i: int) -> Seq<Seq<char>>
    decreases bound.len(),
{
    if bound.len() == 0 {
        Seq::empty()
    } else {
        let rest = nth_texts(bound.drop_last(), i);
        if i < bound.last().len() { rest.push(binding_text(bound.last()[i])) } else { rest }
    }
}

/// The `i`-th bindings of a row's actions read as one: `j/k`.
pub open spec fn alternate(bound: Seq<Seq<Seq<Key>>>, i: int) -> Seq<char> {
    join_texts(nth_texts(bound, i), "/"@)
}

/// How many bindings the action with the most has.
pub open spec fn longest(bound: Seq<Seq<Seq<Key>>>) -> nat
    decreases bound.len(),
{
    if bound.len() == 0 {
        0
    } else {
        let m = longest(bound.drop_last());
        if bound.last().len() > m { bound.last().len() } else { m }
    }
}

/// The presses of the first binding of the first action that has one.
pub open spec fn first_presses(bound: Seq<Seq<Seq<Key>>>) -> Seq<Key>
    decreases bound.len(),
{
    if bound.len() == 0 {
        Seq::empty()
    } else if bound[0].len() > 0 {
        bound[0][0]
    } else {
        first_presses(bound.drop_first())
    }
}

/// The bindings of each of `actions` in screen `s`.
pub open spec fn bound_for(rows: Seq<(Screen, Action, Seq<Seq<Key>>)>, s: Screen, actions: Seq<Action>) -> Seq<Seq<Seq<Key>>> {
    actions.map_values(|a: Action| bindings_of(rows, s, a))
}

/// The key column of a row of `actions` in screen `s`: every alternate, the
/// pairs' keys zipped (`j/k · down/up`), the first alternate alone for the
/// footer, and the first binding's presses for a click. `None` when every
/// one of them is unbound, and the row goes: a row naming no key says to
/// press nothing.
pub open spec fn key_column(rows: Seq<(Screen, Action, Seq<Seq<Key>>)>, s: Screen, actions: Seq<Action>)
    -> Option<(Seq<char>, Seq<char>, Seq<Key>)> {
    let bound = bound_for(rows, s, actions);
    let n = longest(bound);
    if n == 0 {
        None
    } else {
        Some((
            join_texts(Seq::new(n, |i: int| alternate(bound, i)), " · "@),
            alternate(bound, 0),
            first_presses(bound),
        ))
    }
}

/// Append `parts` joined by `sep`, where `parts` are already texts.
fn join_into(parts: &Vec<String>, sep: &str) -> (r: String)
    ensures
        r@ == join_texts(parts@.map_values(|t: String| t@), sep@),
{
    let ghost pv = parts@.map_values(|t: String| t@);
    let mut out = String::new();
    let mut i: usize = 0;
    while i < parts.len()
        invariant
            pv == parts@.map_values(|t: String| t@),
            i <= parts@.len(),
            out@ == join_texts(pv.take(i as int), sep@),
        decreases parts@.len() - i,
    {
        let ghost pre = out@;
        if i > 0 {
            push_text(&mut out, sep);
        }
        push_text(&mut out, parts[i].as_str());
        proof {
            assert(pv.take(i + 1).drop_last() =~= pv.take(i as int));
            assert(pv.take(i + 1).last() == parts@[i as int]@);
            if i == 0 {
                assert(pv.take(1)[0] == parts@[0]@);
                assert(out@ =~= join_texts(pv.take(1), sep@));
            } else {
                assert(out@ =~= join_texts(pv.take(i as int), sep@) + sep@ + parts@[i as int]@);
            }
        }
        i = i + 1;
    }
    assert(pv.take(parts@.len() as int) =~= pv);
    out
}

/// The `i`-th binding of each of `bound` that has one, written out.
fn nth_of(bound: &Vec<Vec<Binding>>, i: usize) -> (r: Vec<String>)
    ensures
        r@.map_values(|t: String| t@) == nth_texts(bound@.map_values(|v: Vec<Binding>| views(v@)), i as int),
{
    let ghost bv = bound@.map_values(|v: Vec<Binding>| views(v@));
    let mut out: Vec<String> = Vec::new();
    let mut k: usize = 0;
    while k < bound.len()
        invariant
            bv == bound@.map_values(|v: Vec<Binding>| views(v@)),
            k <= bound@.len(),
            out@.map_values(|t: String| t@) == nth_texts(bv.take(k as int), i as int),
        decreases bound@.len() - k,
    {
        let ghost pre = out@;
        proof {
            assert(bv.take(k + 1).drop_last() =~= bv.take(k as int));
            assert(bv.take(k + 1).last() == views(bound@[k as int]@));
        }
        if i < bound[k].len() {
            let t = bound[k][i].text();
            out.push(t);
            assert(views(bound@[k as int]@)[i as int] == bound@[k as int]@[i as int]@);
            assert(out@.map_values(|t: String| t@) =~= pre.map_values(|t: String| t@).push(t@));
        }
        k = k + 1;
    }
    assert(bv.take(bound@.len() as int) =~= bv);
    out
}

impl Keymap {
    /// The key column for a row of `actions` in screen `s`, as
    /// `key_column` says: `(every key, the first keys, what a click
    /// presses)`.
    pub fn keys(&self, s: Screen, actions: &[Action]) -> (r: Option<(String, String, Vec<Key>)>)
        ensures
            match r {
                Some((full, short, presses)) => key_column(self@, s, actions@) == Some((full@, short@, presses@)),
                None => key_column(self@, s, actions@) is None,
            },
    {
        let ghost target = bound_for(self@, s, actions@);
        let mut bound: Vec<Vec<Binding>> = Vec::new();
        let mut most: usize = 0;
        let mut i: usize = 0;
        while i < actions.len()
            invariant
                target == bound_for(self@, s, actions@),
                i <= actions@.len(),
                bound@.map_values(|v: Vec<Binding>| views(v@)) == target.take(i as int),
                most == longest(target.take(i as int)),
            decreases actions@.len() - i,
        {
            let b = self.bindings(s, actions[i]);
            let ghost pre = bound@;
            proof {
                assert(target.take(i + 1).drop_last() =~= target.take(i as int));
                assert(target.take(i + 1).last() == views(b@));
            }
            if b.len() > most {
                most = b.len();
            }
            bound.push(b);
            assert(bound@.map_values(|v: Vec<Binding>| views(v@)) =~= target.take(i + 1));
            i = i + 1;
        }
        assert(target.take(actions@.len() as int) =~= target);
        let ghost bv = target;
        if most == 0 {
            return None;
        }
        let mut alts: Vec<String> = Vec::new();
        let mut j: usize = 0;
        while j < most
            invariant
                bv == bound@.map_values(|v: Vec<Binding>| views(v@)),
                j <= most,
                alts@.map_values(|t: String| t@) == Seq::new(j as nat, |q: int| alternate(bv, q)),
            decreases most - j,
        {
            let parts = nth_of(&bound, j);
            let a = join_into(&parts, "/");
            let ghost pre = alts@;
            assert(a@ == alternate(bv, j as int));
            alts.push(a);
            assert(alts@.map_values(|t: String| t@) =~= pre.map_values(|t: String| t@).push(a@));
            assert(alts@.map_values(|t: String| t@) =~= Seq::new((j + 1) as nat, |q: int| alternate(bv, q)));
            j = j + 1;
        }
        let full = join_into(&alts, " · ");
        let first_parts = nth_of(&bound, 0);
        let short = join_into(&first_parts, "/");
        let presses = first_presses_of(&bound);
        Some((full, short, presses))
    }
}

/// The presses of the first binding of the first of `bound` that has one.
fn first_presses_of(bound: &Vec<Vec<Binding>>) -> (r: Vec<Key>)
    ensures
        r@ == first_presses(bound@.map_values(|v: Vec<Binding>| views(v@))),
{
    let ghost bv = bound@.map_values(|v: Vec<Binding>| views(v@));
    let mut k: usize = 0;
    assert(bv.skip(0) =~= bv);
    while k < bound.len()
        invariant
            bv == bound@.map_values(|v: Vec<Binding>| views(v@)),
            k <= bound@.len(),
            first_presses(bv) == first_presses(bv.skip(k as int)),
        decreases bound@.len() - k,
    {
        assert(bv.skip(k as int).drop_first() =~= bv.skip(k + 1));
        assert(bv.skip(k as int)[0] == views(bound@[k as int]@));
        if bound[k].len() > 0 {
            assert(views(bound@[k as int]@)[0] == bound@[k as int]@[0]@);
            return bound[k][0].presses();
        }
        k = k + 1;
    }
    assert(bv.skip(k as int).len() == 0);
    Vec::new()
}

impl Keymap {
    /// `"<key> <what>"` for a hint in a message (`"w turns it off"`), or
    /// nothing when the reader unbound the key, so a message never tells
    /// them to press something that does nothing.
    pub fn says(&self, s: Screen, action: Action, what: &str) -> (r: Option<String>)
        ensures
            match r {
                Some(t) => bindings_of(self@, s, action).len() > 0
                    && t@ == binding_text(bindings_of(self@, s, action)[0]) + " "@ + what@,
                None => bindings_of(self@, s, action).len() == 0,
            },
    {
        match self.first(s, action) {
            Some(b) => {
                let mut t = b.text();
                push_text(&mut t, " ");
                push_text(&mut t, what);
                Some(t)
            },
            None => None,
        }
    }
}

/// A binding of a row of screen `s` is in that screen's list of bindings.
proof fn lemma_in_here(rows: Seq<(Screen, Action, Seq<Seq<Key>>)>, s: Screen, i: int, k: int)
    requires
        0 <= i < rows.len(),
        rows[i].0 == s,
        0 <= k < rows[i].2.len(),
    ensures
        exists|p: int| 0 <= p < here(rows, s).len() && here(rows, s)[p] == (rows[i].1, rows[i].2[k]),
    decreases rows.len(),
{
    let last = rows.len() - 1;
    let before = here(rows.drop_last(), s);
    let r = rows.last();
    let tail = if r.0 == s { r.2.map_values(|b: Seq<Key>| (r.1, b)) } else { Seq::empty() };
    assert(here(rows, s) == before + tail);
    if i < last {
        assert(rows.drop_last()[i] == rows[i]);
        lemma_in_here(rows.drop_last(), s, i, k);
        let p = choose|p: int| 0 <= p < before.len() && before[p] == (rows[i].1, rows[i].2[k]);
        assert(here(rows, s)[p] == before[p]);
    } else {
        let p = before.len() + k;
        assert(tail[k] == (rows[i].1, rows[i].2[k]));
        assert(here(rows, s)[p] == tail[k]);
    }
}

/// No clash among the first `n` entries' pairs: no two bindings of
/// different actions, the earlier one among the first `n`, start one
/// another.
proof fn lemma_no_clash_pair(s: Screen, h: Seq<(Action, Seq<Key>)>, n: int, i: int, j: int)
    requires
        clashes_through(s, h, n).len() == 0,
        0 <= i < n,
        i < j < h.len(),
    ensures
        clash_of(s, h[i], h[j]).len() == 0,
    decreases n,
{
    if i < n - 1 {
        lemma_no_clash_pair(s, h, n - 1, i, j);
    } else {
        lemma_no_clash_after(s, h, i, h.len() as int, j);
    }
}

proof fn lemma_no_clash_after(s: Screen, h: Seq<(Action, Seq<Key>)>, i: int, m: int, j: int)
    requires
        clashes_after(s, h, i, m).len() == 0,
        i < j < m,
    ensures
        clash_of(s, h[i], h[j]).len() == 0,
    decreases m - i,
{
    if j < m - 1 {
        lemma_no_clash_after(s, h, i, m - 1, j);
    }
}

/// When some row of screen `s` has a binding of exactly `seq`, the lookup
/// finds one.
proof fn lemma_found(rows: Seq<(Screen, Action, Seq<Seq<Key>>)>, s: Screen, seq: Seq<Key>, i: int)
    requires
        0 <= i < rows.len(),
        rows[i].0 == s,
        rows[i].2.contains(seq),
    ensures
        exists|j: int| 0 <= j < rows.len() && rows[j].0 == s && rows[j].2.contains(seq)
            && found(rows, s, seq) == Some(rows[j].1),
    decreases rows.len(),
{
    if rows[0].0 == s && rows[0].2.contains(seq) {
        assert(found(rows, s, seq) == Some(rows[0].1));
    } else {
        assert(i > 0);
        assert(rows.drop_first()[i - 1] == rows[i]);
        lemma_found(rows.drop_first(), s, seq, i - 1);
        let j = choose|j: int| 0 <= j < rows.drop_first().len() && rows.drop_first()[j].0 == s
            && rows.drop_first()[j].2.contains(seq) && found(rows.drop_first(), s, seq) == Some(rows.drop_first()[j].1);
        assert(rows[j + 1] == rows.drop_first()[j]);
    }
}

/// A keymap without a problem answers every binding with its own action:
/// the whole run of presses of a key an action is bound to in a screen
/// means that action there, and no other.
pub proof fn lemma_a_binding_means_its_action(config: Seq<Override>, s: Screen, i: int, k: int)
    requires
        problems_of(config).len() == 0,
        0 <= i < bound_of(config).len(),
        bound_of(config)[i].0 == s,
        0 <= k < bound_of(config)[i].2.len(),
    ensures
        meaning_of(bound_of(config), s, bound_of(config)[i].2[k]) == Meaning::Act(bound_of(config)[i].1),
{
    let rows = bound_of(config);
    let b = rows[i].2[k];
    let a = rows[i].1;
    let h = here(rows, s);
    assert(clashes_in(rows, s).len() == 0) by {
        match s {
            Screen::Review => {},
            Screen::FileList => {},
            Screen::Findings => {},
        }
    }
    assert(rows[i].2[k] == b);
    assert(rows[i].2.contains(b));
    lemma_found(rows, s, b, i);
    let j = choose|j: int| 0 <= j < rows.len() && rows[j].0 == s && rows[j].2.contains(b) && found(rows, s, b) == Some(rows[j].1);
    let kj = choose|kj: int| 0 <= kj < rows[j].2.len() && rows[j].2[kj] == b;
    lemma_in_here(rows, s, i, k);
    lemma_in_here(rows, s, j, kj);
    let q = choose|p: int| 0 <= p < h.len() && h[p] == (a, b);
    let p = choose|p: int| 0 <= p < h.len() && h[p] == (rows[j].1, b);
    assert(b.take(b.len() as int) =~= b);
    assert(starts(b, b));
    if rows[j].1 != a {
        if p < q {
            lemma_no_clash_pair(s, h, h.len() as int, p, q);
        } else if q < p {
            lemma_no_clash_pair(s, h, h.len() as int, q, p);
        }
    }
}

proof fn lemma_rows_through(config: Seq<Override>, n: int)
    requires
        0 <= n <= table().len(),
    ensures
        forall|i: int| 0 <= i < rows_through(config, n).len() ==> {
            let r = #[trigger] rows_through(config, n)[i];
            r.2 == kept(given(config, r.1)) && screens_of(r.1).contains(r.0)
        },
        forall|m: int, sc: Screen| 0 <= m < n && #[trigger] screens_of(table()[m]).contains(sc) ==> exists|i: int|
            0 <= i < rows_through(config, n).len()
                && #[trigger] rows_through(config, n)[i] == (sc, table()[m], kept(given(config, table()[m]))),
    decreases n,
{
    if n > 0 {
        lemma_rows_through(config, n - 1);
        let a = table()[n - 1];
        let before = rows_through(config, n - 1);
        let block = screens_of(a).map_values(|x: Screen| (x, a, kept(given(config, a))));
        assert(rows_through(config, n) == before + block);
        assert forall|i: int| 0 <= i < rows_through(config, n).len() implies {
            let r = #[trigger] rows_through(config, n)[i];
            r.2 == kept(given(config, r.1)) && screens_of(r.1).contains(r.0)
        } by {
            if i < before.len() {
                assert(rows_through(config, n)[i] == before[i]);
            } else {
                let q = i - before.len();
                assert(rows_through(config, n)[i] == block[q]);
                assert(screens_of(a)[q] == block[q].0);
            }
        }
        assert forall|m: int, sc: Screen| 0 <= m < n && #[trigger] screens_of(table()[m]).contains(sc) implies exists|i: int|
            0 <= i < rows_through(config, n).len()
                && #[trigger] rows_through(config, n)[i] == (sc, table()[m], kept(given(config, table()[m]))) by {
            if m < n - 1 {
                let i = choose|i: int| 0 <= i < before.len() && #[trigger] before[i] == (sc, table()[m], kept(given(config, table()[m])));
                assert(rows_through(config, n)[i] == before[i]);
            } else {
                let q = choose|q: int| 0 <= q < screens_of(a).len() && screens_of(a)[q] == sc;
                assert(rows_through(config, n)[before.len() + q] == block[q]);
            }
        }
    }
}

/// An action takes exactly the keys it is given, in every screen it works
/// in: every row of the map holds the keys kept of what its action is
/// given (the reader's where the file names it, its defaults otherwise), in
/// a screen that action works in; and every screen an action works in has
/// its row.
pub proof fn lemma_an_action_takes_its_keys_in_every_screen(config: Seq<Override>)
    ensures
        forall|i: int| 0 <= i < bound_of(config).len() ==> {
            let r = #[trigger] bound_of(config)[i];
            r.2 == kept(given(config, r.1)) && screens_of(r.1).contains(r.0)
        },
        forall|m: int, sc: Screen| 0 <= m < table().len() && #[trigger] screens_of(table()[m]).contains(sc) ==> exists|i: int|
            0 <= i < bound_of(config).len()
                && #[trigger] bound_of(config)[i] == (sc, table()[m], kept(given(config, table()[m]))),
{
    let n = table().len() as int;
    lemma_rows_through(config, n);
    let rows = rows_through(config, n);
    assert(bound_of(config) == rows);
    assert forall|m: int, sc: Screen| 0 <= m < table().len() && #[trigger] screens_of(table()[m]).contains(sc) implies exists|i: int|
        0 <= i < bound_of(config).len()
            && #[trigger] bound_of(config)[i] == (sc, table()[m], kept(given(config, table()[m]))) by {
        let i = choose|i: int| 0 <= i < rows.len() && #[trigger] rows[i] == (sc, table()[m], kept(given(config, table()[m])));
        assert(bound_of(config)[i] == rows[i]);
    }
}

/// Every clash of a pair of entries of `h` is among the clashes of `h`.
proof fn lemma_clash_listed(s: Screen, h: Seq<(Action, Seq<Key>)>, n: int, p: int, q: int, x: Problem)
    requires
        0 <= p < n <= h.len(),
        p < q < h.len(),
        clash_of(s, h[p], h[q]).contains(x),
    ensures
        clashes_through(s, h, n).contains(x),
    decreases n,
{
    if p < n - 1 {
        lemma_clash_listed(s, h, n - 1, p, q, x);
        let ct = clashes_through(s, h, n - 1);
        let w = choose|w: int| 0 <= w < ct.len() && ct[w] == x;
        assert(clashes_through(s, h, n)[w] == x);
    } else {
        lemma_clash_listed_after(s, h, p, h.len() as int, q, x);
        let rest = clashes_after(s, h, p, h.len() as int);
        let w = choose|w: int| 0 <= w < rest.len() && rest[w] == x;
        let before = clashes_through(s, h, n - 1);
        assert(clashes_through(s, h, n)[before.len() + w] == x);
    }
}

proof fn lemma_clash_listed_after(s: Screen, h: Seq<(Action, Seq<Key>)>, p: int, m: int, q: int, x: Problem)
    requires
        p < q < m,
        clash_of(s, h[p], h[q]).contains(x),
    ensures
        clashes_after(s, h, p, m).contains(x),
    decreases m - p,
{
    if q < m - 1 {
        lemma_clash_listed_after(s, h, p, m - 1, q, x);
        let ca = clashes_after(s, h, p, m - 1);
        let w = choose|w: int| 0 <= w < ca.len() && ca[w] == x;
        assert(clashes_after(s, h, p, m)[w] == x);
    } else {
        let before = clashes_after(s, h, p, m - 1);
        let co = clash_of(s, h[p], h[q]);
        let w = choose|w: int| 0 <= w < co.len() && co[w] == x;
        assert(clashes_after(s, h, p, m)[before.len() + w] == x);
    }
}

/// A key of one action that starts a key of another in the same screen is a
/// clash the reader is told of, whichever comes first in the table: when
/// the first key is a proper start of the second, the clash names it first
/// (it is the one that makes the longer unpressable); when the two keys are
/// the same, the clash names both actions, in some order. Either way the
/// keymap is refused.
pub proof fn lemma_a_key_that_starts_another_is_reported(config: Seq<Override>, i: int, a: int, j: int, b: int)
    requires
        0 <= i < bound_of(config).len(),
        0 <= j < bound_of(config).len(),
        bound_of(config)[i].0 == bound_of(config)[j].0,
        bound_of(config)[i].1 != bound_of(config)[j].1,
        0 <= a < bound_of(config)[i].2.len(),
        0 <= b < bound_of(config)[j].2.len(),
        starts(bound_of(config)[j].2[b], bound_of(config)[i].2[a]),
    ensures
        ({
            let rows = bound_of(config);
            let (s, x, kx) = (rows[i].0, rows[i].1, rows[i].2[a]);
            let (y, ky) = (rows[j].1, rows[j].2[b]);
            &&& kx.len() < ky.len() ==> problems_of(config).contains(
                Problem::Clash { screen: s, first: x, first_key: kx, second: y, second_key: ky })
            &&& kx == ky ==> (problems_of(config).contains(
                    Problem::Clash { screen: s, first: x, first_key: kx, second: y, second_key: ky })
                || problems_of(config).contains(
                    Problem::Clash { screen: s, first: y, first_key: ky, second: x, second_key: kx }))
            &&& problems_of(config).len() > 0
        }),
{
    let rows = bound_of(config);
    let s = rows[i].0;
    let (x, kx) = (rows[i].1, rows[i].2[a]);
    let (y, ky) = (rows[j].1, rows[j].2[b]);
    let h = here(rows, s);
    lemma_in_here(rows, s, i, a);
    lemma_in_here(rows, s, j, b);
    let p = choose|p: int| 0 <= p < h.len() && h[p] == (x, kx);
    let q = choose|q: int| 0 <= q < h.len() && h[q] == (y, ky);
    assert(p != q);
    let c = if p < q {
        if starts(ky, kx) {
            Problem::Clash { screen: s, first: x, first_key: kx, second: y, second_key: ky }
        } else {
            Problem::Clash { screen: s, first: y, first_key: ky, second: x, second_key: kx }
        }
    } else {
        if starts(kx, ky) {
            Problem::Clash { screen: s, first: y, first_key: ky, second: x, second_key: kx }
        } else {
            Problem::Clash { screen: s, first: x, first_key: kx, second: y, second_key: ky }
        }
    };
    if kx.len() < ky.len() {
        assert(!starts(kx, ky));
    }
    if kx == ky {
        assert(ky.take(ky.len() as int) =~= ky);
    }
    if p < q {
        assert(clash_of(s, h[p], h[q]) == seq![c]);
        assert(clash_of(s, h[p], h[q])[0] == c);
        lemma_clash_listed(s, h, h.len() as int, p, q, c);
    } else {
        assert(clash_of(s, h[q], h[p]) == seq![c]);
        assert(clash_of(s, h[q], h[p])[0] == c);
        lemma_clash_listed(s, h, h.len() as int, q, p, c);
    }
    let listed = clashes_in(rows, s);
    let w = choose|w: int| 0 <= w < listed.len() && listed[w] == c;
    let own = once(problems_through(config, table().len() as int));
    let r = clashes_in(rows, Screen::Review);
    let f = clashes_in(rows, Screen::FileList);
    let d = clashes_in(rows, Screen::Findings);
    assert(problems_of(config) == own + r + f + d);
    match s {
        Screen::Review => {
            assert(problems_of(config)[own.len() + w] == c);
        },
        Screen::FileList => {
            assert(problems_of(config)[own.len() + r.len() + w] == c);
        },
        Screen::Findings => {
            assert(problems_of(config)[own.len() + r.len() + f.len() + w] == c);
        },
    }
}

} // verus!
