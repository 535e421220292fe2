//! One table of keys, read twice: by the footer and by `?`. A place is a list
//! of rows; a row names actions, and its keys are read from the keymap, so a
//! row cannot name one key and press another, and a key the reader rebound
//! is the key the row names.
use vstd::prelude::*;

use crate::help::{opt_text, Act, Area};
use crate::keymap::{bindings_of, binding_text, join_texts, key_column, Action, Keymap, Screen};
use crate::keys::{Code, Key, ViewMode};
use crate::search::Reading;
use crate::strings::push_text;

verus! {

/// A row of keys as values: every key, the first keys, what a click
/// presses, the footer's words if the footer shows it, and the help's words.
pub type ActView = (Seq<char>, Seq<char>, Seq<Key>, Option<Seq<char>>, Seq<char>);

/// A row as values.
pub open spec fn act_view(a: Act<Key>) -> ActView {
    (a.key@, a.short@, a.presses@, opt_text(a.footer), a.help@)
}

/// The rows that are there, in order.
pub open spec fn present(rows: Seq<Option<ActView>>) -> Seq<ActView>
    decreases rows.len(),
{
    if rows.len() == 0 {
        Seq::empty()
    } else {
        let rest = present(rows.drop_last());
        match rows.last() {
            Some(a) => rest.push(a),
            None => rest,
        }
    }
}

/// A row of `actions` in screen `s`, on the footer as `short` when that is
/// given; none when every one of them is unbound.
pub open spec fn row(
    km: Seq<(Screen, Action, Seq<Seq<Key>>)>,
    s: Screen,
    actions: Seq<Action>,
    short: Option<Seq<char>>,
    help: Seq<char>,
) -> Option<ActView> {
    match key_column(km, s, actions) {
        Some((full, first, presses)) => Some((full, first, presses, short, help)),
        None => None,
    }
}

/// A row of keys that are not the reader's to bind.
pub open spec fn fixed(text: Seq<char>, presses: Seq<Key>, short: Option<Seq<char>>, help: Seq<char>) -> Option<ActView> {
    Some((text, text, presses, short, help))
}

/// The first key of `a` in `s`, written out, if it has one.
pub open spec fn first_text(km: Seq<(Screen, Action, Seq<Seq<Key>>)>, s: Screen, a: Action) -> Option<Seq<char>> {
    let b = bindings_of(km, s, a);
    if b.len() > 0 { Some(binding_text(b[0])) } else { None }
}

/// The help of the key that closes a list: `q` closes it too, and so does
/// the key that opened it.
pub open spec fn close_help(opener: Option<Seq<char>>) -> Seq<char> {
    match opener {
        Some(f) => "close the list · so do q and "@ + f,
        None => "close the list · so does q"@,
    }
}

/// The row a thread that is not the reader's gives the keys that would
/// change it: they do nothing here, named together so a reader who reaches
/// for either finds out why.
pub open spec fn not_yours(km: Seq<(Screen, Action, Seq<Seq<Key>>)>, s: Screen) -> Option<ActView> {
    let named = (match first_text(km, s, Action::Comment) { Some(t) => seq![t], None => Seq::empty() })
        + (match first_text(km, s, Action::Delete) { Some(t) => seq![t], None => Seq::empty() });
    let help = match first_text(km, s, Action::Reply) {
        Some(r) => "not yours — "@ + r + " replies to it"@,
        None => "not yours"@,
    };
    if named.len() > 0 {
        fixed(join_texts(named, " · "@), Seq::empty(), None, help)
    } else {
        None
    }
}

/// A bare named key.
pub open spec fn bare(code: Code) -> Key {
    Key { code, ctrl: false, shift: false, alt: false }
}

/// The keys of a place are read from this screen's bindings.
pub open spec fn screen_of(area: Area) -> Screen {
    match area {
        Area::FileList => Screen::FileList,
        Area::Findings => Screen::Findings,
        _ => Screen::Review,
    }
}

type Rows = Seq<(Screen, Action, Seq<Seq<Key>>)>;

/// The plan pane's rows. A label says what the key will do, not which view
/// is already on.
pub open spec fn plan_rows(km: Rows, view: ViewMode) -> Seq<Option<ActView>> {
    let s = Screen::Review;
    seq![
        row(km, s, seq![Action::Open], Some("open"@), "open the group or file in the diff pane"@),
        row(km, s, seq![Action::ToggleReviewed], Some("reviewed"@), "mark the whole group or file reviewed"@),
        match view {
            ViewMode::Files => row(km, s, seq![Action::Files], Some("plan"@), "back to the reading plan"@),
            ViewMode::Groups => row(km, s, seq![Action::Files], Some("tree"@), "the file tree instead of the plan"@),
        },
        row(km, s, seq![Action::Fold], None, "unfold a skim remainder, a noise group or a directory"@),
    ]
}

/// The diff pane's rows.
pub open spec fn diff_rows(km: Rows) -> Seq<Option<ActView>> {
    let s = Screen::Review;
    seq![
        row(km, s, seq![Action::Comment], Some("note"@), "write a finding on this line, or on the hunk"@),
        row(km, s, seq![Action::ToggleReviewed], Some("reviewed"@), "mark this hunk's class reviewed"@),
        row(km, s, seq![Action::Select], Some("select"@), "start a line selection here"@),
        row(km, s, seq![Action::Delete], None, "delete the finding under the cursor"@),
        row(km, s, seq![Action::Fold], None,
            "on a symbol: what declares it · on a boundary: more of the file, or the hunk it names"@),
        row(km, s, seq![Action::Files], None, match first_text(km, Screen::FileList, Action::Open) {
            Some(k) => "the file list ("@ + k + " jumps)"@,
            None => "the file list"@,
        }),
    ]
}

/// The rows while the symbol float is open.
pub open spec fn peeking_rows(km: Rows) -> Seq<Option<ActView>> {
    let s = Screen::Review;
    seq![
        row(km, s, seq![Action::Fold], Some("next"@), "the next symbol on this line"@),
        row(km, s, seq![Action::Close], Some("close"@), "close the float"@),
        row(km, s, seq![Action::Down, Action::Up], None, "move on — the float closes with the cursor"@),
    ]
}

/// The rows while a line selection is open.
pub open spec fn selecting_rows(km: Rows) -> Seq<Option<ActView>> {
    let s = Screen::Review;
    seq![
        row(km, s, seq![Action::Down, Action::Up], Some("extend"@), "extend the selection, up to a context boundary"@),
        row(km, s, seq![Action::Comment], Some("note"@), "write one finding over the selected lines"@),
        row(km, s, seq![Action::Close], Some("drop"@), "drop the selection"@),
        row(km, s, seq![Action::Select], None, "drops it too"@),
    ]
}

/// The rows on a thread the forge holds: what the reader may do to it
/// depends on whether the comment under the cursor is theirs.
pub open spec fn thread_rows(km: Rows, own: bool, resolved: bool) -> Seq<Option<ActView>> {
    let s = Screen::Review;
    seq![
        row(km, s, seq![Action::Reply], Some("reply"@), "draft a reply under this thread"@),
        if resolved {
            row(km, s, seq![Action::Resolve], Some("reopen"@), "reopen the thread on the forge, at once"@)
        } else {
            row(km, s, seq![Action::Resolve], Some("resolve"@), "resolve the thread on the forge, at once"@)
        },
    ] + (if own {
        seq![
            row(km, s, seq![Action::Comment], Some("edit"@), "rewrite your comment on the forge"@),
            row(km, s, seq![Action::Delete], Some("delete"@), "delete it there and here (asks first)"@),
        ]
    } else {
        seq![not_yours(km, s)]
    }) + seq![row(km, s, seq![Action::Fold], None, "open or close a resolved thread"@)]
}

/// The file list's rows.
pub open spec fn file_list_rows(km: Rows) -> Seq<Option<ActView>> {
    let s = Screen::FileList;
    seq![
        row(km, s, seq![Action::Open], Some("jump"@), "jump to the file"@),
        row(km, s, seq![Action::Close], Some("close"@), close_help(first_text(km, s, Action::Files))),
        row(km, s, seq![Action::Down, Action::Up], None, "move over the files"@),
    ]
}

/// The search box's rows: its keys are fixed, since every printable key
/// types into the query.
pub open spec fn search_rows(reading: Reading) -> Seq<Option<ActView>> {
    let ctrl_r = Key { code: Code::Char('r'), ctrl: true, shift: false, alt: false };
    seq![
        fixed("enter"@, seq![bare(Code::Enter)], Some("open"@), "jump to the occurrence"@),
        match reading {
            Reading::Literal => fixed("ctrl-r"@, seq![ctrl_r], Some("regexp"@), "read the query as a regular expression"@),
            Reading::Regexp => fixed("ctrl-r"@, seq![ctrl_r], Some("literal"@), "read the query as a literal again"@),
        },
        fixed("esc"@, seq![bare(Code::Esc)], Some("close"@), "close the search"@),
    ]
}

/// The findings list's rows.
pub open spec fn findings_rows(km: Rows) -> Seq<Option<ActView>> {
    let s = Screen::Findings;
    seq![
        row(km, s, seq![Action::Open], Some("jump"@), "jump to the note or thread"@),
        row(km, s, seq![Action::Delete], Some("delete"@), "delete the selected note"@),
        row(km, s, seq![Action::ClearNotes], Some("clear local"@), "clear the notes not on the request (asks first)"@),
        row(km, s, seq![Action::Copy], Some("copy"@), "copy the open findings"@),
        row(km, s, seq![Action::Publish], Some("publish"@), "publish the open findings (asks first)"@),
        row(km, s, seq![Action::Close], Some("close"@), close_help(first_text(km, s, Action::Findings))),
        row(km, s, seq![Action::Down, Action::Up], None, "move over the list"@),
    ]
}

/// The rows of the places whose keys are fixed: the composer, a question,
/// and help and a notice.
pub open spec fn fixed_rows(area: Area) -> Seq<Option<ActView>> {
    match area {
        Area::Composer => seq![
            fixed("enter · ctrl-s"@, Seq::empty(), None, "save the finding"@),
            fixed("shift+enter"@, Seq::empty(), None, "a new line · or a trailing \\ before enter"@),
            fixed("esc"@, Seq::empty(), None, "discard it"@),
        ],
        Area::Question => seq![
            fixed("y"@, Seq::empty(), None, "yes, and only y does"@),
            fixed("any other key"@, Seq::empty(), None, "no — nothing happens"@),
        ],
        _ => seq![fixed("any key"@, Seq::empty(), None, "close this"@)],
    }
}

/// The rows of a place, before the missing ones drop out.
pub open spec fn area_rows(km: Rows, area: Area, view: ViewMode, reading: Reading) -> Seq<Option<ActView>> {
    match area {
        Area::Plan => plan_rows(km, view),
        Area::Diff => diff_rows(km),
        Area::Peeking => peeking_rows(km),
        Area::Selecting => selecting_rows(km),
        Area::Thread { own, resolved } => thread_rows(km, own, resolved),
        Area::FileList => file_list_rows(km),
        Area::Search => search_rows(reading),
        Area::Findings => findings_rows(km),
        _ => fixed_rows(area),
    }
}

/// The text of a literal, as a `String`.
fn text_of(t: &str) -> (r: String)
    ensures
        r@ == t@,
{
    let mut out = String::new();
    push_text(&mut out, t);
    out
}

/// One action, as a list.
fn acts1(a: Action) -> (v: Vec<Action>)
    ensures
        v@ == seq![a],
{
    let v = vec![a];
    assert(v@ =~= seq![a]);
    v
}

/// Two actions read as one row, as a list.
fn acts2(a: Action, b: Action) -> (v: Vec<Action>)
    ensures
        v@ == seq![a, b],
{
    let v = vec![a, b];
    assert(v@ =~= seq![a, b]);
    v
}

/// One press, as a list.
fn press1(k: Key) -> (v: Vec<Key>)
    ensures
        v@ == seq![k],
{
    let v = vec![k];
    assert(v@ =~= seq![k]);
    v
}

/// A row of `actions` in screen `s`, on the footer as `short`.
fn on_row(km: &Keymap, s: Screen, actions: Vec<Action>, short: &str, help: String) -> (r: Option<Act<Key>>)
    ensures
        opt_act_view(r) == row(km@, s, actions@, Some(short@), help@),
{
    match km.keys(s, actions.as_slice()) {
        Some((full, first, presses)) => Some(Act { key: full, short: first, presses, footer: Some(text_of(short)), help }),
        None => None,
    }
}

/// A row of `actions` in screen `s`, in help only.
fn quiet_row(km: &Keymap, s: Screen, actions: Vec<Action>, help: String) -> (r: Option<Act<Key>>)
    ensures
        opt_act_view(r) == row(km@, s, actions@, None, help@),
{
    match km.keys(s, actions.as_slice()) {
        Some((full, first, presses)) => Some(Act { key: full, short: first, presses, footer: None, help }),
        None => None,
    }
}

/// A row of keys that are not the reader's to bind.
fn fixed_row(text: &str, presses: Vec<Key>, short: Option<&str>, help: &str) -> (r: Option<Act<Key>>)
    ensures
        match r {
            Some(a) => fixed(text@, presses@, match short { Some(w) => Some(w@), None => None }, help@) == Some(act_view(a)),
            None => false,
        },
{
    Some(Act {
        key: text_of(text),
        short: text_of(text),
        presses,
        footer: match short {
            Some(w) => Some(text_of(w)),
            None => None,
        },
        help: text_of(help),
    })
}

/// The first key of `a` in `s`, written out.
fn first_key_text(km: &Keymap, s: Screen, a: Action) -> (r: Option<String>)
    ensures
        match r {
            Some(t) => first_text(km@, s, a) == Some(t@),
            None => first_text(km@, s, a) is None,
        },
{
    match km.first(s, a) {
        Some(b) => Some(b.text()),
        None => None,
    }
}

/// The help of the key that closes a list.
fn close_words(opener: Option<String>) -> (r: String)
    ensures
        r@ == close_help(match opener { Some(t) => Some(t@), None => None }),
{
    match opener {
        Some(f) => {
            let mut out = text_of("close the list · so do q and ");
            push_text(&mut out, f.as_str());
            out
        },
        None => text_of("close the list · so does q"),
    }
}

/// The row for the keys that do nothing on somebody else's thread.
fn not_yours_row(km: &Keymap, s: Screen) -> (r: Option<Act<Key>>)
    ensures
        match r {
            Some(a) => not_yours(km@, s) == Some(act_view(a)),
            None => not_yours(km@, s) is None,
        },
{
    let c = first_key_text(km, s, Action::Comment);
    let d = first_key_text(km, s, Action::Delete);
    let r = first_key_text(km, s, Action::Reply);
    let help = match r {
        Some(k) => {
            let mut out = text_of("not yours — ");
            push_text(&mut out, k.as_str());
            push_text(&mut out, " replies to it");
            out
        },
        None => text_of("not yours"),
    };
    let ghost cn: Seq<Seq<char>> = match first_text(km@, s, Action::Comment) { Some(t) => seq![t], None => Seq::empty() };
    let ghost dn: Seq<Seq<char>> = match first_text(km@, s, Action::Delete) { Some(t) => seq![t], None => Seq::empty() };
    let named: String = match (c, d) {
        (Some(x), Some(y)) => {
            let mut out = x;
            push_text(&mut out, " · ");
            push_text(&mut out, y.as_str());
            assert(cn + dn =~= seq![cn[0], dn[0]]);
            assert(seq![cn[0], dn[0]].drop_last() =~= seq![cn[0]]);
            assert(join_texts(seq![cn[0]], " · "@) == cn[0]);
            assert(join_texts(seq![cn[0], dn[0]], " · "@) == cn[0] + " · "@ + dn[0]);
            out
        },
        (Some(x), None) => {
            assert(cn + dn =~= seq![cn[0]]);
            x
        },
        (None, Some(y)) => {
            assert(cn + dn =~= seq![dn[0]]);
            y
        },
        (None, None) => {
            assert(cn + dn =~= Seq::<Seq<char>>::empty());
            return None;
        },
    };
    let ghost help_words = match first_text(km@, s, Action::Reply) {
        Some(k) => "not yours — "@ + k + " replies to it"@,
        None => "not yours"@,
    };
    assert(help@ == help_words);
    assert(named@ == join_texts(cn + dn, " · "@));
    let none: Vec<Key> = Vec::new();
    assert(none@ =~= Seq::<Key>::empty());
    Some(Act { key: text_of(named.as_str()), short: named, presses: none, footer: None, help })
}

/// The rows that are there, in order.
fn keep_present(rows: Vec<Option<Act<Key>>>) -> (r: Vec<Act<Key>>)
    ensures
        r@.map_values(|a: Act<Key>| act_view(a)) == present(rows@.map_values(|o: Option<Act<Key>>| opt_act_view(o))),
{
    let ghost rv = rows@.map_values(|o: Option<Act<Key>>| opt_act_view(o));
    let mut rows = rows;
    let mut out: Vec<Act<Key>> = Vec::new();
    let ghost mut k: int = 0;
    assert(rv.skip(0) =~= rv);
    while rows.len() > 0
        invariant
            0 <= k <= rv.len(),
            rows@.len() == rv.len() - k,
            rows@.map_values(|o: Option<Act<Key>>| opt_act_view(o)) == rv.skip(k),
            out@.map_values(|a: Act<Key>| act_view(a)) == present(rv.take(k)),
        decreases rows@.len(),
    {
        let ghost pre = out@.map_values(|a: Act<Key>| act_view(a));
        let ghost before = rows@;
        let o = rows.remove(0);
        proof {
            assert(before.map_values(|o: Option<Act<Key>>| opt_act_view(o))[0] == opt_act_view(o));
            assert(rv.skip(k)[0] == rv[k]);
            assert(rv[k] == opt_act_view(o));
            assert(rows@ =~= before.subrange(1, before.len() as int));
            let now = rows@.map_values(|o: Option<Act<Key>>| opt_act_view(o));
            assert forall|q: int| 0 <= q < rows@.len() implies #[trigger] now[q] == rv.skip(k + 1)[q] by {
                assert(rows@[q] == before[q + 1]);
                assert(before.map_values(|o: Option<Act<Key>>| opt_act_view(o))[q + 1] == rv.skip(k)[q + 1]);
            }
            assert(rows@.map_values(|o: Option<Act<Key>>| opt_act_view(o)) =~= rv.skip(k + 1));
            assert(rv.take(k + 1).drop_last() =~= rv.take(k));
            assert(rv.take(k + 1).last() == rv[k]);
        }
        match o {
            Some(a) => {
                out.push(a);
                assert(out@.map_values(|a: Act<Key>| act_view(a)) =~= pre.push(act_view(a)));
            },
            None => {},
        }
        proof {
            k = k + 1;
        }
    }
    assert(rv.take(k) =~= rv);
    out
}

/// A missing row or a row, as values.
pub open spec fn opt_act_view(o: Option<Act<Key>>) -> Option<ActView> {
    match o {
        Some(a) => Some(act_view(a)),
        None => None,
    }
}

/// Rows as values.
pub open spec fn opt_views(v: Seq<Option<Act<Key>>>) -> Seq<Option<ActView>> {
    v.map_values(|o: Option<Act<Key>>| opt_act_view(o))
}

fn plan(km: &Keymap, view: ViewMode) -> (r: Vec<Option<Act<Key>>>)
    ensures
        opt_views(r@) == plan_rows(km@, view),
{
    let s = Screen::Review;
    let a = on_row(km, s, acts1(Action::Open), "open", text_of("open the group or file in the diff pane"));
    let b = on_row(km, s, acts1(Action::ToggleReviewed), "reviewed", text_of("mark the whole group or file reviewed"));
    let c = match view {
        ViewMode::Files => on_row(km, s, acts1(Action::Files), "plan", text_of("back to the reading plan")),
        ViewMode::Groups => on_row(km, s, acts1(Action::Files), "tree", text_of("the file tree instead of the plan")),
    };
    let d = quiet_row(km, s, acts1(Action::Fold), text_of("unfold a skim remainder, a noise group or a directory"));
    let mut r: Vec<Option<Act<Key>>> = Vec::new();
    r.push(a);
    r.push(b);
    r.push(c);
    r.push(d);
    assert(opt_views(r@) =~= plan_rows(km@, view));
    r
}

fn diff(km: &Keymap) -> (r: Vec<Option<Act<Key>>>)
    ensures
        opt_views(r@) == diff_rows(km@),
{
    let s = Screen::Review;
    let jumps = match first_key_text(km, Screen::FileList, Action::Open) {
        Some(k) => {
            let mut out = text_of("the file list (");
            push_text(&mut out, k.as_str());
            push_text(&mut out, " jumps)");
            out
        },
        None => text_of("the file list"),
    };
    let a = on_row(km, s, acts1(Action::Comment), "note", text_of("write a finding on this line, or on the hunk"));
    let b = on_row(km, s, acts1(Action::ToggleReviewed), "reviewed", text_of("mark this hunk's class reviewed"));
    let c = on_row(km, s, acts1(Action::Select), "select", text_of("start a line selection here"));
    let d = quiet_row(km, s, acts1(Action::Delete), text_of("delete the finding under the cursor"));
    let e = quiet_row(km, s, acts1(Action::Fold),
        text_of("on a symbol: what declares it · on a boundary: more of the file, or the hunk it names"));
    let f = quiet_row(km, s, acts1(Action::Files), jumps);
    let mut r: Vec<Option<Act<Key>>> = Vec::new();
    r.push(a);
    r.push(b);
    r.push(c);
    r.push(d);
    r.push(e);
    r.push(f);
    assert(opt_views(r@) =~= diff_rows(km@));
    r
}

fn peeking(km: &Keymap) -> (r: Vec<Option<Act<Key>>>)
    ensures
        opt_views(r@) == peeking_rows(km@),
{
    let s = Screen::Review;
    let a = on_row(km, s, acts1(Action::Fold), "next", text_of("the next symbol on this line"));
    let b = on_row(km, s, acts1(Action::Close), "close", text_of("close the float"));
    let c = quiet_row(km, s, acts2(Action::Down, Action::Up), text_of("move on — the float closes with the cursor"));
    let mut r: Vec<Option<Act<Key>>> = Vec::new();
    r.push(a);
    r.push(b);
    r.push(c);
    assert(opt_views(r@) =~= peeking_rows(km@));
    r
}

fn selecting(km: &Keymap) -> (r: Vec<Option<Act<Key>>>)
    ensures
        opt_views(r@) == selecting_rows(km@),
{
    let s = Screen::Review;
    let a = on_row(km, s, acts2(Action::Down, Action::Up), "extend", text_of("extend the selection, up to a context boundary"));
    let b = on_row(km, s, acts1(Action::Comment), "note", text_of("write one finding over the selected lines"));
    let c = on_row(km, s, acts1(Action::Close), "drop", text_of("drop the selection"));
    let d = quiet_row(km, s, acts1(Action::Select), text_of("drops it too"));
    let mut r: Vec<Option<Act<Key>>> = Vec::new();
    r.push(a);
    r.push(b);
    r.push(c);
    r.push(d);
    assert(opt_views(r@) =~= selecting_rows(km@));
    r
}

fn thread(km: &Keymap, own: bool, resolved: bool) -> (r: Vec<Option<Act<Key>>>)
    ensures
        opt_views(r@) == thread_rows(km@, own, resolved),
{
    let s = Screen::Review;
    let a = on_row(km, s, acts1(Action::Reply), "reply", text_of("draft a reply under this thread"));
    let b = if resolved {
        on_row(km, s, acts1(Action::Resolve), "reopen", text_of("reopen the thread on the forge, at once"))
    } else {
        on_row(km, s, acts1(Action::Resolve), "resolve", text_of("resolve the thread on the forge, at once"))
    };
    let z = quiet_row(km, s, acts1(Action::Fold), text_of("open or close a resolved thread"));
    if own {
        let c = on_row(km, s, acts1(Action::Comment), "edit", text_of("rewrite your comment on the forge"));
        let d = on_row(km, s, acts1(Action::Delete), "delete", text_of("delete it there and here (asks first)"));
        let mut r: Vec<Option<Act<Key>>> = Vec::new();
        r.push(a);
        r.push(b);
        r.push(c);
        r.push(d);
        r.push(z);
        assert(opt_views(r@) =~= thread_rows(km@, own, resolved));
        r
    } else {
        let c = not_yours_row(km, s);
        let mut r: Vec<Option<Act<Key>>> = Vec::new();
        r.push(a);
        r.push(b);
        r.push(c);
        r.push(z);
        assert(opt_views(r@) =~= thread_rows(km@, own, resolved));
        r
    }
}

fn file_list(km: &Keymap) -> (r: Vec<Option<Act<Key>>>)
    ensures
        opt_views(r@) == file_list_rows(km@),
{
    let s = Screen::FileList;
    let close = close_words(first_key_text(km, s, Action::Files));
    let a = on_row(km, s, acts1(Action::Open), "jump", text_of("jump to the file"));
    let b = on_row(km, s, acts1(Action::Close), "close", close);
    let c = quiet_row(km, s, acts2(Action::Down, Action::Up), text_of("move over the files"));
    let mut r: Vec<Option<Act<Key>>> = Vec::new();
    r.push(a);
    r.push(b);
    r.push(c);
    assert(opt_views(r@) =~= file_list_rows(km@));
    r
}

fn search(reading: Reading) -> (r: Vec<Option<Act<Key>>>)
    ensures
        opt_views(r@) == search_rows(reading),
{
    let ctrl_r = Key { code: Code::Char('r'), ctrl: true, shift: false, alt: false };
    let a = fixed_row("enter", press1(Key { code: Code::Enter, ctrl: false, shift: false, alt: false }), Some("open"), "jump to the occurrence");
    let b = match reading {
        Reading::Literal => fixed_row("ctrl-r", press1(ctrl_r), Some("regexp"), "read the query as a regular expression"),
        Reading::Regexp => fixed_row("ctrl-r", press1(ctrl_r), Some("literal"), "read the query as a literal again"),
    };
    let c = fixed_row("esc", press1(Key { code: Code::Esc, ctrl: false, shift: false, alt: false }), Some("close"), "close the search");
    let mut r: Vec<Option<Act<Key>>> = Vec::new();
    r.push(a);
    r.push(b);
    r.push(c);
    assert(opt_views(r@) =~= search_rows(reading));
    r
}

fn findings(km: &Keymap) -> (r: Vec<Option<Act<Key>>>)
    ensures
        opt_views(r@) == findings_rows(km@),
{
    let s = Screen::Findings;
    let close = close_words(first_key_text(km, s, Action::Findings));
    let a = on_row(km, s, acts1(Action::Open), "jump", text_of("jump to the note or thread"));
    let b = on_row(km, s, acts1(Action::Delete), "delete", text_of("delete the selected note"));
    let c = on_row(km, s, acts1(Action::ClearNotes), "clear local", text_of("clear the notes not on the request (asks first)"));
    let d = on_row(km, s, acts1(Action::Copy), "copy", text_of("copy the open findings"));
    let e = on_row(km, s, acts1(Action::Publish), "publish", text_of("publish the open findings (asks first)"));
    let f = on_row(km, s, acts1(Action::Close), "close", close);
    let g = quiet_row(km, s, acts2(Action::Down, Action::Up), text_of("move over the list"));
    let mut r: Vec<Option<Act<Key>>> = Vec::new();
    r.push(a);
    r.push(b);
    r.push(c);
    r.push(d);
    r.push(e);
    r.push(f);
    r.push(g);
    assert(opt_views(r@) =~= findings_rows(km@));
    r
}

fn fixed_places(area: Area) -> (r: Vec<Option<Act<Key>>>)
    ensures
        opt_views(r@) == fixed_rows(area),
{
    let r = match area {
        Area::Composer => vec![
            fixed_row("enter · ctrl-s", Vec::new(), None, "save the finding"),
            fixed_row("shift+enter", Vec::new(), None, "a new line · or a trailing \\ before enter"),
            fixed_row("esc", Vec::new(), None, "discard it"),
        ],
        Area::Question => vec![
            fixed_row("y", Vec::new(), None, "yes, and only y does"),
            fixed_row("any other key", Vec::new(), None, "no — nothing happens"),
        ],
        _ => vec![fixed_row("any key", Vec::new(), None, "close this")],
    };
    assert(opt_views(r@) =~= fixed_rows(area));
    r
}

/// The rows of a place, as the footer and `?` read them: `view` is what the
/// left pane lists, and `reading` how the search reads its query. One to
/// three of them carry footer words; the rest are for `?` alone.
pub fn acts_of(km: &Keymap, area: Area, view: ViewMode, reading: Reading) -> (r: Vec<Act<Key>>)
    ensures
        r@.map_values(|a: Act<Key>| act_view(a)) == present(area_rows(km@, area, view, reading)),
{
    let rows = match area {
        Area::Plan => plan(km, view),
        Area::Diff => diff(km),
        Area::Peeking => peeking(km),
        Area::Selecting => selecting(km),
        Area::Thread { own, resolved } => thread(km, own, resolved),
        Area::FileList => file_list(km),
        Area::Search => search(reading),
        Area::Findings => findings(km),
        _ => fixed_places(area),
    };
    keep_present(rows)
}

/// Getting about, in one place: every one of these works from either pane.
/// `j/k` is the pane's, so it says what it does in this pane; in a
/// selection it is the selection's, and stays in that place's own rows.
pub open spec fn moving_rows(km: Rows, area: Area) -> Seq<Option<ActView>> {
    let s = Screen::Review;
    seq![
        match area {
            Area::Selecting => None,
            Area::Plan => row(km, s, seq![Action::Down, Action::Up], None, "switch group"@),
            _ => row(km, s, seq![Action::Down, Action::Up], None, "move over rows"@),
        },
        row(km, s, seq![Action::NextGroup, Action::PrevGroup], None, "next / previous group"@),
        row(km, s, seq![Action::NextHunk, Action::PrevHunk], None, "next / previous hunk"@),
        row(km, s, seq![Action::HalfPageDown, Action::HalfPageUp], None, "half page"@),
        row(km, s, seq![Action::Top, Action::Bottom], None, "top / bottom"@),
        row(km, s, seq![Action::ToggleFocus], None, "switch pane focus"@),
    ]
}

/// The keys that mean the same thing wherever the reader stands in the
/// review; `?` and `q` are fixed, whatever the reader's keys say.
pub open spec fn everywhere_rows(km: Rows) -> Seq<Option<ActView>> {
    let s = Screen::Review;
    seq![
        row(km, s, seq![Action::ToggleSplit], None, "unified / split diff"@),
        row(km, s, seq![Action::ToggleWrap], None, "soft wrap long lines"@),
        row(km, s, seq![Action::ShiftLeft, Action::ShiftRight], None, "shift the diff sideways"@),
        row(km, s, seq![Action::ShiftReset], None, "back to the left edge"@),
        row(km, s, seq![Action::GrowDiff, Action::ShrinkDiff], None, "widen / narrow the diff pane"@),
        row(km, s, seq![Action::Search], None, "find a word in any changed file"@),
        row(km, s, seq![Action::Findings], None, "every finding and thread, in one list"@),
        row(km, s, seq![Action::Copy], None, "copy the open findings"@),
        row(km, s, seq![Action::Publish], None, "publish the open findings (asks first)"@),
        row(km, s, seq![Action::Refetch], None, "fetch the review threads again"@),
        fixed("?"@, seq![bare(Code::Char('?'))], None, "these keys"@),
        fixed("q · ctrl-c"@, seq![bare(Code::Char('q'))], None, "quit — state is saved on every change"@),
    ]
}

/// The moving rows of `?`, for the place it was opened over.
pub fn moving(km: &Keymap, area: Area) -> (r: Vec<Act<Key>>)
    ensures
        r@.map_values(|a: Act<Key>| act_view(a)) == present(moving_rows(km@, area)),
{
    let s = Screen::Review;
    let a = match area {
        Area::Selecting => None,
        Area::Plan => quiet_row(km, s, acts2(Action::Down, Action::Up), text_of("switch group")),
        _ => quiet_row(km, s, acts2(Action::Down, Action::Up), text_of("move over rows")),
    };
    let b = quiet_row(km, s, acts2(Action::NextGroup, Action::PrevGroup), text_of("next / previous group"));
    let c = quiet_row(km, s, acts2(Action::NextHunk, Action::PrevHunk), text_of("next / previous hunk"));
    let d = quiet_row(km, s, acts2(Action::HalfPageDown, Action::HalfPageUp), text_of("half page"));
    let e = quiet_row(km, s, acts2(Action::Top, Action::Bottom), text_of("top / bottom"));
    let f = quiet_row(km, s, acts1(Action::ToggleFocus), text_of("switch pane focus"));
    let mut r: Vec<Option<Act<Key>>> = Vec::new();
    r.push(a);
    r.push(b);
    r.push(c);
    r.push(d);
    r.push(e);
    r.push(f);
    assert(opt_views(r@) =~= moving_rows(km@, area));
    keep_present(r)
}

/// The rows of `?` that hold anywhere in the review.
pub fn everywhere(km: &Keymap) -> (r: Vec<Act<Key>>)
    ensures
        r@.map_values(|a: Act<Key>| act_view(a)) == present(everywhere_rows(km@)),
{
    let s = Screen::Review;
    let mut r: Vec<Option<Act<Key>>> = Vec::new();
    r.push(quiet_row(km, s, acts1(Action::ToggleSplit), text_of("unified / split diff")));
    r.push(quiet_row(km, s, acts1(Action::ToggleWrap), text_of("soft wrap long lines")));
    r.push(quiet_row(km, s, acts2(Action::ShiftLeft, Action::ShiftRight), text_of("shift the diff sideways")));
    r.push(quiet_row(km, s, acts1(Action::ShiftReset), text_of("back to the left edge")));
    r.push(quiet_row(km, s, acts2(Action::GrowDiff, Action::ShrinkDiff), text_of("widen / narrow the diff pane")));
    r.push(quiet_row(km, s, acts1(Action::Search), text_of("find a word in any changed file")));
    r.push(quiet_row(km, s, acts1(Action::Findings), text_of("every finding and thread, in one list")));
    r.push(quiet_row(km, s, acts1(Action::Copy), text_of("copy the open findings")));
    r.push(quiet_row(km, s, acts1(Action::Publish), text_of("publish the open findings (asks first)")));
    r.push(quiet_row(km, s, acts1(Action::Refetch), text_of("fetch the review threads again")));
    r.push(fixed_row("?", press1(Key { code: Code::Char('?'), ctrl: false, shift: false, alt: false }), None, "these keys"));
    r.push(fixed_row("q · ctrl-c", press1(Key { code: Code::Char('q'), ctrl: false, shift: false, alt: false }), None,
        "quit — state is saved on every change"));
    assert(opt_views(r@) =~= everywhere_rows(km@));
    keep_present(r)
}

} // verus!
