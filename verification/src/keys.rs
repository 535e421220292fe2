//! What a key or a pointer event does: one step from the review's state and
//! the event to the next state and the actions the app then carries out.
//!
//! The decisions are all here; the work they name — reading the session,
//! moving through the document, talking to the forge, the text box's own
//! editing — is the app's, so an action names it rather than doing it.
use vstd::prelude::*;

use crate::text::{
    drawn_line, file_list_rows, findings_entry_at_line, findings_rows, findings_skip, rules_at_or_before,
    findings_step, follow_lines, spec_file_list_rows, spec_findings_follow, spec_findings_rows, spec_follow, step_list,
    stepped,
};

verus! {

/// A key, as the terminal reports it.
#[derive(Debug, Clone, Copy, PartialEq, Eq, Structural)]
pub enum Code {
    Char(char),
    Enter,
    Esc,
    Tab,
    Up,
    Down,
    Left,
    Right,
    /// Any other key: nothing here binds it.
    Other,
}

/// A key press: the key, and the modifiers held with it.
#[derive(Debug, Clone, Copy, PartialEq, Eq, Structural)]
pub struct Key {
    pub code: Code,
    pub ctrl: bool,
    pub shift: bool,
    pub alt: bool,
}

/// Which pane has the keys.
#[derive(Debug, Clone, Copy, PartialEq, Eq, Structural)]
pub enum Focus {
    /// The left pane: the reading plan, or the file tree.
    Groups,
    /// The diff pane.
    Detail,
}

/// What the left pane lists.
#[derive(Debug, Clone, Copy, PartialEq, Eq, Structural)]
pub enum ViewMode {
    /// The reading plan's groups.
    Groups,
    /// The file tree.
    Files,
}

/// What the row under the cursor is, as far as a key asks.
#[derive(Debug, Clone, Copy, PartialEq, Eq, Structural)]
pub struct Here {
    /// A boundary of a hunk's context, which `z` pulls open.
    pub context_edge: bool,
    /// A review thread the forge holds.
    pub thread: bool,
    /// That thread is resolved, so `z` opens and closes it.
    pub resolved: bool,
    /// A comment of the reader's own on the forge.
    pub own_comment: bool,
    /// A code row with a symbol `z` can show the declaration of.
    pub peekable: bool,
    /// A row that stands for a line of a file.
    pub has_line: bool,
    /// The cursor is inside a hunk, so a finding has something to annotate.
    pub in_hunk: bool,
}

/// The footer's passing message: what the last key did, when it said so.
#[derive(Debug, Clone, Copy, PartialEq, Eq, Structural)]
pub enum Status {
    /// Nothing to say.
    Clear,
    NothingDeleted,
    NothingPublished,
    NothingLocal,
    NotYours,
    FindingDiscarded,
    MoveOntoALine,
    MoveOntoAHunk,
    RepliesNeedAThread,
    WrapIsOn,
}

impl Status {
    /// The words the footer shows.
    pub fn text(self) -> (r: &'static str)
        ensures
            r@ == spec_status_text(self),
    {
        match self {
            Status::Clear => "",
            Status::NothingDeleted => "nothing deleted",
            Status::NothingPublished => "nothing published",
            Status::NothingLocal => "nothing local to delete · dd deletes a published note on the forge",
            Status::NotYours => "not your comment · r replies · x resolves",
            Status::FindingDiscarded => "finding discarded",
            Status::MoveOntoALine => "move onto a line first",
            Status::MoveOntoAHunk => "move onto a hunk first",
            Status::RepliesNeedAThread => "r replies to a review thread",
            Status::WrapIsOn => "soft wrap is on · w turns it off",
        }
    }
}

/// The words the footer shows for a message.
pub open spec fn spec_status_text(s: Status) -> Seq<char> {
    match s {
        Status::Clear => ""@,
        Status::NothingDeleted => "nothing deleted"@,
        Status::NothingPublished => "nothing published"@,
        Status::NothingLocal => "nothing local to delete · dd deletes a published note on the forge"@,
        Status::NotYours => "not your comment · r replies · x resolves"@,
        Status::FindingDiscarded => "finding discarded"@,
        Status::MoveOntoALine => "move onto a line first"@,
        Status::MoveOntoAHunk => "move onto a hunk first"@,
        Status::RepliesNeedAThread => "r replies to a review thread"@,
        Status::WrapIsOn => "soft wrap is on · w turns it off"@,
    }
}

/// A place `?` opens help over, kept to go back to.
#[derive(Debug, Clone, Copy, PartialEq, Eq, Structural)]
pub enum Back {
    Normal,
    FileList { len: usize, selected: usize, scroll: usize },
    Findings { len: usize, rules: usize, selected: usize, scroll: usize, local: bool },
}

/// Where the keys go.
#[derive(Debug, Clone, Copy, PartialEq, Eq, Structural)]
pub enum Mode {
    /// The review itself.
    Normal,
    /// The keys of the place `?` was pressed in; any key goes back there.
    Help { from: Back },
    /// A message in a box; any key closes it.
    Notice,
    /// The file list over the diff pane.
    FileList { len: usize, selected: usize, scroll: usize },
    /// The findings list: `len` entries under `rules` section rules; `local`
    /// when one of them is a note not yet on the request; `confirming` while
    /// `D` waits for its answer.
    Findings { len: usize, rules: usize, selected: usize, scroll: usize, confirming: bool, local: bool },
    /// Asking whether to delete the reader's comment on the forge.
    DeleteComment,
    /// Asking whether to publish the open findings.
    Publish,
    /// Writing a finding. `after_backslash` when the character before the
    /// box's caret is a `\`, which the app keeps current as the box changes.
    Editing { after_backslash: bool },
}

/// The review's state, as the keys read and change it.
#[derive(Debug, Clone, Copy, PartialEq, Eq)]
pub struct Review {
    pub mode: Mode,
    pub focus: Focus,
    pub view: ViewMode,
    /// A first `d` is waiting for its second.
    pub pending_d: bool,
    /// The symbol float is open.
    pub peek_open: bool,
    /// Where a line selection started, while one is open.
    pub visual: Option<usize>,
    /// The diff row the cursor is on.
    pub cursor: usize,
    /// What that row is.
    pub here: Here,
    pub status: Status,
    /// Lines of the body the lists are drawn in.
    pub body_rows: usize,
}

/// What the app carries out after a key.
#[derive(Debug, Clone, Copy, PartialEq, Eq)]
pub enum Action {
    /// Save where the reader is and quit.
    Quit,
    CopySummary,
    JumpToListedFile,
    JumpToListedFinding,
    /// Delete every local note.
    ClearFindings,
    /// `dd` on the findings list's entry: delete it, or ask about the
    /// reader's comment on the forge, or say it is somebody else's.
    DeleteListed(usize),
    OfferPublish,
    StartPublish,
    StartDeleteComment,
    /// A newline in the box.
    InsertNewline,
    /// The `\` before the caret, made a newline.
    BackslashToNewline,
    /// Save what the box holds.
    SaveDraft,
    /// Hand the key to the box.
    TypeKey,
    EnterPlanEntry,
    NextEntry,
    PrevEntry,
    MoveCursor(isize),
    HalfPage(isize),
    Top,
    Bottom,
    ExpandAtCursor,
    ToggleThreadExpanded,
    ToggleDir,
    StepPeek,
    ToggleGroupFold,
    JumpHunk(isize),
    ToggleSplit,
    ToggleWrap,
    /// Shift the diff sideways by this many columns, or back to its left edge.
    ShiftPane(Option<isize>),
    OpenFindings,
    ToggleFileView,
    OpenFileList,
    ToggleReviewed,
    /// Open the box on the reader's own comment under the cursor.
    EditOwnComment,
    /// Open the box for a finding on the hunk, or the selection, under the
    /// cursor.
    OpenComposer,
    DeleteFindingAtCursor,
    /// Open the box for a reply to the thread under the cursor.
    Reply,
    ToggleThreadResolved,
    StartFetch,
    /// The wheel on the plan: move the selection by this many entries.
    StepEntry(isize),
    /// A click on this content line of the plan: select the entry drawn
    /// there, or open it when it is already selected.
    ClickPlanLine(usize),
    /// A click on this content line of the diff: the cursor goes to the row
    /// drawn there, when it is one the cursor can stand on.
    ClickDetailLine(usize),
}

/// Columns one sideways press moves: one indent step.
pub const SHIFT_STEP: isize = 8;

/// No modifier held.
pub open spec fn plain(k: Key) -> bool {
    !k.ctrl && !k.shift && !k.alt
}

/// The control key, and only it, held.
pub open spec fn ctrl_only(k: Key) -> bool {
    k.ctrl && !k.shift && !k.alt
}

/// `ctrl-c`: the key that quits from everywhere.
pub open spec fn is_quit(k: Key) -> bool {
    k.code == Code::Char('c') && k.ctrl
}

/// A bare `y`, and nothing else: the only yes a question takes.
pub open spec fn is_yes(k: Key) -> bool {
    k.code == Code::Char('y') && plain(k)
}

/// `ctrl-c`, as a key.
pub fn ctrl_c() -> (k: Key)
    ensures
        is_quit(k),
{
    Key { code: Code::Char('c'), ctrl: true, shift: false, alt: false }
}

/// Whether `?` is help's key in this mode. In the composer it is a
/// character, and in a question every key but `y` is the answer no.
pub open spec fn spec_help_opens(mode: Mode) -> bool {
    match mode {
        Mode::Normal => true,
        Mode::FileList { .. } => true,
        Mode::Findings { confirming, .. } => !confirming,
        _ => false,
    }
}

/// The place help keeps for a mode it opens over.
pub open spec fn place_of(mode: Mode) -> Back {
    match mode {
        Mode::FileList { len, selected, scroll } => Back::FileList { len, selected, scroll },
        Mode::Findings { len, rules, selected, scroll, local, .. } => Back::Findings { len, rules, selected, scroll, local },
        _ => Back::Normal,
    }
}

/// The mode a kept place stands for.
pub open spec fn back_to(b: Back) -> Mode {
    match b {
        Back::Normal => Mode::Normal,
        Back::FileList { len, selected, scroll } => Mode::FileList { len, selected, scroll },
        Back::Findings { len, rules, selected, scroll, local } =>
            Mode::Findings { len, rules, selected, scroll, confirming: false, local },
    }
}

/// The state with another mode.
pub open spec fn in_mode(s: Review, mode: Mode) -> Review {
    Review { mode, ..s }
}

/// The state with another message.
pub open spec fn saying(s: Review, status: Status) -> Review {
    Review { status, ..s }
}

/// One key on the file list.
pub open spec fn file_list_key(s: Review, k: Key, len: usize, selected: usize, scroll: usize) -> (Review, Seq<Action>) {
    let rows = spec_file_list_rows(len as int, s.body_rows as int);
    if k.code == Code::Char('j') || k.code == Code::Down {
        let sel = stepped(selected as int, len as int, true) as usize;
        (in_mode(s, Mode::FileList { len, selected: sel, scroll: spec_follow(sel as int, scroll as int, rows) as usize }), Seq::empty())
    } else if k.code == Code::Char('k') || k.code == Code::Up {
        let sel = stepped(selected as int, len as int, false) as usize;
        (in_mode(s, Mode::FileList { len, selected: sel, scroll: spec_follow(sel as int, scroll as int, rows) as usize }), Seq::empty())
    } else if k.code == Code::Enter {
        (s, seq![Action::JumpToListedFile])
    } else if k.code == Code::Esc || k.code == Code::Char('f') || k.code == Code::Char('q') {
        (in_mode(s, Mode::Normal), Seq::empty())
    } else {
        (s, Seq::empty())
    }
}

/// The scroll a findings list moves to when its selection steps to `sel`:
/// the first start from `min(scroll, sel)` whose lines down to the selection,
/// the section rules drawn between included, fit in its box.
pub open spec fn findings_scroll(sel: usize, scroll: usize, rows: int, rules: Seq<usize>) -> usize {
    spec_findings_follow(sel as int, if scroll < sel { scroll as int } else { sel as int }, rows, rules) as usize
}

/// One key on the findings list. `pending` says a first `d` came before it.
pub open spec fn findings_key(
    s: Review,
    k: Key,
    pending: bool,
    rule_at: Seq<usize>,
    len: usize,
    rules: usize,
    selected: usize,
    scroll: usize,
    confirming: bool,
    local: bool,
) -> (Review, Seq<Action>) {
    let list = |sel: usize, scr: usize, conf: bool| Mode::Findings { len, rules, selected: sel, scroll: scr, confirming: conf, local };
    if confirming {
        if is_yes(k) {
            (in_mode(s, list(selected, scroll, false)), seq![Action::ClearFindings])
        } else {
            (saying(in_mode(s, list(selected, scroll, false)), Status::NothingDeleted), Seq::empty())
        }
    } else {
        let rows = spec_findings_rows(len as int, rules as int, s.body_rows as int);
        if k.code == Code::Char('j') || k.code == Code::Down {
            let sel = stepped(selected as int, len as int, true) as usize;
            (in_mode(s, list(sel, findings_scroll(sel, scroll, rows, rule_at), false)), Seq::empty())
        } else if k.code == Code::Char('k') || k.code == Code::Up {
            let sel = stepped(selected as int, len as int, false) as usize;
            (in_mode(s, list(sel, findings_scroll(sel, scroll, rows, rule_at), false)), Seq::empty())
        } else if k.code == Code::Char('D') {
            if local {
                (in_mode(s, list(selected, scroll, true)), Seq::empty())
            } else {
                (saying(s, Status::NothingLocal), Seq::empty())
            }
        } else if k.code == Code::Char('d') && plain(k) {
            if pending {
                (s, seq![Action::DeleteListed(selected)])
            } else {
                (Review { pending_d: true, ..s }, Seq::empty())
            }
        } else if k.code == Code::Char('y') {
            (s, seq![Action::CopySummary])
        } else if k.code == Code::Char('P') {
            (in_mode(s, Mode::Normal), seq![Action::OfferPublish])
        } else if k.code == Code::Enter {
            (s, seq![Action::JumpToListedFinding])
        } else if k.code == Code::Esc || k.code == Code::Char('F') || k.code == Code::Char('q') {
            (in_mode(s, Mode::Normal), Seq::empty())
        } else {
            (s, Seq::empty())
        }
    }
}

/// One key in the composer.
pub open spec fn editing_key(s: Review, k: Key, after_backslash: bool) -> (Review, Seq<Action>) {
    if k.code == Code::Esc {
        (saying(in_mode(s, Mode::Normal), Status::FindingDiscarded), Seq::empty())
    } else if k.code == Code::Enter && k.shift {
        (s, seq![Action::InsertNewline])
    } else if k.code == Code::Enter && after_backslash {
        (s, seq![Action::BackslashToNewline])
    } else if k.code == Code::Enter || (k.code == Code::Char('s') && ctrl_only(k)) {
        (in_mode(s, Mode::Normal), seq![Action::SaveDraft])
    } else {
        (s, seq![Action::TypeKey])
    }
}

/// `z`: the one key for what is being withheld, on the pane it is pressed
/// in.
pub open spec fn fold_key(s: Review) -> Action {
    if s.focus == Focus::Detail && s.here.context_edge {
        Action::ExpandAtCursor
    } else if s.focus == Focus::Detail && s.here.resolved {
        Action::ToggleThreadExpanded
    } else if s.focus == Focus::Groups && s.view == ViewMode::Files {
        Action::ToggleDir
    } else if s.focus == Focus::Detail && s.here.peekable {
        Action::StepPeek
    } else {
        Action::ToggleGroupFold
    }
}

/// One key in the review itself.
pub open spec fn normal_key(s: Review, k: Key, pending: bool) -> (Review, Seq<Action>) {
    let c = k.code;
    let detail = s.focus == Focus::Detail;
    if c == Code::Char('q') {
        (s, seq![Action::Quit])
    } else if c == Code::Tab {
        (Review { focus: if detail { Focus::Groups } else { Focus::Detail }, ..s }, Seq::empty())
    } else if c == Code::Enter && !detail {
        (s, seq![Action::EnterPlanEntry])
    } else if (c == Code::Char('j') && plain(k)) || c == Code::Down {
        (s, seq![if detail { Action::MoveCursor(1) } else { Action::NextEntry }])
    } else if (c == Code::Char('k') && plain(k)) || c == Code::Up {
        (s, seq![if detail { Action::MoveCursor(-1isize) } else { Action::PrevEntry }])
    } else if c == Code::Char('J') || c == Code::Char('}') {
        (s, seq![Action::NextEntry])
    } else if c == Code::Char('K') || c == Code::Char('{') {
        (s, seq![Action::PrevEntry])
    } else if c == Code::Char('d') && ctrl_only(k) {
        (s, seq![Action::HalfPage(1)])
    } else if c == Code::Char('u') && ctrl_only(k) {
        (s, seq![Action::HalfPage(-1isize)])
    } else if c == Code::Char('g') {
        (s, seq![Action::Top])
    } else if c == Code::Char('G') {
        (s, seq![Action::Bottom])
    } else if c == Code::Char('z') {
        (s, seq![fold_key(s)])
    } else if c == Code::Char('n') && plain(k) {
        (s, seq![Action::JumpHunk(1)])
    } else if c == Code::Char('N') {
        (s, seq![Action::JumpHunk(-1isize)])
    } else if c == Code::Char('s') && plain(k) {
        (s, seq![Action::ToggleSplit])
    } else if c == Code::Char('w') && plain(k) {
        (s, seq![Action::ToggleWrap])
    } else if ((c == Code::Char('l') && plain(k)) || c == Code::Right) && detail {
        (s, seq![Action::ShiftPane(Some(SHIFT_STEP))])
    } else if ((c == Code::Char('h') && plain(k)) || c == Code::Left) && detail {
        (s, seq![Action::ShiftPane(Some((-SHIFT_STEP) as isize))])
    } else if c == Code::Char('0') && plain(k) && detail {
        (s, seq![Action::ShiftPane(None)])
    } else if c == Code::Char('F') {
        (s, seq![Action::OpenFindings])
    } else if c == Code::Char('f') && plain(k) {
        (s, seq![if detail { Action::OpenFileList } else { Action::ToggleFileView }])
    } else if c == Code::Char(' ') {
        (s, seq![Action::ToggleReviewed])
    } else if c == Code::Char('v') && plain(k) {
        if s.visual is Some {
            (Review { visual: None, ..s }, Seq::empty())
        } else if s.here.has_line {
            (Review { visual: Some(s.cursor), ..s }, Seq::empty())
        } else {
            (saying(s, Status::MoveOntoALine), Seq::empty())
        }
    } else if c == Code::Esc && s.peek_open {
        (Review { peek_open: false, ..s }, Seq::empty())
    } else if c == Code::Esc && s.visual is Some {
        (Review { visual: None, ..s }, Seq::empty())
    } else if c == Code::Char('c') && plain(k) {
        if s.here.own_comment {
            (Review { visual: None, mode: Mode::Editing { after_backslash: false }, ..s }, seq![Action::EditOwnComment])
        } else if s.here.thread {
            (saying(s, Status::NotYours), Seq::empty())
        } else if s.here.in_hunk {
            (Review { visual: None, mode: Mode::Editing { after_backslash: false }, ..s }, seq![Action::OpenComposer])
        } else {
            (saying(s, Status::MoveOntoAHunk), Seq::empty())
        }
    } else if c == Code::Char('d') && plain(k) {
        if pending {
            (s, seq![Action::DeleteFindingAtCursor])
        } else {
            (Review { pending_d: true, ..s }, Seq::empty())
        }
    } else if c == Code::Char('y') {
        (s, seq![Action::CopySummary])
    } else if c == Code::Char('r') && plain(k) {
        if s.here.thread {
            (Review { visual: None, mode: Mode::Editing { after_backslash: false }, ..s }, seq![Action::Reply])
        } else {
            (saying(s, Status::RepliesNeedAThread), Seq::empty())
        }
    } else if c == Code::Char('x') && plain(k) {
        (s, seq![Action::ToggleThreadResolved])
    } else if c == Code::Char('R') {
        (s, seq![Action::StartFetch])
    } else if c == Code::Char('P') {
        (s, seq![Action::OfferPublish])
    } else {
        (s, Seq::empty())
    }
}

/// What a key does: `ctrl-c` quits from anywhere; any other key clears the
/// last message first; `?` opens help wherever help can answer for the keys;
/// otherwise the mode the reader is in decides. A first `d` waits for one
/// more key only.
pub open spec fn spec_handle_key(s: Review, k: Key, rule_at: Seq<usize>) -> (Review, Seq<Action>) {
    let pending = s.pending_d;
    let s1 = Review { pending_d: false, ..s };
    if is_quit(k) {
        (s1, seq![Action::Quit])
    } else {
        let s2 = saying(s1, Status::Clear);
        if k.code == Code::Char('?') && spec_help_opens(s.mode) {
            (in_mode(s2, Mode::Help { from: place_of(s.mode) }), Seq::empty())
        } else {
            match s.mode {
                Mode::Help { from } => (in_mode(s2, back_to(from)), Seq::empty()),
                Mode::Notice => (in_mode(s2, Mode::Normal), Seq::empty()),
                Mode::FileList { len, selected, scroll } => file_list_key(s2, k, len, selected, scroll),
                Mode::Findings { len, rules, selected, scroll, confirming, local } =>
                    findings_key(s2, k, pending, rule_at, len, rules, selected, scroll, confirming, local),
                Mode::DeleteComment => if is_yes(k) {
                    (in_mode(s2, Mode::Normal), seq![Action::StartDeleteComment])
                } else {
                    (saying(in_mode(s2, Mode::Normal), Status::NothingDeleted), Seq::empty())
                },
                Mode::Publish => if is_yes(k) {
                    (in_mode(s2, Mode::Normal), seq![Action::StartPublish])
                } else {
                    (saying(in_mode(s2, Mode::Normal), Status::NothingPublished), Seq::empty())
                },
                Mode::Editing { after_backslash } => editing_key(s2, k, after_backslash),
                Mode::Normal => normal_key(s2, k, pending),
            }
        }
    }
}

/// Whether `?` is help's key in this mode.
fn help_opens(mode: &Mode) -> (r: bool)
    ensures
        r == spec_help_opens(*mode),
{
    match mode {
        Mode::Normal => true,
        Mode::FileList { .. } => true,
        Mode::Findings { confirming, .. } => !*confirming,
        _ => false,
    }
}

/// A bare `y`.
fn yes(k: Key) -> (r: bool)
    ensures
        r == is_yes(k),
{
    k.code == Code::Char('y') && !k.ctrl && !k.shift && !k.alt
}

/// One key on the file list, in a state whose mode is that list.
fn on_file_list(s: Review, k: Key, len: usize, selected: usize, scroll: usize) -> (r: (Review, Vec<Action>))
    requires
        selected < usize::MAX,
    ensures
        r.0 == file_list_key(s, k, len, selected, scroll).0,
        r.1@ == file_list_key(s, k, len, selected, scroll).1,
{
    let mut s = s;
    let rows = file_list_rows(len, s.body_rows);
    if k.code == Code::Char('j') || k.code == Code::Down {
        let mut sel = selected;
        let mut scr = scroll;
        step_list(&mut sel, &mut scr, len, rows, true);
        s.mode = Mode::FileList { len, selected: sel, scroll: scr };
        (s, Vec::new())
    } else if k.code == Code::Char('k') || k.code == Code::Up {
        let mut sel = selected;
        let mut scr = scroll;
        step_list(&mut sel, &mut scr, len, rows, false);
        s.mode = Mode::FileList { len, selected: sel, scroll: scr };
        (s, Vec::new())
    } else if k.code == Code::Enter {
        (s, vec![Action::JumpToListedFile])
    } else if k.code == Code::Esc || k.code == Code::Char('f') || k.code == Code::Char('q') {
        s.mode = Mode::Normal;
        (s, Vec::new())
    } else {
        (s, Vec::new())
    }
}

/// One key on the findings list, in a state whose mode is that list.
fn on_findings(
    s: Review,
    k: Key,
    pending: bool,
    rule_at: &[usize],
    len: usize,
    rules: usize,
    selected: usize,
    scroll: usize,
    confirming: bool,
    local: bool,
) -> (r: (Review, Vec<Action>))
    requires
        selected < usize::MAX,
    ensures
        r.0 == findings_key(s, k, pending, rule_at@, len, rules, selected, scroll, confirming, local).0,
        r.1@ == findings_key(s, k, pending, rule_at@, len, rules, selected, scroll, confirming, local).1,
{
    let mut s = s;
    if confirming {
        s.mode = Mode::Findings { len, rules, selected, scroll, confirming: false, local };
        if yes(k) {
            return (s, vec![Action::ClearFindings]);
        }
        s.status = Status::NothingDeleted;
        return (s, Vec::new());
    }
    let rows = findings_rows(len, rules, s.body_rows);
    if k.code == Code::Char('j') || k.code == Code::Down {
        let mut sel = selected;
        let mut scr = scroll;
        findings_step(&mut sel, &mut scr, len, rows, rule_at, true);
        s.mode = Mode::Findings { len, rules, selected: sel, scroll: scr, confirming: false, local };
        (s, Vec::new())
    } else if k.code == Code::Char('k') || k.code == Code::Up {
        let mut sel = selected;
        let mut scr = scroll;
        findings_step(&mut sel, &mut scr, len, rows, rule_at, false);
        s.mode = Mode::Findings { len, rules, selected: sel, scroll: scr, confirming: false, local };
        (s, Vec::new())
    } else if k.code == Code::Char('D') {
        if local {
            s.mode = Mode::Findings { len, rules, selected, scroll, confirming: true, local };
        } else {
            s.status = Status::NothingLocal;
        }
        (s, Vec::new())
    } else if k.code == Code::Char('d') && !k.ctrl && !k.shift && !k.alt {
        if pending {
            (s, vec![Action::DeleteListed(selected)])
        } else {
            s.pending_d = true;
            (s, Vec::new())
        }
    } else if k.code == Code::Char('y') {
        (s, vec![Action::CopySummary])
    } else if k.code == Code::Char('P') {
        s.mode = Mode::Normal;
        (s, vec![Action::OfferPublish])
    } else if k.code == Code::Enter {
        (s, vec![Action::JumpToListedFinding])
    } else if k.code == Code::Esc || k.code == Code::Char('F') || k.code == Code::Char('q') {
        s.mode = Mode::Normal;
        (s, Vec::new())
    } else {
        (s, Vec::new())
    }
}

/// One key in the composer.
fn on_editing(s: Review, k: Key, after_backslash: bool) -> (r: (Review, Vec<Action>))
    ensures
        r.0 == editing_key(s, k, after_backslash).0,
        r.1@ == editing_key(s, k, after_backslash).1,
{
    let mut s = s;
    if k.code == Code::Esc {
        s.mode = Mode::Normal;
        s.status = Status::FindingDiscarded;
        (s, Vec::new())
    } else if k.code == Code::Enter && k.shift {
        (s, vec![Action::InsertNewline])
    } else if k.code == Code::Enter && after_backslash {
        (s, vec![Action::BackslashToNewline])
    } else if k.code == Code::Enter || (k.code == Code::Char('s') && k.ctrl && !k.shift && !k.alt) {
        s.mode = Mode::Normal;
        (s, vec![Action::SaveDraft])
    } else {
        (s, vec![Action::TypeKey])
    }
}

/// `z`, on the pane it is pressed in.
fn on_fold(s: &Review) -> (a: Action)
    ensures
        a == fold_key(*s),
{
    let detail = s.focus == Focus::Detail;
    if detail && s.here.context_edge {
        Action::ExpandAtCursor
    } else if detail && s.here.resolved {
        Action::ToggleThreadExpanded
    } else if s.focus == Focus::Groups && s.view == ViewMode::Files {
        Action::ToggleDir
    } else if detail && s.here.peekable {
        Action::StepPeek
    } else {
        Action::ToggleGroupFold
    }
}

/// One key in the review itself.
fn on_review(s: Review, k: Key, pending: bool) -> (r: (Review, Vec<Action>))
    ensures
        r.0 == normal_key(s, k, pending).0,
        r.1@ == normal_key(s, k, pending).1,
{
    let mut s = s;
    let c = k.code;
    let bare = !k.ctrl && !k.shift && !k.alt;
    let detail = s.focus == Focus::Detail;
    if c == Code::Char('q') {
        (s, vec![Action::Quit])
    } else if c == Code::Tab {
        s.focus = if detail { Focus::Groups } else { Focus::Detail };
        (s, Vec::new())
    } else if c == Code::Enter && !detail {
        (s, vec![Action::EnterPlanEntry])
    } else if (c == Code::Char('j') && bare) || c == Code::Down {
        (s, vec![if detail { Action::MoveCursor(1) } else { Action::NextEntry }])
    } else if (c == Code::Char('k') && bare) || c == Code::Up {
        (s, vec![if detail { Action::MoveCursor(-1) } else { Action::PrevEntry }])
    } else if c == Code::Char('J') || c == Code::Char('}') {
        (s, vec![Action::NextEntry])
    } else if c == Code::Char('K') || c == Code::Char('{') {
        (s, vec![Action::PrevEntry])
    } else if c == Code::Char('d') && k.ctrl && !k.shift && !k.alt {
        (s, vec![Action::HalfPage(1)])
    } else if c == Code::Char('u') && k.ctrl && !k.shift && !k.alt {
        (s, vec![Action::HalfPage(-1)])
    } else if c == Code::Char('g') {
        (s, vec![Action::Top])
    } else if c == Code::Char('G') {
        (s, vec![Action::Bottom])
    } else if c == Code::Char('z') {
        let a = on_fold(&s);
        (s, vec![a])
    } else if c == Code::Char('n') && bare {
        (s, vec![Action::JumpHunk(1)])
    } else if c == Code::Char('N') {
        (s, vec![Action::JumpHunk(-1)])
    } else if c == Code::Char('s') && bare {
        (s, vec![Action::ToggleSplit])
    } else if c == Code::Char('w') && bare {
        (s, vec![Action::ToggleWrap])
    } else if ((c == Code::Char('l') && bare) || c == Code::Right) && detail {
        (s, vec![Action::ShiftPane(Some(SHIFT_STEP))])
    } else if ((c == Code::Char('h') && bare) || c == Code::Left) && detail {
        let back: isize = -SHIFT_STEP;
        (s, vec![Action::ShiftPane(Some(back))])
    } else if c == Code::Char('0') && bare && detail {
        (s, vec![Action::ShiftPane(None)])
    } else if c == Code::Char('F') {
        (s, vec![Action::OpenFindings])
    } else if c == Code::Char('f') && bare {
        (s, vec![if detail { Action::OpenFileList } else { Action::ToggleFileView }])
    } else if c == Code::Char(' ') {
        (s, vec![Action::ToggleReviewed])
    } else if c == Code::Char('v') && bare {
        if s.visual.is_some() {
            s.visual = None;
        } else if s.here.has_line {
            s.visual = Some(s.cursor);
        } else {
            s.status = Status::MoveOntoALine;
        }
        (s, Vec::new())
    } else if c == Code::Esc && s.peek_open {
        s.peek_open = false;
        (s, Vec::new())
    } else if c == Code::Esc && s.visual.is_some() {
        s.visual = None;
        (s, Vec::new())
    } else if c == Code::Char('c') && bare {
        if s.here.own_comment {
            s.visual = None;
            s.mode = Mode::Editing { after_backslash: false };
            (s, vec![Action::EditOwnComment])
        } else if s.here.thread {
            s.status = Status::NotYours;
            (s, Vec::new())
        } else if s.here.in_hunk {
            s.visual = None;
            s.mode = Mode::Editing { after_backslash: false };
            (s, vec![Action::OpenComposer])
        } else {
            s.status = Status::MoveOntoAHunk;
            (s, Vec::new())
        }
    } else if c == Code::Char('d') && bare {
        if pending {
            (s, vec![Action::DeleteFindingAtCursor])
        } else {
            s.pending_d = true;
            (s, Vec::new())
        }
    } else if c == Code::Char('y') {
        (s, vec![Action::CopySummary])
    } else if c == Code::Char('r') && bare {
        if s.here.thread {
            s.visual = None;
            s.mode = Mode::Editing { after_backslash: false };
            (s, vec![Action::Reply])
        } else {
            s.status = Status::RepliesNeedAThread;
            (s, Vec::new())
        }
    } else if c == Code::Char('x') && bare {
        (s, vec![Action::ToggleThreadResolved])
    } else if c == Code::Char('R') {
        (s, vec![Action::StartFetch])
    } else if c == Code::Char('P') {
        (s, vec![Action::OfferPublish])
    } else {
        (s, Vec::new())
    }
}

/// Where the diff's sideways shift goes: by `by` columns, no further left
/// than the edge, or back to the edge for `None`; and never past `max`.
pub open spec fn spec_shifted(hscroll: int, by: Option<isize>, max: int) -> int {
    let moved = match by {
        None => 0,
        Some(b) => if hscroll + b < 0 { 0 } else { hscroll + b },
    };
    if moved < max { moved } else { max }
}

/// Carry out a sideways shift of the diff. A wrapped diff has no sideways:
/// the shift stays where it is and the footer says why.
pub fn shift_pane(wrap: bool, hscroll: usize, by: Option<isize>, max: usize) -> (r: Result<usize, Status>)
    requires
        hscroll <= isize::MAX,
        by matches Some(b) ==> hscroll + b <= isize::MAX,
    ensures
        wrap ==> r == Err::<usize, Status>(Status::WrapIsOn),
        !wrap ==> r == Ok::<usize, Status>(spec_shifted(hscroll as int, by, max as int) as usize),
{
    if wrap {
        return Err(Status::WrapIsOn);
    }
    let moved: usize = match by {
        None => 0,
        Some(b) => {
            let at: isize = hscroll as isize + b;
            if at < 0 { 0 } else { at as usize }
        },
    };
    Ok(if moved < max { moved } else { max })
}

/// A state a key can be handed, with the open findings list's rule
/// positions: a list's selection can still move down, and the rules are the
/// list's own.
pub open spec fn steppable(s: Review, rule_at: Seq<usize>) -> bool {
    match s.mode {
        Mode::FileList { selected, .. } => selected < usize::MAX,
        Mode::Findings { selected, rules, .. } => selected < usize::MAX && rule_at.len() == rules,
        _ => true,
    }
}

/// A key that moves a list's selection: `j`, `k`, down or up.
pub open spec fn is_step(k: Key) -> bool {
    k.code == Code::Char('j') || k.code == Code::Char('k') || k.code == Code::Down || k.code == Code::Up
}

/// The findings list shows its selection: the entries from the scroll down
/// to the selection, and every section rule drawn between them, fit in the
/// list's box.
pub open spec fn in_box(s: Review, rule_at: Seq<usize>) -> bool {
    match s.mode {
        Mode::Findings { len, rules, selected, scroll, .. } => {
            let rows = spec_findings_rows(len as int, rules as int, s.body_rows as int);
            &&& scroll <= selected
            &&& follow_lines(selected as int, scroll as int, rule_at) <= (if rows < 1 { 1 } else { rows })
        },
        _ => true,
    }
}

/// A step on the findings list keeps the selection in the box, the rules
/// drawn between it and the scroll counted as lines.
proof fn lemma_a_findings_step_stays_in_box(
    s: Review,
    k: Key,
    pending: bool,
    rule_at: Seq<usize>,
    len: usize,
    n: usize,
    selected: usize,
    scroll: usize,
    local: bool,
)
    requires
        is_step(k),
        selected < usize::MAX,
    ensures
        in_box(findings_key(s, k, pending, rule_at, len, n, selected, scroll, false, local).0, rule_at),
        findings_key(s, k, pending, rule_at, len, n, selected, scroll, false, local).0.mode is Findings,
{
    let rows = spec_findings_rows(len as int, n as int, s.body_rows as int);
    let down = k.code == Code::Char('j') || k.code == Code::Down;
    let sel = stepped(selected as int, len as int, down);
    let from = if scroll < sel { scroll as int } else { sel };
    crate::text::lemma_findings_follow_fits(sel, from, rows, rule_at);
}

/// Help gives back the place it was opened over: wherever `?` opens help,
/// the next key other than `ctrl-c` returns the reader to that same mode,
/// with the rest of the state as `?` left it.
pub proof fn lemma_help_gives_back_the_place(s: Review, k: Key, rule_at: Seq<usize>)
    requires
        spec_help_opens(s.mode),
        !is_quit(k),
    ensures
        ({
            let question = Key { code: Code::Char('?'), ctrl: false, shift: false, alt: false };
            let open = spec_handle_key(s, question, rule_at).0;
            &&& open.mode == Mode::Help { from: place_of(s.mode) }
            &&& spec_handle_key(open, k, rule_at).0 == in_mode(open, s.mode)
            &&& spec_handle_key(open, k, rule_at).1 == Seq::<Action>::empty()
        }),
{
}

/// The `d` latch lasts one key: after any key, a `d` is waiting only when
/// that key was a bare `d` and no `d` was waiting before it, so `dd` is two
/// presses in a row and a third `d` starts over.
pub proof fn lemma_the_d_latch_lasts_one_key(s: Review, k: Key, rule_at: Seq<usize>)
    ensures
        spec_handle_key(s, k, rule_at).0.pending_d ==> k.code == Code::Char('d') && plain(k) && !s.pending_d,
{
}

/// Where help goes back to, for a mode it opens over.
fn keep_place(mode: Mode) -> (b: Back)
    ensures
        b == place_of(mode),
{
    match mode {
        Mode::FileList { len, selected, scroll } => Back::FileList { len, selected, scroll },
        Mode::Findings { len, rules, selected, scroll, local, .. } => Back::Findings { len, rules, selected, scroll, local },
        _ => Back::Normal,
    }
}

/// The mode a kept place stands for.
fn go_back(b: Back) -> (m: Mode)
    ensures
        m == back_to(b),
{
    match b {
        Back::Normal => Mode::Normal,
        Back::FileList { len, selected, scroll } => Mode::FileList { len, selected, scroll },
        Back::Findings { len, rules, selected, scroll, local } =>
            Mode::Findings { len, rules, selected, scroll, confirming: false, local },
    }
}

/// What a key does to the review: the next state, and the actions the app
/// carries out, in order. `ctrl-c` quits from every screen, the composer
/// included. `rule_at` are the open findings list's rule positions, and go
/// unread in every other mode; a step on that list keeps the selection in
/// its box, the rules drawn between counted as lines.
pub fn handle_key(state: &Review, key: Key, rule_at: &[usize]) -> (r: (Review, Vec<Action>))
    requires
        steppable(*state, rule_at@),
    ensures
        r.0 == spec_handle_key(*state, key, rule_at@).0,
        r.1@ == spec_handle_key(*state, key, rule_at@).1,
        is_quit(key) ==> r.1@ == seq![Action::Quit],
        (state.mode matches Mode::Findings { confirming, .. } && !confirming && is_step(key))
            ==> r.0.mode is Findings && in_box(r.0, rule_at@),
        state.mode == Mode::Normal && key.code == Code::Char('N') ==> r.1@ == seq![Action::JumpHunk(-1isize)],
        state.mode == Mode::Normal && key.code == Code::Char('n') && plain(key) ==> r.1@ == seq![Action::JumpHunk(1isize)],
{
    proof {
        if state.mode == Mode::Normal {
            lemma_n_and_capital_n_jump_opposite_ways(*state, key, rule_at@);
        }
    }
    let pending = state.pending_d;
    let mode = state.mode;
    let mut s = *state;
    s.pending_d = false;
    if key.code == Code::Char('c') && key.ctrl {
        return (s, vec![Action::Quit]);
    }
    s.status = Status::Clear;
    if key.code == Code::Char('?') && help_opens(&mode) {
        s.mode = Mode::Help { from: keep_place(mode) };
        return (s, Vec::new());
    }
    match mode {
        Mode::Help { from } => {
            s.mode = go_back(from);
            (s, Vec::new())
        },
        Mode::Notice => {
            s.mode = Mode::Normal;
            (s, Vec::new())
        },
        Mode::FileList { len, selected, scroll } => on_file_list(s, key, len, selected, scroll),
        Mode::Findings { len, rules, selected, scroll, confirming, local } => {
            proof {
                if !confirming && is_step(key) {
                    lemma_a_findings_step_stays_in_box(s, key, pending, rule_at@, len, rules, selected, scroll, local);
                }
            }
            on_findings(s, key, pending, rule_at, len, rules, selected, scroll, confirming, local)
        },
        Mode::DeleteComment => {
            s.mode = Mode::Normal;
            if yes(key) {
                (s, vec![Action::StartDeleteComment])
            } else {
                s.status = Status::NothingDeleted;
                (s, Vec::new())
            }
        },
        Mode::Publish => {
            s.mode = Mode::Normal;
            if yes(key) {
                (s, vec![Action::StartPublish])
            } else {
                s.status = Status::NothingPublished;
                (s, Vec::new())
            }
        },
        Mode::Editing { after_backslash } => on_editing(s, key, after_backslash),
        Mode::Normal => on_review(s, key, pending),
    }
}

/// What the pointer did: a notch of the wheel, or a left press.
#[derive(Debug, Clone, Copy, PartialEq, Eq, Structural)]
pub enum Gesture {
    WheelDown,
    WheelUp,
    WheelRight,
    WheelLeft,
    Click,
}

/// Where the pointer is, as the panes on screen place it.
#[derive(Debug, Clone, Copy, PartialEq, Eq, Structural)]
pub enum Place {
    /// On this content line of the open list's box.
    InBox(u16),
    /// Not on the open box's content: off it, or on its frame.
    OffBox,
    /// On a float over a pane, the symbol float or a map, which takes no
    /// click.
    Float,
    /// On the plan pane, on this content line when it is on one.
    Plan(Option<u16>),
    /// On the diff pane, on this content line when it is on one.
    Detail(Option<u16>),
    /// Anywhere else.
    Nowhere,
}

/// A pointer event: what was done, whether shift, alt or control was held,
/// and where.
#[derive(Debug, Clone, Copy, PartialEq, Eq, Structural)]
pub struct Pointer {
    pub gesture: Gesture,
    pub held: bool,
    pub place: Place,
}

/// A held key turns the wheel sideways: most mice have no sideways wheel,
/// and terminals report the held key on an ordinary notch.
pub open spec fn turned(p: Pointer) -> Gesture {
    if p.held && p.gesture == Gesture::WheelDown {
        Gesture::WheelRight
    } else if p.held && p.gesture == Gesture::WheelUp {
        Gesture::WheelLeft
    } else {
        p.gesture
    }
}

/// The entry of a findings list of `len` entries drawn on `line`, if one is.
pub open spec fn entry_on_line(len: int, rules: Seq<usize>, line: int) -> Option<int> {
    if exists|i: int| 0 <= i < len && drawn_line(rules, i) == line {
        Some(choose|i: int| 0 <= i < len && drawn_line(rules, i) == line)
    } else {
        None
    }
}

/// One pointer event on the file list.
pub open spec fn file_list_pointer(s: Review, g: Gesture, place: Place, len: usize, selected: usize, scroll: usize) -> (Review, Seq<Action>) {
    if g == Gesture::WheelDown || g == Gesture::WheelUp {
        let rows = spec_file_list_rows(len as int, s.body_rows as int);
        let sel = stepped(selected as int, len as int, g == Gesture::WheelDown) as usize;
        (in_mode(s, Mode::FileList { len, selected: sel, scroll: spec_follow(sel as int, scroll as int, rows) as usize }), Seq::empty())
    } else if g != Gesture::Click {
        (s, Seq::empty())
    } else {
        match place {
            Place::InBox(line) => {
                let hit = scroll + line;
                if hit >= len {
                    (s, Seq::empty())
                } else if hit == selected {
                    (s, seq![Action::JumpToListedFile])
                } else {
                    (in_mode(s, Mode::FileList { len, selected: hit as usize, scroll }), Seq::empty())
                }
            },
            _ => (in_mode(s, Mode::Normal), Seq::empty()),
        }
    }
}

/// One pointer event on the findings list, whose section rules stand before
/// the entries `rules` lists.
pub open spec fn findings_pointer(
    s: Review,
    g: Gesture,
    place: Place,
    rules: Seq<usize>,
    len: usize,
    n: usize,
    selected: usize,
    scroll: usize,
    confirming: bool,
    local: bool,
) -> (Review, Seq<Action>) {
    let list = |sel: usize, scr: usize| Mode::Findings { len, rules: n, selected: sel, scroll: scr, confirming: false, local };
    if confirming {
        if g == Gesture::Click {
            (saying(in_mode(s, list(selected, scroll)), Status::NothingDeleted), Seq::empty())
        } else {
            (s, Seq::empty())
        }
    } else if g == Gesture::WheelDown || g == Gesture::WheelUp {
        let rows = spec_findings_rows(len as int, n as int, s.body_rows as int);
        let sel = stepped(selected as int, len as int, g == Gesture::WheelDown) as usize;
        (in_mode(s, list(sel, findings_scroll(sel, scroll, rows, rules))), Seq::empty())
    } else if g != Gesture::Click {
        (s, Seq::empty())
    } else {
        match place {
            Place::InBox(line) => {
                let at = scroll + rules_at_or_before(rules, scroll as int) + line;
                match entry_on_line(len as int, rules, at) {
                    None => (s, Seq::empty()),
                    Some(hit) => if hit == selected {
                        (s, seq![Action::JumpToListedFinding])
                    } else {
                        (in_mode(s, list(hit as usize, scroll)), Seq::empty())
                    },
                }
            },
            _ => (in_mode(s, Mode::Normal), Seq::empty()),
        }
    }
}

/// One pointer event in the review itself: it acts on the pane under the
/// pointer, and that pane takes the focus.
pub open spec fn review_pointer(s: Review, g: Gesture, place: Place) -> (Review, Seq<Action>) {
    match place {
        Place::Plan(line) => {
            let s1 = Review { focus: Focus::Groups, ..s };
            if g == Gesture::WheelDown {
                (s1, seq![Action::StepEntry(1)])
            } else if g == Gesture::WheelUp {
                (s1, seq![Action::StepEntry(-1isize)])
            } else if g == Gesture::Click && line is Some {
                (s1, seq![Action::ClickPlanLine(line->0 as usize)])
            } else {
                (s1, Seq::empty())
            }
        },
        Place::Detail(line) => {
            let s1 = Review { focus: Focus::Detail, ..s };
            if g == Gesture::WheelDown {
                (s1, seq![Action::MoveCursor(1)])
            } else if g == Gesture::WheelUp {
                (s1, seq![Action::MoveCursor(-1isize)])
            } else if g == Gesture::WheelRight {
                (s1, seq![Action::ShiftPane(Some(SHIFT_STEP))])
            } else if g == Gesture::WheelLeft {
                (s1, seq![Action::ShiftPane(Some((-SHIFT_STEP) as isize))])
            } else if line is Some {
                (s1, seq![Action::ClickDetailLine(line->0 as usize)])
            } else {
                (s1, Seq::empty())
            }
        },
        _ => (s, Seq::empty()),
    }
}

/// What a pointer event does. It clears the last message, as a key does;
/// the wheel is `j`/`k` on a list; a click on a list's entry selects it, and
/// on the one already selected opens it; a click off an open box closes it;
/// a click closes help and a notice. The composer and the two questions take
/// no pointer but on their footers, which the app presses as keys.
pub open spec fn spec_handle_mouse(s: Review, p: Pointer, rules: Seq<usize>) -> (Review, Seq<Action>) {
    let g = turned(p);
    let s1 = saying(s, Status::Clear);
    match s.mode {
        Mode::Help { from } => if g == Gesture::Click {
            (in_mode(s1, back_to(from)), Seq::empty())
        } else {
            (s1, Seq::empty())
        },
        Mode::Notice => if g == Gesture::Click {
            (in_mode(s1, Mode::Normal), Seq::empty())
        } else {
            (s1, Seq::empty())
        },
        Mode::FileList { len, selected, scroll } => file_list_pointer(s1, g, p.place, len, selected, scroll),
        Mode::Findings { len, rules: n, selected, scroll, confirming, local } =>
            findings_pointer(s1, g, p.place, rules, len, n, selected, scroll, confirming, local),
        Mode::Normal => review_pointer(s1, g, p.place),
        _ => (s1, Seq::empty()),
    }
}

/// A state a pointer event can be handed, with the open findings list's rule
/// positions: a list's selection can still move down, the rules are the
/// list's own, and the rows skipped to its scroll fit in a `usize`.
pub open spec fn pointable(s: Review, rules: Seq<usize>) -> bool {
    match s.mode {
        Mode::FileList { selected, scroll, .. } => selected < usize::MAX && scroll + 0xffff <= usize::MAX,
        Mode::Findings { rules: n, selected, scroll, .. } =>
            selected < usize::MAX && rules.len() == n && scroll + n + 0xffff <= usize::MAX,
        _ => true,
    }
}

/// A click lands on the entry drawn under it: on the findings list, a click
/// on the content line where entry `e` is drawn, counting from the rows the
/// list skips to its scroll, selects `e`, or opens it when it is already the
/// selection.
pub proof fn lemma_a_click_lands_on_the_entry_drawn_there(s: Review, rules: Seq<usize>, e: int, line: u16)
    requires
        s.mode matches Mode::Findings { len, scroll, confirming, .. }
            && !confirming && 0 <= e < len
            && drawn_line(rules, e) == scroll + rules_at_or_before(rules, scroll as int) + line,
    ensures
        ({
            let click = Pointer { gesture: Gesture::Click, held: false, place: Place::InBox(line) };
            let r = spec_handle_mouse(s, click, rules);
            match s.mode {
                Mode::Findings { len, rules: n, selected, scroll, local, .. } => if e == selected {
                    r.1 == seq![Action::JumpToListedFinding] && r.0.mode == s.mode
                } else {
                    r.1 == Seq::<Action>::empty() && r.0.mode == (Mode::Findings {
                        len, rules: n, selected: e as usize, scroll, confirming: false, local,
                    })
                },
                _ => true,
            }
        }),
{
    if let Mode::Findings { len, scroll, .. } = s.mode {
        let at = scroll + rules_at_or_before(rules, scroll as int) + line;
        assert(0 <= e < len && drawn_line(rules, e) == at);
        let j = choose|j: int| 0 <= j < len && drawn_line(rules, j) == at;
        if j < e {
            crate::text::lemma_drawn_line_increases(rules, j, e);
        } else if e < j {
            crate::text::lemma_drawn_line_increases(rules, e, j);
        }
        assert(entry_on_line(len as int, rules, at) == Some(e));
    }
}

/// The held key's turn of the wheel.
fn turn(p: Pointer) -> (g: Gesture)
    ensures
        g == turned(p),
{
    if p.held && p.gesture == Gesture::WheelDown {
        Gesture::WheelRight
    } else if p.held && p.gesture == Gesture::WheelUp {
        Gesture::WheelLeft
    } else {
        p.gesture
    }
}

/// The findings entry drawn on `line`, as `entry_on_line` names it.
fn entry_at(len: usize, rules: &[usize], line: usize) -> (r: Option<usize>)
    ensures
        r matches Some(i) ==> entry_on_line(len as int, rules@, line as int) == Some(i as int),
        r is None ==> entry_on_line(len as int, rules@, line as int) is None,
{
    let r = findings_entry_at_line(len, rules, line);
    proof {
        if let Some(i) = r {
            let j = choose|j: int| 0 <= j < len && drawn_line(rules@, j) == line;
            assert(0 <= j < len && drawn_line(rules@, j) == line);
            if j < i {
                crate::text::lemma_drawn_line_increases(rules@, j, i as int);
            } else if i < j {
                crate::text::lemma_drawn_line_increases(rules@, i as int, j);
            }
        }
    }
    r
}

/// One pointer event on the file list.
fn point_file_list(s: Review, g: Gesture, place: Place, len: usize, selected: usize, scroll: usize) -> (r: (Review, Vec<Action>))
    requires
        selected < usize::MAX,
        scroll + 0xffff <= usize::MAX,
    ensures
        r.0 == file_list_pointer(s, g, place, len, selected, scroll).0,
        r.1@ == file_list_pointer(s, g, place, len, selected, scroll).1,
{
    let mut s = s;
    if g == Gesture::WheelDown || g == Gesture::WheelUp {
        let rows = file_list_rows(len, s.body_rows);
        let mut sel = selected;
        let mut scr = scroll;
        step_list(&mut sel, &mut scr, len, rows, g == Gesture::WheelDown);
        s.mode = Mode::FileList { len, selected: sel, scroll: scr };
        return (s, Vec::new());
    }
    if g != Gesture::Click {
        return (s, Vec::new());
    }
    match place {
        Place::InBox(line) => {
            let hit = scroll + line as usize;
            if hit >= len {
                (s, Vec::new())
            } else if hit == selected {
                (s, vec![Action::JumpToListedFile])
            } else {
                s.mode = Mode::FileList { len, selected: hit, scroll };
                (s, Vec::new())
            }
        },
        _ => {
            s.mode = Mode::Normal;
            (s, Vec::new())
        },
    }
}

/// One pointer event on the findings list.
fn point_findings(
    s: Review,
    g: Gesture,
    place: Place,
    rules: &[usize],
    len: usize,
    n: usize,
    selected: usize,
    scroll: usize,
    confirming: bool,
    local: bool,
) -> (r: (Review, Vec<Action>))
    requires
        selected < usize::MAX,
        rules@.len() == n,
        scroll + n + 0xffff <= usize::MAX,
    ensures
        r.0 == findings_pointer(s, g, place, rules@, len, n, selected, scroll, confirming, local).0,
        r.1@ == findings_pointer(s, g, place, rules@, len, n, selected, scroll, confirming, local).1,
{
    let mut s = s;
    if confirming {
        if g == Gesture::Click {
            s.mode = Mode::Findings { len, rules: n, selected, scroll, confirming: false, local };
            s.status = Status::NothingDeleted;
        }
        return (s, Vec::new());
    }
    if g == Gesture::WheelDown || g == Gesture::WheelUp {
        let rows = findings_rows(len, n, s.body_rows);
        let mut sel = selected;
        let mut scr = scroll;
        findings_step(&mut sel, &mut scr, len, rows, rules, g == Gesture::WheelDown);
        s.mode = Mode::Findings { len, rules: n, selected: sel, scroll: scr, confirming: false, local };
        return (s, Vec::new());
    }
    if g != Gesture::Click {
        return (s, Vec::new());
    }
    match place {
        Place::InBox(line) => {
            proof {
                crate::text::lemma_counts_bounded(rules@, scroll as int, 0, 0);
            }
            let skip = findings_skip(scroll, rules);
            match entry_at(len, rules, skip + line as usize) {
                None => (s, Vec::new()),
                Some(hit) => {
                    if hit == selected {
                        (s, vec![Action::JumpToListedFinding])
                    } else {
                        s.mode = Mode::Findings { len, rules: n, selected: hit, scroll, confirming: false, local };
                        (s, Vec::new())
                    }
                },
            }
        },
        _ => {
            s.mode = Mode::Normal;
            (s, Vec::new())
        },
    }
}

/// One pointer event in the review itself.
fn point_review(s: Review, g: Gesture, place: Place) -> (r: (Review, Vec<Action>))
    ensures
        r.0 == review_pointer(s, g, place).0,
        r.1@ == review_pointer(s, g, place).1,
{
    let mut s = s;
    match place {
        Place::Plan(line) => {
            s.focus = Focus::Groups;
            if g == Gesture::WheelDown {
                (s, vec![Action::StepEntry(1)])
            } else if g == Gesture::WheelUp {
                (s, vec![Action::StepEntry(-1)])
            } else if g == Gesture::Click && line.is_some() {
                let l = line.unwrap();
                (s, vec![Action::ClickPlanLine(l as usize)])
            } else {
                (s, Vec::new())
            }
        },
        Place::Detail(line) => {
            s.focus = Focus::Detail;
            if g == Gesture::WheelDown {
                (s, vec![Action::MoveCursor(1)])
            } else if g == Gesture::WheelUp {
                (s, vec![Action::MoveCursor(-1)])
            } else if g == Gesture::WheelRight {
                (s, vec![Action::ShiftPane(Some(SHIFT_STEP))])
            } else if g == Gesture::WheelLeft {
                let back: isize = -SHIFT_STEP;
                (s, vec![Action::ShiftPane(Some(back))])
            } else if line.is_some() {
                let l = line.unwrap();
                (s, vec![Action::ClickDetailLine(l as usize)])
            } else {
                (s, Vec::new())
            }
        },
        _ => (s, Vec::new()),
    }
}

/// A notch of the wheel on the findings list keeps the selection in the box
/// too.
proof fn lemma_a_findings_notch_stays_in_box(
    s: Review,
    g: Gesture,
    place: Place,
    rules: Seq<usize>,
    len: usize,
    n: usize,
    selected: usize,
    scroll: usize,
    local: bool,
)
    requires
        g == Gesture::WheelDown || g == Gesture::WheelUp,
        selected < usize::MAX,
    ensures
        in_box(findings_pointer(s, g, place, rules, len, n, selected, scroll, false, local).0, rules),
        findings_pointer(s, g, place, rules, len, n, selected, scroll, false, local).0.mode is Findings,
{
    let rows = spec_findings_rows(len as int, n as int, s.body_rows as int);
    let sel = stepped(selected as int, len as int, g == Gesture::WheelDown);
    let from = if scroll < sel { scroll as int } else { sel };
    crate::text::lemma_findings_follow_fits(sel, from, rows, rules);
}

/// What a pointer event does to the review, as `spec_handle_mouse` says.
/// `rules` are the open findings list's rule positions, and go unread in
/// every other mode.
pub fn handle_mouse(state: &Review, pointer: Pointer, rules: &[usize]) -> (r: (Review, Vec<Action>))
    requires
        pointable(*state, rules@),
    ensures
        r.0 == spec_handle_mouse(*state, pointer, rules@).0,
        r.1@ == spec_handle_mouse(*state, pointer, rules@).1,
        (state.mode matches Mode::Findings { confirming, .. } && !confirming
            && (turned(pointer) == Gesture::WheelDown || turned(pointer) == Gesture::WheelUp))
            ==> r.0.mode is Findings && in_box(r.0, rules@),
{
    let g = turn(pointer);
    let mut s = *state;
    s.status = Status::Clear;
    match state.mode {
        Mode::Help { from } => {
            if g == Gesture::Click {
                s.mode = go_back(from);
            }
            (s, Vec::new())
        },
        Mode::Notice => {
            if g == Gesture::Click {
                s.mode = Mode::Normal;
            }
            (s, Vec::new())
        },
        Mode::FileList { len, selected, scroll } => point_file_list(s, g, pointer.place, len, selected, scroll),
        Mode::Findings { len, rules: n, selected, scroll, confirming, local } => {
            proof {
                if !confirming && (g == Gesture::WheelDown || g == Gesture::WheelUp) {
                    lemma_a_findings_notch_stays_in_box(s, g, pointer.place, rules@, len, n, selected, scroll, local);
                }
            }
            point_findings(s, g, pointer.place, rules, len, n, selected, scroll, confirming, local)
        },
        Mode::Normal => point_review(s, g, pointer.place),
        _ => (s, Vec::new()),
    }
}

/// In the review, `n` and `N` move between hunks in opposite directions:
/// `n` asks for the next hunk (+1) and `N`, with or without modifiers, for
/// the previous one (-1); neither changes where the keys go.
pub proof fn lemma_n_and_capital_n_jump_opposite_ways(s: Review, k: Key, rule_at: Seq<usize>)
    requires
        s.mode == Mode::Normal,
    ensures
        k.code == Code::Char('N') ==> spec_handle_key(s, k, rule_at).1 == seq![Action::JumpHunk(-1isize)]
            && spec_handle_key(s, k, rule_at).0.mode == Mode::Normal,
        k.code == Code::Char('n') && plain(k) ==> spec_handle_key(s, k, rule_at).1 == seq![Action::JumpHunk(1isize)]
            && spec_handle_key(s, k, rule_at).0.mode == Mode::Normal,
{
}

} // verus!
