use differential_review::forge::{
    changed, deleted_status, edited_status, failure_headline, fetched_status, lost_status, nothing_to_publish, plural,
    poll, published_status, publishing_status, refusal, resolved_status, Call, Polled, Reply,
};
use differential_review::keys::{
    ctrl_c, handle_key, handle_mouse, shift_pane, Action, Back, Code, Focus, Gesture, Here, Key, Mode, Place, Pointer, Review,
    Status, ViewMode, SHIFT_STEP,
};

/// A key, handed over with the open findings list's rule positions: one
/// rule every three entries.
fn press(s: &Review, k: Key) -> (Review, Vec<Action>) {
    let rules: Vec<usize> = match s.mode {
        Mode::Findings { rules, .. } => (0..rules).map(|i| 3 * i).collect(),
        _ => Vec::new(),
    };
    handle_key(s, k, &rules)
}

fn key(c: char) -> Key {
    Key { code: Code::Char(c), ctrl: false, shift: false, alt: false }
}

fn code(code: Code) -> Key {
    Key { code, ctrl: false, shift: false, alt: false }
}

fn nowhere() -> Here {
    Here {
        context_edge: false,
        thread: false,
        resolved: false,
        own_comment: false,
        peekable: false,
        has_line: false,
        in_hunk: false,
    }
}

fn review(mode: Mode) -> Review {
    Review {
        mode,
        focus: Focus::Detail,
        view: ViewMode::Groups,
        pending_d: false,
        peek_open: false,
        visual: None,
        cursor: 7,
        here: nowhere(),
        status: Status::Clear,
        body_rows: 40,
    }
}

fn findings(selected: usize, confirming: bool, local: bool) -> Mode {
    Mode::Findings { len: 5, rules: 2, selected, scroll: 0, confirming, local }
}

#[test]
fn ctrl_c_quits_from_every_screen() {
    let modes = vec![
        Mode::Normal,
        Mode::Help { from: Back::Normal },
        Mode::Notice,
        Mode::FileList { len: 3, selected: 1, scroll: 0 },
        findings(0, false, true),
        findings(0, true, true),
        Mode::DeleteComment,
        Mode::Publish,
        Mode::Editing { after_backslash: false },
    ];
    for m in modes {
        let (_, actions) = press(&review(m), ctrl_c());
        assert_eq!(actions, vec![Action::Quit]);
    }
    // Held with shift too: ctrl-c is ctrl-c.
    let k = Key { code: Code::Char('c'), ctrl: true, shift: true, alt: false };
    assert_eq!(press(&review(Mode::Editing { after_backslash: true }), k).1, vec![Action::Quit]);
}

#[test]
fn help_goes_back_to_the_list_it_was_opened_over() {
    let start = review(Mode::FileList { len: 4, selected: 2, scroll: 1 });
    let (open, actions) = press(&start, key('?'));
    assert!(actions.is_empty());
    assert_eq!(open.mode, Mode::Help { from: Back::FileList { len: 4, selected: 2, scroll: 1 } });
    let (back, actions) = press(&open, key('x'));
    assert!(actions.is_empty());
    assert_eq!(back.mode, Mode::FileList { len: 4, selected: 2, scroll: 1 });
}

#[test]
fn a_question_mark_is_a_character_in_the_composer_and_a_no_in_a_question() {
    let (s, actions) = press(&review(Mode::Editing { after_backslash: false }), key('?'));
    assert_eq!(actions, vec![Action::TypeKey]);
    assert_eq!(s.mode, Mode::Editing { after_backslash: false });
    let (s, actions) = press(&review(findings(1, true, true)), key('?'));
    assert!(actions.is_empty());
    assert_eq!(s.mode, findings(1, false, true));
    assert_eq!(s.status, Status::NothingDeleted);
    assert_eq!(s.status.text(), "nothing deleted");
}

#[test]
fn only_a_bare_y_answers_yes() {
    let (s, actions) = press(&review(findings(1, true, true)), key('y'));
    assert_eq!(actions, vec![Action::ClearFindings]);
    assert_eq!(s.mode, findings(1, false, true));
    let shifted = Key { code: Code::Char('y'), ctrl: false, shift: true, alt: false };
    let (s, actions) = press(&review(Mode::Publish), shifted);
    assert!(actions.is_empty());
    assert_eq!(s.mode, Mode::Normal);
    assert_eq!(s.status.text(), "nothing published");
    let (s, actions) = press(&review(Mode::DeleteComment), key('y'));
    assert_eq!(actions, vec![Action::StartDeleteComment]);
    assert_eq!(s.mode, Mode::Normal);
}

#[test]
fn the_findings_list_steps_and_stops_at_its_ends() {
    let (s, _) = press(&review(findings(0, false, false)), key('j'));
    assert_eq!(s.mode, findings(1, false, false));
    let (s, _) = press(&review(findings(4, false, false)), code(Code::Down));
    assert_eq!(s.mode, findings(4, false, false));
    let (s, _) = press(&review(findings(0, false, false)), key('k'));
    assert_eq!(s.mode, findings(0, false, false));
    // A list taller than the box: the scroll follows the selection.
    let mut tall = review(Mode::Findings { len: 30, rules: 0, selected: 9, scroll: 0, confirming: false, local: false });
    tall.body_rows = 10;
    let (s, _) = press(&tall, key('j'));
    assert_eq!(s.mode, Mode::Findings { len: 30, rules: 0, selected: 10, scroll: 4, confirming: false, local: false });
}

#[test]
fn capital_d_asks_only_when_a_note_is_local() {
    let (s, _) = press(&review(findings(0, false, true)), key('D'));
    assert_eq!(s.mode, findings(0, true, true));
    let (s, _) = press(&review(findings(0, false, false)), key('D'));
    assert_eq!(s.mode, findings(0, false, false));
    assert_eq!(
        s.status.text(),
        "nothing local to delete · dd deletes a published note on the forge"
    );
}

#[test]
fn a_first_d_waits_for_one_more_key_only() {
    let (s, actions) = press(&review(Mode::Normal), key('d'));
    assert!(actions.is_empty());
    assert!(s.pending_d);
    let (after, actions) = press(&s, key('d'));
    assert_eq!(actions, vec![Action::DeleteFindingAtCursor]);
    assert!(!after.pending_d);
    let (after, actions) = press(&s, key('g'));
    assert_eq!(actions, vec![Action::Top]);
    assert!(!after.pending_d);
    let (again, actions) = press(&after, key('d'));
    assert!(actions.is_empty());
    assert!(again.pending_d);
    // On the findings list, dd is about the listed entry.
    let mut listed = review(findings(3, false, true));
    listed.pending_d = true;
    assert_eq!(press(&listed, key('d')).1, vec![Action::DeleteListed(3)]);
}

#[test]
fn c_writes_on_a_hunk_edits_ones_own_comment_and_refuses_elsewhere() {
    let (s, actions) = press(&review(Mode::Normal), key('c'));
    assert!(actions.is_empty());
    assert_eq!(s.status.text(), "move onto a hunk first");
    let mut on_hunk = review(Mode::Normal);
    on_hunk.here.in_hunk = true;
    on_hunk.visual = Some(3);
    let (s, actions) = press(&on_hunk, key('c'));
    assert_eq!(actions, vec![Action::OpenComposer]);
    assert_eq!(s.mode, Mode::Editing { after_backslash: false });
    assert_eq!(s.visual, None);
    let mut theirs = review(Mode::Normal);
    theirs.here.thread = true;
    assert_eq!(press(&theirs, key('c')).0.status.text(), "not your comment · r replies · x resolves");
    theirs.here.own_comment = true;
    assert_eq!(press(&theirs, key('c')).1, vec![Action::EditOwnComment]);
    assert_eq!(press(&review(Mode::Normal), key('r')).0.status, Status::RepliesNeedAThread);
}

#[test]
fn v_opens_and_closes_a_selection_on_a_line() {
    let mut on_line = review(Mode::Normal);
    on_line.here.has_line = true;
    let (s, _) = press(&on_line, key('v'));
    assert_eq!(s.visual, Some(7));
    let (s, _) = press(&s, key('v'));
    assert_eq!(s.visual, None);
    let (s, _) = press(&review(Mode::Normal), key('v'));
    assert_eq!(s.status.text(), "move onto a line first");
}

#[test]
fn a_key_clears_the_last_message() {
    let mut told = review(Mode::Normal);
    told.status = Status::FindingDiscarded;
    let (s, _) = press(&told, key('g'));
    assert_eq!(s.status, Status::Clear);
}

#[test]
fn the_composer_saves_on_enter_and_breaks_a_line_after_a_backslash() {
    let (s, actions) = press(&review(Mode::Editing { after_backslash: false }), code(Code::Enter));
    assert_eq!(actions, vec![Action::SaveDraft]);
    assert_eq!(s.mode, Mode::Normal);
    let (_, actions) = press(&review(Mode::Editing { after_backslash: true }), code(Code::Enter));
    assert_eq!(actions, vec![Action::BackslashToNewline]);
    let (s, _) = press(&review(Mode::Editing { after_backslash: false }), code(Code::Esc));
    assert_eq!(s.status.text(), "finding discarded");
}

#[test]
fn sideways_keys_shift_the_diff_by_one_indent_step() {
    assert_eq!(press(&review(Mode::Normal), key('l')).1, vec![Action::ShiftPane(Some(SHIFT_STEP))]);
    assert_eq!(press(&review(Mode::Normal), key('h')).1, vec![Action::ShiftPane(Some(-8))]);
    assert_eq!(press(&review(Mode::Normal), key('0')).1, vec![Action::ShiftPane(None)]);
    let mut plan = review(Mode::Normal);
    plan.focus = Focus::Groups;
    assert_eq!(press(&plan, key('l')).1, Vec::<Action>::new());
    assert_eq!(press(&plan, key('j')).1, vec![Action::NextEntry]);
    assert_eq!(press(&plan, code(Code::Tab)).0.focus, Focus::Detail);
}

#[test]
fn z_opens_the_context_before_anything_else_it_could_do() {
    let mut edge = review(Mode::Normal);
    edge.here.context_edge = true;
    edge.here.peekable = true;
    assert_eq!(press(&edge, key('z')).1, vec![Action::ExpandAtCursor]);
    edge.here.context_edge = false;
    assert_eq!(press(&edge, key('z')).1, vec![Action::StepPeek]);
    let mut tree = review(Mode::Normal);
    tree.focus = Focus::Groups;
    tree.view = ViewMode::Files;
    assert_eq!(press(&tree, key('z')).1, vec![Action::ToggleDir]);
}

fn click(place: Place) -> Pointer {
    Pointer { gesture: Gesture::Click, held: false, place }
}

#[test]
fn a_click_selects_a_listed_file_then_opens_it_and_off_the_box_closes_it() {
    let list = review(Mode::FileList { len: 5, selected: 1, scroll: 1 });
    let (s, actions) = handle_mouse(&list, click(Place::InBox(2)), &[]);
    assert!(actions.is_empty());
    assert_eq!(s.mode, Mode::FileList { len: 5, selected: 3, scroll: 1 });
    let (_, actions) = handle_mouse(&s, click(Place::InBox(2)), &[]);
    assert_eq!(actions, vec![Action::JumpToListedFile]);
    let (past, _) = handle_mouse(&list, click(Place::InBox(9)), &[]);
    assert_eq!(past.mode, list.mode);
    let (closed, _) = handle_mouse(&list, click(Place::OffBox), &[]);
    assert_eq!(closed.mode, Mode::Normal);
    let wheel = Pointer { gesture: Gesture::WheelDown, held: false, place: Place::InBox(0) };
    assert_eq!(handle_mouse(&list, wheel, &[]).0.mode, Mode::FileList { len: 5, selected: 2, scroll: 1 });
}

#[test]
fn a_click_on_the_findings_list_lands_on_the_entry_drawn_there() {
    // Rules before entries 0 and 3. At the top, the first rule is skipped
    // with the list's start: entry 0 on line 0, entries 1 and 2 on lines 1
    // and 2, a rule on line 3, entry 3 on line 4.
    let rules = [0usize, 3];
    let list = review(findings(0, false, false));
    assert_eq!(handle_mouse(&list, click(Place::InBox(0)), &rules).1, vec![Action::JumpToListedFinding]);
    assert_eq!(handle_mouse(&list, click(Place::InBox(1)), &rules).0.mode, findings(1, false, false));
    assert_eq!(handle_mouse(&list, click(Place::InBox(3)), &rules).0.mode, findings(0, false, false));
    assert_eq!(handle_mouse(&list, click(Place::InBox(3)), &rules).1, Vec::<Action>::new());
    assert_eq!(handle_mouse(&list, click(Place::InBox(4)), &rules).0.mode, findings(3, false, false));
    // Scrolled to entry 3: its rule and everything above are skipped.
    let scrolled = review(Mode::Findings { len: 5, rules: 2, selected: 3, scroll: 3, confirming: false, local: false });
    let (s, _) = handle_mouse(&scrolled, click(Place::InBox(1)), &rules);
    assert_eq!(s.mode, Mode::Findings { len: 5, rules: 2, selected: 4, scroll: 3, confirming: false, local: false });
    // While D waits, a click is the answer no.
    let (s, _) = handle_mouse(&review(findings(2, true, true)), click(Place::InBox(1)), &rules);
    assert_eq!(s.mode, findings(2, false, true));
    assert_eq!(s.status, Status::NothingDeleted);
}

#[test]
fn the_pointer_focuses_the_pane_it_is_over_and_a_held_key_turns_the_wheel() {
    let mut plan = review(Mode::Normal);
    plan.focus = Focus::Detail;
    let down = Pointer { gesture: Gesture::WheelDown, held: false, place: Place::Plan(Some(2)) };
    let (s, actions) = handle_mouse(&plan, down, &[]);
    assert_eq!(s.focus, Focus::Groups);
    assert_eq!(actions, vec![Action::StepEntry(1)]);
    let sideways = Pointer { gesture: Gesture::WheelUp, held: true, place: Place::Detail(None) };
    let (s, actions) = handle_mouse(&s, sideways, &[]);
    assert_eq!(s.focus, Focus::Detail);
    assert_eq!(actions, vec![Action::ShiftPane(Some(-SHIFT_STEP))]);
    assert_eq!(handle_mouse(&s, click(Place::Detail(Some(4))), &[]).1, vec![Action::ClickDetailLine(4)]);
    assert_eq!(handle_mouse(&s, click(Place::Float), &[]).1, Vec::<Action>::new());
    let (s, _) = handle_mouse(&review(Mode::Help { from: Back::Normal }), click(Place::Nowhere), &[]);
    assert_eq!(s.mode, Mode::Normal);
}

#[test]
fn a_poll_keeps_the_call_only_while_its_answer_is_out() {
    assert_eq!(poll(None, Reply::Came), (None, Polled::Nothing));
    assert_eq!(poll(Some(Call::Fetch), Reply::Empty), (Some(Call::Fetch), Polled::StillWaiting));
    assert_eq!(poll(Some(Call::Publish), Reply::Gone), (None, Polled::Lost));
    assert_eq!(poll(Some(Call::Edit), Reply::Came), (None, Polled::Answered(Call::Edit)));
    assert!(!changed(Polled::StillWaiting));
    assert!(changed(Polled::Lost));
    assert_eq!(lost_status(), "the forge call was lost");
    assert_eq!(refusal(false, true), Some("this review is not of a pull request"));
    assert_eq!(refusal(true, true), Some("still syncing with the forge"));
    assert_eq!(refusal(true, false), None);
}

#[test]
fn the_footer_counts_what_a_fetch_brought() {
    assert_eq!(fetched_status(0, 0, 0), "no review threads on the request");
    assert_eq!(fetched_status(1, 0, 0), "1 review thread");
    assert_eq!(
        fetched_status(12, 3, 1),
        "12 review threads · 3 with no line in this diff · 1 finding found already published"
    );
    assert_eq!(plural(1), "");
    assert_eq!(plural(0), "s");
}

#[test]
fn the_footer_says_how_much_of_a_publish_landed() {
    assert_eq!(published_status(2, 2, false, None, None), "published 2 comments");
    assert_eq!(published_status(1, 1, false, None, None), "published 1 comment");
    assert_eq!(
        published_status(1, 3, false, None, None),
        "published 1 of 3 · 2 not confirmed by the forge, R to check, P to retry"
    );
    assert_eq!(
        published_status(1, 3, true, None, Some("timeout")),
        "published 1 of 3 · the forge stopped part-way · R to check, P to send the rest"
    );
    assert_eq!(
        published_status(3, 3, false, None, Some("timeout")),
        "published 3 of 3 · the threads could not be fetched back (timeout) · R to retry"
    );
    assert_eq!(published_status(3, 3, true, Some("disk full"), None), "save failed: disk full");
    assert_eq!(publishing_status(1), "publishing 1 comment…");
    assert_eq!(nothing_to_publish(0), "nothing to publish: every open finding is on the request");
    assert_eq!(nothing_to_publish(2), "nothing to publish · 2 findings the request's diff cannot hold");
}

#[test]
fn each_answer_has_its_words() {
    assert_eq!(resolved_status(true, true), "thread resolved");
    assert_eq!(resolved_status(true, false), "thread reopened");
    assert_eq!(resolved_status(false, true), "that thread is gone");
    assert_eq!(edited_status(true), "comment rewritten on the request");
    assert_eq!(deleted_status(true), "comment deleted on the request");
    assert_eq!(deleted_status(false), "that comment is gone");
    assert_eq!(failure_headline(Call::Fetch), "could not fetch review threads");
    assert_eq!(failure_headline(Call::Publish), "nothing published");
}

#[test]
fn a_sideways_shift_stops_at_the_left_edge_and_at_the_widest_line() {
    assert_eq!(shift_pane(false, 4, Some(-SHIFT_STEP), 100), Ok(0));
    assert_eq!(shift_pane(false, 4, Some(SHIFT_STEP), 100), Ok(12));
    assert_eq!(shift_pane(false, 96, Some(SHIFT_STEP), 100), Ok(100));
    assert_eq!(shift_pane(false, 40, None, 100), Ok(0));
    assert_eq!(shift_pane(true, 40, Some(SHIFT_STEP), 100), Err(Status::WrapIsOn));
    assert_eq!(Status::WrapIsOn.text(), "soft wrap is on · w turns it off");
}

#[test]
fn a_step_on_the_findings_list_counts_the_rule_lines_it_scrolls_past() {
    // Three entries in sections 0, 1, 1: one rule, before entry 1. Five body
    // rows leave a box of two lines; entry 1 and its rule fill it.
    let mut three = review(Mode::Findings { len: 3, rules: 1, selected: 0, scroll: 0, confirming: false, local: false });
    three.body_rows = 5;
    let (s, _) = handle_key(&three, key('j'), &[1]);
    assert_eq!(s.mode, Mode::Findings { len: 3, rules: 1, selected: 1, scroll: 1, confirming: false, local: false });
    let wheel = Pointer { gesture: Gesture::WheelDown, held: false, place: Place::InBox(0) };
    let (s, _) = handle_mouse(&three, wheel, &[1]);
    assert_eq!(s.mode, Mode::Findings { len: 3, rules: 1, selected: 1, scroll: 1, confirming: false, local: false });
    // Back up: the selection is above the scroll, which follows it.
    let (s, _) = handle_key(&s, key('k'), &[1]);
    assert_eq!(s.mode, Mode::Findings { len: 3, rules: 1, selected: 0, scroll: 0, confirming: false, local: false });
}
