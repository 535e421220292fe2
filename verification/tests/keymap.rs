use differential_review::acts::{acts_of, everywhere, moving};
use differential_review::help::Area;
use differential_review::keymap::{Action, Binding, KeyProblem, Keymap, Lookup, Override, Screen};
use differential_review::keys::{Code, Key, ViewMode};
use differential_review::search::Reading;

const ALL_SCREENS: [Screen; 3] = [Screen::Review, Screen::FileList, Screen::Findings];

const ALL_ACTIONS: [Action; 34] = [
    Action::ToggleFocus, Action::Open, Action::Close, Action::Down, Action::Up, Action::NextGroup,
    Action::PrevGroup, Action::HalfPageDown, Action::HalfPageUp, Action::Top, Action::Bottom,
    Action::NextHunk, Action::PrevHunk, Action::ToggleSplit, Action::ToggleWrap, Action::ShiftRight,
    Action::ShiftLeft, Action::ShiftReset, Action::GrowDiff, Action::ShrinkDiff, Action::Fold,
    Action::Files, Action::Findings, Action::Search, Action::ToggleReviewed, Action::Select,
    Action::Comment, Action::Delete, Action::ClearNotes, Action::Copy, Action::Reply, Action::Resolve,
    Action::Refetch, Action::Publish,
];

fn press(code: Code, ctrl: bool, shift: bool, alt: bool) -> Key {
    Key { code, ctrl, shift, alt }
}

fn ch(c: char) -> Key {
    press(Code::Char(c), false, false, false)
}

fn bind(keys: &[Key]) -> Binding {
    Binding::new(keys)
}

/// The reader's keys: each action with the bindings given, already read.
fn keys(pairs: Vec<(Action, Vec<Result<Binding, String>>)>) -> Vec<Override> {
    pairs.into_iter().map(|(action, keys)| Override { action, keys }).collect()
}

fn act(map: &Keymap, screen: Screen, key: Key) -> Lookup {
    map.lookup(screen, &[], key)
}

fn is_act(l: &Lookup, a: Action) -> bool {
    matches!(l, Lookup::Act(x) if *x == a)
}

#[test]
fn the_defaults_have_no_problems() {
    assert!(Keymap::new(&[]).is_ok());
}

#[test]
fn the_defaults_answer_as_the_reviewer_always_did() {
    let map = Keymap::new(&[]).unwrap();
    let r = Screen::Review;
    let cases = [
        (ch('j'), Action::Down),
        (press(Code::Down, false, false, false), Action::Down),
        (ch('J'), Action::NextGroup),
        // The terminal's spelling of the same press.
        (press(Code::Char('J'), false, true, false), Action::NextGroup),
        (press(Code::Char('j'), false, true, false), Action::NextGroup),
        (ch('}'), Action::NextGroup),
        (press(Code::Char('d'), true, false, false), Action::HalfPageDown),
        (press(Code::Char('='), false, false, true), Action::GrowDiff),
        // `+` with its shift reported, as the keyboard enhancements do.
        (press(Code::Char('+'), false, true, true), Action::GrowDiff),
        (press(Code::Char('-'), false, false, true), Action::ShrinkDiff),
        (ch(' '), Action::ToggleReviewed),
        (press(Code::Tab, false, false, false), Action::ToggleFocus),
    ];
    for (key, want) in cases {
        assert!(is_act(&act(&map, r, key), want), "{key:?}");
    }
    // A modifier nobody bound is not the bare key.
    assert!(matches!(act(&map, r, press(Code::Char('j'), true, false, false)), Lookup::Nothing));
    // One key, a different action per screen.
    assert!(is_act(&act(&map, r, ch('f')), Action::Files));
    assert!(is_act(&act(&map, Screen::FileList, ch('f')), Action::Files));
    // `q` and `?` are no action's: they are answered before the map.
    assert!(matches!(act(&map, r, ch('q')), Lookup::Nothing));
    assert!(matches!(act(&map, r, ch('?')), Lookup::Nothing));
}

#[test]
fn a_sequence_waits_and_a_stray_press_is_read_on_its_own() {
    let map = Keymap::new(&[]).unwrap();
    let r = Screen::Review;
    let Lookup::Pending(d) = act(&map, r, ch('d')) else {
        panic!("d starts dd");
    };
    assert!(is_act(&map.lookup(r, &d, ch('d')), Action::Delete));
    assert!(is_act(&map.lookup(r, &d, ch('j')), Action::Down));
    assert!(matches!(map.lookup(r, &d, ch('!')), Lookup::Nothing));
}

#[test]
fn a_bound_action_takes_exactly_the_keys_given() {
    let ctrl_j = press(Code::Char('j'), true, false, false);
    let map = Keymap::new(&keys(vec![(Action::NextGroup, vec![Ok(bind(&[ctrl_j]))])])).unwrap();
    let r = Screen::Review;
    assert!(is_act(&act(&map, r, ctrl_j), Action::NextGroup));
    assert!(matches!(act(&map, r, ch('J')), Lookup::Nothing), "the default is gone");
    assert!(matches!(act(&map, r, ch('}')), Lookup::Nothing), "every default is gone");
    assert_eq!(map.first(r, Action::NextGroup).unwrap().text(), "ctrl-j");
}

#[test]
fn a_rebinding_holds_in_every_screen_the_action_works_in() {
    let map = Keymap::new(&keys(vec![(Action::Down, vec![Ok(bind(&[ch('e')]))])])).unwrap();
    for screen in ALL_SCREENS {
        assert!(is_act(&act(&map, screen, ch('e')), Action::Down));
        assert!(matches!(act(&map, screen, ch('j')), Lookup::Nothing));
    }
}

#[test]
fn an_empty_list_unbinds() {
    let map = Keymap::new(&keys(vec![(Action::Publish, vec![])])).unwrap();
    assert!(matches!(act(&map, Screen::Review, ch('P')), Lookup::Nothing));
    assert!(map.first(Screen::Review, Action::Publish).is_none());
    assert_eq!(map.says(Screen::Review, Action::Publish, "publishes"), None);
    assert_eq!(map.says(Screen::Review, Action::ToggleWrap, "turns it off").as_deref(), Some("w turns it off"));
}

fn clash_of(p: &KeyProblem) -> Option<(Screen, Action, String, Action, String)> {
    match p {
        KeyProblem::Clash { screen, first, first_key, second, second_key } => {
            Some((*screen, *first, first_key.text(), *second, second_key.text()))
        }
        _ => None,
    }
}

#[test]
fn a_clash_names_both_actions_and_the_screen() {
    let Err(problems) = Keymap::new(&keys(vec![(Action::Delete, vec![Ok(bind(&[ch('j')]))])])) else {
        panic!("j is down's");
    };
    let clashes: Vec<_> = problems.iter().filter_map(clash_of).collect();
    assert_eq!(
        clashes,
        vec![
            (Screen::Review, Action::Down, "j".to_string(), Action::Delete, "j".to_string()),
            // Delete works in the findings list too, and `j` moves there as well.
            (Screen::Findings, Action::Down, "j".to_string(), Action::Delete, "j".to_string()),
        ]
    );
    assert_eq!(Screen::Review.title(), "the review");
    assert_eq!(Screen::Findings.title(), "the findings list");
}

#[test]
fn a_key_that_starts_another_is_a_clash() {
    let Err(problems) = Keymap::new(&keys(vec![(Action::Fold, vec![Ok(bind(&[ch('d')]))])])) else {
        panic!("d starts dd");
    };
    let clashes: Vec<_> = problems.iter().filter_map(clash_of).collect();
    assert_eq!(
        clashes,
        vec![(Screen::Review, Action::Fold, "d".to_string(), Action::Delete, "dd".to_string())],
        "the shorter key first: it is the one that makes the longer unpressable"
    );
}

#[test]
fn screens_that_do_not_meet_do_not_clash() {
    // `D` clears the findings list's notes, and the review has no `D`.
    assert!(Keymap::new(&keys(vec![(Action::Refetch, vec![Ok(bind(&[ch('D')]))])])).is_ok());
}

#[test]
fn the_reserved_keys_are_nobodys() {
    for key in [press(Code::Char('c'), true, false, false), ch('q'), ch('?')] {
        let Err(problems) = Keymap::new(&keys(vec![(Action::Copy, vec![Ok(bind(&[key]))])])) else {
            panic!("{key:?} is reserved");
        };
        assert_eq!(problems.len(), 1);
        assert!(matches!(&problems[0], KeyProblem::Reserved { action: Action::Copy, .. }));
    }
}

#[test]
fn every_problem_is_reported_at_once() {
    let Err(problems) = Keymap::new(&keys(vec![
        (Action::Copy, vec![Ok(bind(&[press(Code::Char('c'), true, false, false)]))]),
        (Action::Top, vec![Err("\"nope\" is not a key".to_string())]),
        (Action::Reply, vec![Ok(bind(&[ch('j')]))]),
    ])) else {
        panic!("three problems");
    };
    // In the table's order: `top` comes before `copy`, and clashes come last.
    assert_eq!(problems.len(), 3);
    assert!(matches!(&problems[0], KeyProblem::Unparsed { action: Action::Top, why } if why == "\"nope\" is not a key"));
    assert!(matches!(&problems[1], KeyProblem::Reserved { action: Action::Copy, .. }));
    assert!(matches!(&problems[2], KeyProblem::Clash { screen: Screen::Review, first: Action::Down, second: Action::Reply, .. }));
}

#[test]
fn keys_are_written_as_a_reader_writes_them() {
    assert_eq!(bind(&[ch('J')]).text(), "J");
    assert_eq!(bind(&[press(Code::Char('j'), false, true, false)]).text(), "J");
    assert_eq!(bind(&[press(Code::Char('d'), true, false, false)]).text(), "ctrl-d");
    assert_eq!(bind(&[press(Code::Char('-'), false, false, true)]).text(), "alt--");
    assert_eq!(bind(&[press(Code::Enter, false, false, false)]).text(), "enter");
    assert_eq!(bind(&[ch(' ')]).text(), "space");
    assert_eq!(bind(&[press(Code::Down, false, false, false)]).text(), "down");
    assert_eq!(bind(&[ch('d'), ch('d')]).text(), "dd");
    assert_eq!(bind(&[press(Code::Char('x'), true, false, false), ch('k')]).text(), "ctrl-x k");
    assert_eq!(bind(&[press(Code::Tab, false, true, false)]).text(), "shift-tab");
}

#[test]
fn a_binding_presses_what_it_names() {
    let map = Keymap::new(&[]).unwrap();
    for screen in ALL_SCREENS {
        for a in ALL_ACTIONS {
            for b in map.bindings(screen, a) {
                let mut pending: Vec<Key> = Vec::new();
                let mut last = Lookup::Nothing;
                for key in b.presses() {
                    last = map.lookup(screen, &pending, key);
                    if let Lookup::Pending(p) = &last {
                        pending = p.clone();
                    }
                }
                assert!(is_act(&last, a), "{} in {}", b.text(), screen.title());
            }
        }
    }
}

fn rows_of(area: Area) -> Vec<(String, String, Option<String>, String)> {
    let map = Keymap::new(&[]).unwrap();
    acts_of(&map, area, ViewMode::Groups, Reading::Literal)
        .into_iter()
        .map(|a| (a.key, a.short, a.footer, a.help))
        .collect()
}

#[test]
fn a_row_of_two_actions_reads_their_keys_as_pairs() {
    let rows = rows_of(Area::Selecting);
    assert_eq!(rows[0].0, "j/k · down/up");
    assert_eq!(rows[0].1, "j/k");
    assert_eq!(rows[0].2.as_deref(), Some("extend"));
    let map = Keymap::new(&[]).unwrap();
    let plan = acts_of(&map, Area::Plan, ViewMode::Files, Reading::Literal);
    assert_eq!(plan.len(), 4);
    assert_eq!(plan[0].key, "enter");
    assert_eq!(plan[0].presses, vec![Key { code: Code::Enter, ctrl: false, shift: false, alt: false }]);
    assert_eq!(plan[2].footer.as_deref(), Some("plan"), "the label says where the key goes");
    assert_eq!(plan[3].footer, None);
}

#[test]
fn a_row_names_the_keys_the_reader_bound() {
    let diff = rows_of(Area::Diff);
    assert_eq!(diff[5].3, "the file list (enter jumps)");
    let lists = rows_of(Area::Findings);
    assert_eq!(lists[5].3, "close the list · so do q and F");
    let theirs = rows_of(Area::Thread { own: false, resolved: true });
    assert_eq!(theirs[1].2.as_deref(), Some("reopen"));
    assert_eq!((theirs[2].0.as_str(), theirs[2].3.as_str()), ("c · dd", "not yours — r replies to it"));
    // Unbind the file list's `enter` and the words stop naming it.
    let map = Keymap::new(&keys(vec![(Action::Open, vec![])])).unwrap();
    let diff = acts_of(&map, Area::Diff, ViewMode::Groups, Reading::Literal);
    assert_eq!(diff[5].help, "the file list");
    // A row whose every key is unbound is not there at all.
    let plan = acts_of(&map, Area::Plan, ViewMode::Groups, Reading::Literal);
    assert_eq!(plan.len(), 3);
}

#[test]
fn the_search_says_what_ctrl_r_will_do() {
    let map = Keymap::new(&[]).unwrap();
    let literal = acts_of(&map, Area::Search, ViewMode::Groups, Reading::Literal);
    assert_eq!(literal[1].footer.as_deref(), Some("regexp"));
    let regexp = acts_of(&map, Area::Search, ViewMode::Groups, Reading::Regexp);
    assert_eq!(regexp[1].footer.as_deref(), Some("literal"));
    assert_eq!(rows_of(Area::Reading).len(), 1);
}

#[test]
fn a_problem_written_twice_is_reported_once() {
    let Err(problems) = Keymap::new(&keys(vec![(Action::Copy, vec![Ok(bind(&[ch('q')])), Ok(bind(&[ch('q')]))])])) else {
        panic!("q is reserved");
    };
    assert_eq!(problems.len(), 1);
}

#[test]
fn the_help_lists_moving_and_the_keys_that_hold_anywhere() {
    let map = Keymap::new(&[]).unwrap();
    let plan = moving(&map, Area::Plan);
    assert_eq!((plan[0].key.as_str(), plan[0].help.as_str()), ("j/k · down/up", "switch group"));
    assert_eq!(plan[1].key, "J/K · }/{");
    assert_eq!(moving(&map, Area::Selecting).len(), 5, "in a selection j/k is the selection's");
    let anywhere = everywhere(&map);
    assert_eq!(anywhere.len(), 12);
    assert_eq!(anywhere[2].key, "h/l · left/right");
    assert_eq!(anywhere[11].key, "q · ctrl-c");
    assert!(anywhere.iter().all(|a| a.footer.is_none()));
}

#[test]
fn every_action_has_a_default_somewhere() {
    // An action with no row would be bindable and do nothing anywhere, which
    // is a knob that looks like it works.
    let map = Keymap::new(&[]).unwrap();
    for a in ALL_ACTIONS {
        assert!(ALL_SCREENS.iter().any(|s| !map.bindings(*s, a).is_empty()), "{a:?} has no default row");
    }
}
