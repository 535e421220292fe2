use differential_review::osc::clipboard::{self, MAX_PAYLOAD};
use differential_review::osc::notify::{self, FAILED, READY};
use differential_review::osc::progress::{self, Bar, State};
use differential_review::osc::Wrap;

#[test]
fn clipboard_a_plain_terminal_gets_the_bare_sequence() {
    let s = clipboard::sequence("hi", Wrap::Bare).unwrap();
    assert_eq!(s, "\x1b]52;c;aGk=\x07");
}

#[test]
fn an_oversized_payload_is_refused_rather_than_cut() {
    let big = "x".repeat(MAX_PAYLOAD);
    assert!(clipboard::sequence(&big, Wrap::Bare).is_none());
    let ok = "x".repeat(MAX_PAYLOAD / 2);
    assert!(clipboard::sequence(&ok, Wrap::Bare).is_some());
}

#[test]
fn the_payload_cap_is_on_the_encoded_length() {
    // 6144 bytes encode to exactly 8192: at the cap, still sent.
    let edge = "y".repeat(MAX_PAYLOAD / 4 * 3);
    let s = clipboard::sequence(&edge, Wrap::Bare).unwrap();
    assert_eq!(s.len(), "\x1b]52;c;".len() + MAX_PAYLOAD + 1);
    let over = "y".repeat(MAX_PAYLOAD / 4 * 3 + 1);
    assert!(clipboard::sequence(&over, Wrap::Bare).is_none());
    assert_eq!(clipboard::sequence("", Wrap::Bare).unwrap(), "\x1b]52;c;\x07");
}

#[test]
fn notify_a_plain_terminal_gets_the_bare_sequence() {
    assert_eq!(notify::sequence(READY, Wrap::Bare), "\x1b]9;dfr: the review is ready\x1b\\");
}

#[test]
fn no_title_can_be_mistaken_for_a_progress_command() {
    for title in [READY, FAILED] {
        let head: String = title.chars().take_while(char::is_ascii_digit).collect();
        assert!(
            head.is_empty() || !title[head.len()..].starts_with(';'),
            "{title:?} reads as OSC 9;{head} — a progress command"
        );
    }
}

#[test]
fn each_state_has_its_conemu_number() {
    let at = |s| progress::sequence(s, Wrap::Bare);
    assert_eq!(at(State::At(37)), "\x1b]9;4;1;37\x1b\\");
    assert_eq!(at(State::Working), "\x1b]9;4;3\x1b\\");
    assert_eq!(at(State::Clear), "\x1b]9;4;0\x1b\\");
}

#[test]
fn a_percentage_never_leaves_here_above_a_hundred() {
    assert_eq!(progress::sequence(State::At(255), Wrap::Bare), "\x1b]9;4;1;100\x1b\\");
    assert_eq!(progress::sequence(State::At(100), Wrap::Bare), "\x1b]9;4;1;100\x1b\\");
    assert_eq!(progress::sequence(State::At(0), Wrap::Bare), "\x1b]9;4;1;0\x1b\\");
}

#[test]
fn a_bar_sends_what_its_state_asks_and_clears_itself() {
    let bar = Bar::new(Wrap::Bare);
    assert_eq!(bar.set(State::At(5)), "\x1b]9;4;1;5\x1b\\");
    assert_eq!(bar.clear(), "\x1b]9;4;0\x1b\\");
}
