use differential_review::fake::FakeBackend;
use differential_review::prompts::{ids_in_prompt, json_group};

#[test]
fn the_ids_are_read_from_the_last_line_that_says_anything() {
    let prompt = "Group these.\nC1 C2 are old\n\nC3 C10 Cx C C4a 7\n  \n\t\n";
    assert_eq!(ids_in_prompt(prompt), ["C3", "C10", "C"]);
    assert!(ids_in_prompt("").is_empty());
    assert!(ids_in_prompt(" \n\u{3000}\n").is_empty(), "blank by Unicode's measure");
    assert_eq!(ids_in_prompt("C1\u{a0}C2\r\n"), ["C1", "C2"]);
}

#[test]
fn a_group_object_quotes_each_class_and_joins_them() {
    assert_eq!(
        json_group("rename", "low", &["C1", "C2"]),
        r#"{"label": "rename", "description": "d", "classes": ["C1", "C2"], "effort": "low", "reason": "r"}"#
    );
    assert_eq!(
        json_group("x", "high", &[]),
        r#"{"label": "x", "description": "d", "classes": [], "effort": "high", "reason": "r"}"#
    );
}

#[test]
fn the_fake_model_answers_from_the_ids_and_keeps_count() {
    let mut model = FakeBackend::new("fake", |ids: &[String]| ids.join("+"));
    assert_eq!(model.name(), "fake");
    assert_eq!(model.calls(), 0);
    assert_eq!(model.last_prompt(), "");
    let first = "Group these classes.\nC1 C2 x C10 C3a\n\n";
    assert_eq!(model.complete(first), "C1+C2+C10");
    assert_eq!(model.complete("no ids here"), "");
    assert_eq!(model.calls(), 2);
    assert_eq!(model.last_prompt(), "no ids here");
}
