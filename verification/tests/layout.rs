use differential_review::lines::{line_count, split};
use differential_review::lists::{plural, section_rules, FileListEntry, FindingEntry};
use differential_review::panes::{
    centered_rect, centered_x, clamp_cols, composer_area, delete_comment_area, divider, file_list_modal_area, findings_modal_area,
    footer_fits, footer_row, half_widths, pane_inner, publish_area, split_point, Panes, Rect, FRAME_ROWS,
};
use differential_review::search::{rank_and_cut, sort_by_rank, Occurrence, Reading, MOST_HITS};
use differential_review::summary::summary_fallback;
use differential_review::text::{
    basename, findings_entry_at_line, findings_skip, search_list_rows, search_preview_rows, step_list,
};
use differential_review::tree::guides_for_depths;

fn rect(x: u16, y: u16, width: u16, height: u16) -> Rect {
    Rect { x, y, width, height }
}

#[test]
fn a_divider_keeps_both_floors_and_splits_a_narrow_span_down_the_middle() {
    assert_eq!(split_point(50, 100, 20), 50);
    assert_eq!(split_point(5, 100, 20), 20);
    assert_eq!(split_point(95, 100, 20), 80);
    assert_eq!(split_point(7, 30, 20), 15, "no room for two floors");
    assert_eq!(split_point(split_point(95, 100, 20), 100, 20), 80, "clamping twice changes nothing");
    assert_eq!(clamp_cols(40, 200), 40);
    assert_eq!(clamp_cols(10, 200), 20);
    assert_eq!(clamp_cols(190, 200), 180);
    assert_eq!(clamp_cols(40, 30), 15);
}

#[test]
fn the_divider_paints_on_the_left_panes_edge_and_the_next_column() {
    let r = rect(0, 0, 0, 0);
    let panes = Panes { body: r, plan: rect(0, 0, 40, 20), detail: r, status: r };
    assert_eq!(divider(&panes), (39, 40));
    let squeezed = Panes { body: r, plan: rect(0, 0, 0, 20), detail: r, status: r };
    assert_eq!(divider(&squeezed), (0, 0));
}

#[test]
fn a_split_row_gives_the_spare_column_to_the_right() {
    assert_eq!(half_widths(0), (0, 0));
    assert_eq!(half_widths(10), (4, 5));
    assert_eq!(half_widths(11), (5, 5));
}

#[test]
fn a_box_is_clamped_to_the_body_and_centred_in_it() {
    let body = rect(0, 0, 100, 40);
    assert_eq!(centered_rect(body, 86, 10), rect(7, 15, 86, 10));
    assert_eq!(centered_rect(body, 200, 100), body);
    assert_eq!(publish_area(body, 5), rect(5, 16, 90, 7));
    assert_eq!(delete_comment_area(body, 5), rect(10, 16, 80, 7));
    assert!(footer_fits(rect(0, 0, 10, 7), 5));
    assert!(!footer_fits(rect(0, 0, 10, 6), 5), "a clipped box hides its footer");
    assert_eq!(centered_x(rect(3, 0, 20, 1), 10), 8);
    assert_eq!(centered_x(rect(3, 0, 20, 1), 30), 3);
}

#[test]
fn the_modal_boxes_grow_with_what_they_hold() {
    let body = rect(0, 0, 120, 30);
    assert_eq!(findings_modal_area(body, 5, 2), rect(17, 9, 86, 11));
    assert_eq!(findings_modal_area(body, 50, 2), rect(17, 0, 86, 30));
    let entries = [FileListEntry { path: "src/f.rs".into(), row_idx: 0, adds: 3, dels: 1, reviewed: false }];
    assert_eq!(file_list_modal_area(rect(0, 0, 200, 50), &entries), rect(65, 23, 70, 3));
}

fn finding(orphaned: bool, thread: bool) -> FindingEntry {
    FindingEntry {
        id: "f".into(),
        at: "a.rs:1".into(),
        body: "b".into(),
        orphaned,
        moved: false,
        thread,
        published: false,
        resolved: false,
    }
}

#[test]
fn a_rule_starts_every_section_after_the_first() {
    let list = [finding(false, false), finding(false, false), finding(false, true), finding(true, true)];
    assert_eq!(list.iter().map(|e| e.section()).collect::<Vec<_>>(), [0, 0, 1, 2]);
    assert_eq!(section_rules(&list), [2, 3]);
    assert!(section_rules(&list[..1]).is_empty());
    assert_eq!(plural(1), "");
    assert_eq!(plural(0), "s");
}

#[test]
fn a_rule_takes_a_line_of_its_own() {
    let rules = [2, 3];
    assert_eq!(findings_entry_at_line(4, &rules, 0), Some(0));
    assert_eq!(findings_entry_at_line(4, &rules, 2), None, "the rule above entry 2");
    assert_eq!(findings_entry_at_line(4, &rules, 3), Some(2));
    assert_eq!(findings_entry_at_line(4, &rules, 5), Some(3));
    assert_eq!(findings_entry_at_line(4, &rules, 6), None, "past the end");
    assert_eq!(findings_skip(2, &rules), 3);
    assert_eq!(findings_skip(0, &rules), 0);
}

#[test]
fn a_list_step_stops_at_either_end_and_keeps_the_window() {
    let (mut selected, mut scroll) = (0usize, 0usize);
    step_list(&mut selected, &mut scroll, 3, 2, false);
    assert_eq!((selected, scroll), (0, 0));
    for _ in 0..5 {
        step_list(&mut selected, &mut scroll, 3, 2, true);
    }
    assert_eq!((selected, scroll), (2, 1));
    let (mut s, mut t) = (4usize, 0usize);
    step_list(&mut s, &mut t, 0, 2, true);
    assert_eq!(s, 0, "an empty list has nothing below");
}

#[test]
fn the_search_box_splits_a_third_for_the_list() {
    assert_eq!(search_list_rows(40), 7);
    assert_eq!(search_preview_rows(40), 15);
    assert_eq!(search_list_rows(100), 7);
    assert_eq!(search_list_rows(3), 1, "a floor of one row");
    assert_eq!(search_preview_rows(3), 0);
}

#[test]
fn a_basename_is_what_follows_the_last_slash() {
    assert_eq!(basename("src/app/mod.rs"), "mod.rs");
    assert_eq!(basename("README.md"), "README.md");
    assert_eq!(basename("dir/"), "");
}

#[test]
fn a_file_has_one_line_more_than_it_has_newlines() {
    assert_eq!(line_count(b""), 1);
    assert_eq!(line_count(b"a\nb\n"), 3);
    let pieces = split(b"a\r\nb");
    assert_eq!(pieces, [b"a\r".as_slice(), b"b".as_slice()]);
}

#[test]
fn a_guide_names_the_siblings_still_below() {
    assert_eq!(guides_for_depths(&[0]), ["└─"], "a lone row is the last of its level");
    assert_eq!(guides_for_depths(&[0, 1, 1, 0]), ["├─", "│ ├─", "│ └─", "└─"]);
}

#[test]
fn the_fallback_says_what_was_sent_and_how_to_get_it() {
    assert_eq!(summary_fallback(true, Some("a..b")), "sent via the terminal · dfr findings a..b --summary");
    assert_eq!(summary_fallback(false, None), "clipboard unavailable · dfr findings <range> --summary");
}

fn hit(here: bool, in_hunk: bool, group: Option<usize>, path: &str, line: u32) -> Occurrence {
    Occurrence { path: path.into(), line, hit: 0..1, group, badge: String::new(), here, in_hunk }
}

#[test]
fn the_ranking_puts_a_line_no_group_owns_last_and_keeps_the_best() {
    let hits = vec![
        hit(false, false, None, "a.rs", 1),
        hit(false, false, Some(4), "b.rs", 2),
        hit(false, false, Some(4), "a.rs", 9),
        hit(false, true, Some(7), "z.rs", 1),
    ];
    let sorted = sort_by_rank(hits);
    let order: Vec<(String, u32)> = sorted.iter().map(|o| (o.path.clone(), o.line)).collect();
    assert_eq!(
        order,
        [("z.rs".to_string(), 1), ("a.rs".to_string(), 9), ("b.rs".to_string(), 2), ("a.rs".to_string(), 1)]
    );
    let many: Vec<Occurrence> = (0..(MOST_HITS as u32 + 5)).map(|i| hit(false, false, Some(1), "a.rs", i)).collect();
    let cut = rank_and_cut(many);
    assert_eq!(cut.len(), MOST_HITS);
    assert_eq!(cut[0].line, 0);
    assert_eq!(cut[MOST_HITS - 1].line, MOST_HITS as u32 - 1);
    assert_eq!(Reading::Literal.flip(), Reading::Regexp);
    assert_eq!(Reading::Regexp.flip(), Reading::Literal);
}

#[test]
fn the_composer_is_three_fifths_wide_and_ten_rows_at_least() {
    let lines = vec!["hello".to_string(), "world".to_string(), String::new()];
    assert_eq!(composer_area(rect(0, 0, 100, 40), &lines), rect(20, 15, 60, 10));
}

#[test]
fn the_composer_grows_with_its_text_as_wrapped_not_as_typed() {
    // Forty four-letter words wrap to four rows at 58 columns (11, 11, 11, 7).
    let long = vec!["word"; 40].join(" ");
    let mut lines: Vec<String> = (0..10).map(|i| format!("line {i}")).collect();
    lines.push(long);
    // 10 + 4 rows of text, the frame, the footer and a spare row.
    assert_eq!(composer_area(rect(0, 0, 100, 40), &lines), rect(20, 11, 60, 18));
    // No taller than the body.
    let many: Vec<String> = (0..100).map(|i| format!("{i}")).collect();
    assert_eq!(composer_area(rect(0, 0, 100, 40), &many), rect(20, 0, 60, 40));
}

#[test]
fn the_frame_takes_frame_rows() {
    let area = rect(0, 0, 20, 10);
    let inner = pane_inner(area);
    assert_eq!(area.height - inner.height, FRAME_ROWS);
    assert_eq!(area.width - inner.width, FRAME_ROWS);
    assert_eq!(footer_row(area).y, inner.bottom() - 1);
}

#[test]
fn a_frame_on_a_box_too_small_for_it_leaves_nothing_inside() {
    assert_eq!(pane_inner(rect(3, 4, 1, 0)), rect(4, 4, 0, 0));
    assert_eq!(pane_inner(rect(3, 4, 0, 5)), rect(3, 5, 0, 3));
    assert_eq!(footer_row(rect(5, 5, 10, 4)), rect(6, 7, 8, 1));
    assert_eq!(rect(65530, 0, 10, 1).right(), u16::MAX);
}

#[test]
fn a_click_lands_on_the_entry_the_skip_counts_to() {
    let rules = [1, 3];
    for s in 0..5 {
        assert_eq!(findings_entry_at_line(5, &rules, findings_skip(s, &rules)), Some(s));
    }
    for r in rules {
        assert_eq!(findings_entry_at_line(5, &rules, findings_skip(r, &rules) - 1), None, "the rule's own line");
    }
    assert_eq!(findings_entry_at_line(5, &rules, 5 + rules.len()), None);
}
