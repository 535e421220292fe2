use differential_review::command::{commands, find, CommandLine, Input};
use differential_review::config::{config_lines, config_list_rows, config_row_at, ConfigLine};
use differential_review::help::{footer_hints, hint, modal_footer, modal_hints, Act, Area, Keys};
use differential_review::keymap::Screen;
use differential_review::launch::Outcome;
use differential_review::lists::FileListEntry;
use differential_review::peek::{drawn_columns, expand_tabs, TAB_WIDTH};
use differential_review::search::{matcher, rank, scan_file, Hunk, Occurrence, Reading, Search};
use differential_review::summary::summary_command;
use differential_review::text::{
    counts_columns, elide_head, file_list_rows, findings_follow, findings_rows, findings_step, follow, truncate_width,
};
use differential_review::tree::{build_tree, tree_guides, TreeEntry, TreeKind};
use unicode_width::UnicodeWidthStr;

#[test]
fn names_and_aliases_are_unique() {
    let mut all: Vec<&str> = commands()
        .iter()
        .flat_map(|c| std::iter::once(c.name).chain(c.aliases.iter().copied()))
        .collect();
    let before = all.len();
    all.sort_unstable();
    all.dedup();
    assert_eq!(all.len(), before, "two commands share a name");
}

fn typed(text: &str) -> CommandLine {
    let mut line = CommandLine::default();
    line.input = Input::new(text.to_string());
    line.edited();
    line
}

fn names(line: &CommandLine) -> Vec<&'static str> {
    line.candidates().iter().map(|c| c.name).collect()
}

#[test]
fn the_candidates_are_what_the_typed_name_could_become() {
    assert_eq!(names(&typed("")).len(), commands().len(), "empty lists them all");
    assert_eq!(names(&typed("f")), ["findings", "files"]);
    assert_eq!(names(&typed("fil")), ["files"]);
    assert_eq!(names(&typed("q")), ["quit"], "an alias matches its command");
    assert!(names(&typed("x")).is_empty());
    assert!(names(&typed("search foo")).is_empty(), "an argument is not a name");
    assert!(find("q").is_some_and(|c| c.name == "quit"));
}

#[test]
fn the_ghost_is_the_rest_of_the_first_candidate() {
    assert_eq!(typed("fi").ghost(), Some("ndings"));
    assert_eq!(typed("files").ghost(), None, "nothing left to add");
    assert_eq!(typed("").ghost(), None, "no name begun, no guess");
}

#[test]
fn walking_fills_the_line_and_keeps_the_typed_list() {
    let mut line = typed("f");
    line.walk(1);
    assert_eq!(line.input.value(), "findings");
    line.walk(1);
    assert_eq!(line.input.value(), "files", "still walking what `f` matched");
    line.walk(1);
    assert_eq!(line.input.value(), "findings", "and round again");
    line.walk(-1);
    assert_eq!(line.input.value(), "files");
    assert_eq!(line.ghost(), None, "a picked name has no ghost");
}

#[test]
fn walking_back_from_nothing_lands_on_the_last_and_a_big_step_goes_round() {
    let mut line = typed("");
    line.walk(-1);
    assert_eq!(line.input.value(), "quit");
    assert_eq!(line.pick, Some(8));
    assert_eq!(line.input.cursor(), 4, "the caret sits at the end of the filled name");
    line.walk(-19);
    assert_eq!(line.pick, Some(7), "(8 - 19) mod 9");
    assert_eq!(line.input.value(), "copy");
    let mut none = typed("zzz");
    none.walk(1);
    assert_eq!(none.input.value(), "zzz", "nothing to walk, nothing changes");
    assert_eq!(none.pick, None);
}

#[test]
fn a_command_is_found_by_name_or_alias_only() {
    assert_eq!(find("config").map(|c| c.name), Some("config"));
    assert!(find("conf").is_none(), "a prefix is not a name");
    assert!(find("").is_none());
    assert_eq!(find("refetch").map(|c| c.what), Some("fetch the review threads again"));
}

#[test]
fn a_line_without_tabs_needs_no_translation() {
    let raw = "export function lookUpName() {";
    assert_eq!(drawn_columns(Some(raw), 16, 26), (16, 26));
}

#[test]
fn a_tab_moves_the_token_by_what_it_draws_as() {
    let raw = "\tplain()";
    assert_eq!(drawn_columns(Some(raw), 1, 6), (4, 9));
}

#[test]
fn two_tabs_and_a_word_still_land_on_the_word() {
    let raw = "\t\tw.Meth()";
    let (start, end) = drawn_columns(Some(raw), 4, 8);
    let drawn = expand_tabs(raw, TAB_WIDTH);
    assert_eq!(&drawn[start..end], "Meth");
}

#[test]
fn no_raw_line_passes_the_offsets_through() {
    assert_eq!(drawn_columns(None, 3, 9), (3, 9));
}

#[test]
fn a_tab_goes_to_the_next_stop_not_a_fixed_width() {
    assert_eq!(expand_tabs("ab\tc", 4), "ab  c");
    assert_eq!(expand_tabs("abcd\te", 4), "abcd    e");
    assert_eq!(expand_tabs("\t", 4), "    ");
}

#[test]
fn a_lowercase_query_ignores_case_and_an_uppercase_one_does_not() {
    let re = matcher("readingsplit", Reading::Literal).unwrap();
    assert!(re.is_match("ReadingSplit"), "all lowercase folds");
    let re = matcher("ReadingSplit", Reading::Literal).unwrap();
    assert!(re.is_match("ReadingSplit"));
    assert!(!re.is_match("readingsplit"), "an uppercase letter is meant");
    let re = matcher("reading.plit", Reading::Regexp).unwrap();
    assert!(re.is_match("ReadingSplit"));
}

#[test]
fn a_literal_query_is_never_a_pattern() {
    let re = matcher("a.c", Reading::Literal).unwrap();
    assert!(re.is_match("a.c"));
    assert!(!re.is_match("abc"), ". is a dot, not any character");
}

#[test]
fn a_regexp_query_is_one() {
    let re = matcher("a.c", Reading::Regexp).unwrap();
    assert!(re.is_match("abc"), ". is any character now");
    assert!(re.is_match("a.c"));
    assert!(matcher("a(", Reading::Regexp).is_none(), "an expression that does not compile finds nothing");
    assert!(matcher("a(", Reading::Literal).is_some(), "and the same characters are a fine literal");
}

#[test]
fn an_empty_query_matches_nothing_at_all() {
    assert!(matcher("", Reading::Literal).is_none());
    assert!(matcher("", Reading::Regexp).is_none());
}

fn ranked(here: bool, in_hunk: bool, group: usize, line: u32) -> Occurrence {
    Occurrence { path: "a.rs".into(), line, hit: 0..1, group: Some(group), badge: String::new(), here, in_hunk }
}

#[test]
fn the_rank_puts_here_then_hunks_then_plan_order() {
    let mut hits = [ranked(false, true, 0, 1), ranked(true, false, 9, 1), ranked(true, true, 3, 2), ranked(true, true, 3, 1)];
    hits.sort_by(|a, b| rank(a).cmp(&rank(b)));
    assert_eq!(
        hits.iter().map(|o| (o.here, o.in_hunk, o.group.unwrap(), o.line)).collect::<Vec<_>>(),
        vec![(true, true, 3, 1), (true, true, 3, 2), (true, false, 9, 1), (false, true, 0, 1)]
    );
}

#[test]
fn a_scan_reports_each_matching_line_with_its_group_and_badge() {
    let lines: Vec<String> = ["let alpha = 1;", "nothing", "alpha again", "and alpha"].iter().map(|s| s.to_string()).collect();
    let hunks = [
        Hunk { top: 3, bot: 4, group: Some(2), class: "C7".to_string() },
        Hunk { top: 9, bot: 9, group: Some(0), class: "C1".to_string() },
    ];
    let names = vec![("g0".to_string(), "focus".to_string()), ("g1".to_string(), "skim".to_string()), ("g2".to_string(), "focus".to_string())];
    let m = matcher("alpha", Reading::Literal).unwrap();
    let out = scan_file("src/a.rs", &lines, &hunks, &m, Some("src/b.rs"), Some(2), &names);
    let seen: Vec<(u32, std::ops::Range<usize>, Option<usize>, String, bool, bool)> =
        out.iter().map(|o| (o.line, o.hit.clone(), o.group, o.badge.clone(), o.in_hunk, o.here)).collect();
    assert_eq!(
        seen,
        vec![
            (1, 4..9, Some(0), "g0 focus".to_string(), false, false),
            (3, 0..5, Some(2), "g2 focus C7".to_string(), true, true),
            (4, 4..9, Some(0), "g0 focus".to_string(), false, false),
        ]
    );
    assert!(out.iter().all(|o| o.path == "src/a.rs"));
    assert!(!hunks[1].holds(9), "a pure deletion holds no line");
    assert!(hunks[0].holds(3) && !hunks[0].holds(4));
}

#[test]
fn a_location_is_cut_at_its_head_and_snaps_to_a_separator() {
    assert_eq!(elide_head("src/a.rs:13", 20), "src/a.rs:13");
    assert_eq!(elide_head("src/a.rs:13", 11), "src/a.rs:13");
    let deep = "src/one/two/three/four/module.rs:13";
    let out = elide_head(deep, 24);
    assert_eq!(out, "…/four/module.rs:13");
    assert!(UnicodeWidthStr::width(out.as_str()) <= 24);
    assert_eq!(elide_head(deep, 25), "…/three/four/module.rs:13");
    assert_eq!(elide_head("averylongsinglename.rs", 8), "…name.rs");
    for max in 2..40 {
        let out = elide_head("a/b/c/verylongmodulename.rs", max);
        assert!(
            "a/b/c/verylongmodulename.rs".ends_with(out.trim_start_matches(['…', '/'])),
            "at {max} columns the result must be a suffix: {out:?}"
        );
        assert!(UnicodeWidthStr::width(out.as_str()) <= max, "over budget at {max}");
    }
    assert_eq!(elide_head("src/a.rs", 1), "…");
    assert_eq!(elide_head("src/a.rs", 0), "");
}

#[test]
fn a_wide_count_widens_the_column_for_every_row() {
    let entry = |adds, dels| FileListEntry { path: "src/f.rs".into(), row_idx: 0, adds, dels, reviewed: false };
    let (a, d, lead) = counts_columns(&[entry(3, 1), entry(12, 40)]);
    assert_eq!((a, d), (4, 4));
    assert_eq!(lead, 2 + 5 + 6);
    let (a, d, lead) = counts_columns(&[entry(12_000, 1), entry(3, 2)]);
    assert_eq!((a, d), (5, 4));
    assert_eq!(lead, 2 + 6 + 6);
    let (a, d, lead) = counts_columns(&[]);
    assert_eq!((a, d), (4, 4));
    assert_eq!(lead, 2 + 5 + 6);
}

#[test]
fn a_note_is_cut_by_display_width_not_by_characters() {
    assert_eq!(truncate_width("short", 10), "short");
    assert_eq!(truncate_width("abcdefgh", 4), "abc…");
    assert_eq!(truncate_width("ありがとう", 5), "あり…");
    assert_eq!(truncate_width("abc", 0), "");
}

#[test]
fn a_modal_scrolls_against_the_window_it_is_drawn_in() {
    assert_eq!(findings_rows(3, 0, 40), 4);
    assert_eq!(file_list_rows(3, 40), 3);
    assert_eq!(findings_rows(100, 0, 20), 17);
    assert_eq!(file_list_rows(100, 20), 18);
    assert_eq!(findings_rows(100, 1, 2), 0);
    assert_eq!(file_list_rows(100, 1), 0);
}

fn drawn_at(selected: usize, scroll: usize, rules: &[usize]) -> usize {
    selected - scroll + rules.iter().filter(|r| **r > scroll && **r <= selected).count()
}

#[test]
fn the_findings_selection_stays_inside_the_box_across_rules() {
    let rules: Vec<usize> = (1..20).collect();
    let rows = 5;
    let (mut selected, mut scroll) = (0, 0);
    for _ in 0..19 {
        findings_step(&mut selected, &mut scroll, 20, rows, &rules, true);
        assert!(
            drawn_at(selected, scroll, &rules) < rows,
            "entry {selected} drawn at {} with scroll {scroll}",
            drawn_at(selected, scroll, &rules)
        );
    }
    for _ in 0..19 {
        findings_step(&mut selected, &mut scroll, 20, rows, &rules, false);
        assert!(drawn_at(selected, scroll, &rules) < rows);
    }
    assert_eq!((selected, scroll), (0, 0));
    assert_eq!(findings_follow(9, 0, 5, &[]), follow(9, 0, 5));
}

#[test]
fn the_footer_says_the_diff_did_not_move() {
    let m = Outcome::Edited.message("src/x.rs", true);
    assert_eq!(m, "edited src/x.rs · the diff is not reloaded");
    let m = Outcome::Edited.message("src/x.rs", false);
    assert!(m.contains("{line}"), "{m}");
    assert!(m.contains("the diff is not reloaded"), "{m}");
    assert_eq!(Outcome::NotOnDisk.message("src/gone.rs", true), "src/gone.rs is not in the working tree");
    assert_eq!(Outcome::NotStarted("nvim: not found".into()).message("src/x.rs", true), "nvim: not found");
}

#[test]
fn an_exit_names_its_code_or_the_signal() {
    let m = Outcome::finished("nvim", false, Some(-2)).message("src/x.rs", true);
    assert_eq!(m, "nvim exited -2 · the diff is not reloaded");
    let m = Outcome::finished("nvim", false, None).message("src/x.rs", true);
    assert_eq!(m, "nvim was killed · the diff is not reloaded");
    assert!(matches!(Outcome::finished("nvim", true, Some(0)), Outcome::Edited));
    assert_eq!(Outcome::not_started("vi", "no such file").message("a", true), "vi: no such file");
}

#[test]
fn the_footer_names_a_command_the_reader_can_run() {
    assert_eq!(summary_command(Some("main..feature")), "dfr findings main..feature --summary");
    assert_eq!(summary_command(None), "dfr findings <range> --summary");
}

#[test]
fn the_settings_list_keeps_three_rows_at_least() {
    assert_eq!(config_list_rows(40, 2), 40 - 9);
    assert_eq!(config_list_rows(10, 2), 3);
    assert_eq!(config_list_rows(0, usize::MAX), 3);
}

const TABLES: [&str; 5] = ["[grouping]", "[grouping]", "[review]", "[review]", "[keys]"];

#[test]
fn each_table_gets_its_header_before_its_first_row_on_screen() {
    assert_eq!(
        config_lines(&TABLES, 0, 3),
        vec![ConfigLine::Section("[grouping]"), ConfigLine::Row(0), ConfigLine::Row(1), ConfigLine::Section("[review]"), ConfigLine::Row(2)]
    );
    // Scrolled into a table: its header comes back above the first row shown.
    assert_eq!(
        config_lines(&TABLES, 1, usize::MAX),
        vec![ConfigLine::Section("[grouping]"), ConfigLine::Row(1), ConfigLine::Section("[review]"), ConfigLine::Row(2), ConfigLine::Row(3), ConfigLine::Section("[keys]"), ConfigLine::Row(4)]
    );
    assert_eq!(config_lines(&TABLES, 3, 0), vec![]);
    assert_eq!(config_lines(&TABLES, 9, 4), vec![]);
}

#[test]
fn a_click_on_a_header_picks_no_setting() {
    assert_eq!(config_row_at(&TABLES, 0, 2, 0), Some(1));
    assert_eq!(config_row_at(&TABLES, 0, 3, 0), None, "the [review] header");
    assert_eq!(config_row_at(&TABLES, 0, 7, 2), Some(3));
    assert_eq!(config_row_at(&TABLES, 0, 1, 2), None, "above the list");
    assert_eq!(config_row_at(&TABLES, 0, 8, 0), None, "past its end");
    assert_eq!(config_row_at(&TABLES, 3, 1, 0), Some(3));
}

#[test]
fn every_place_has_its_title_and_its_screen() {
    assert_eq!(Area::Thread { own: true, resolved: false }.title(), "your own comment");
    assert_eq!(Area::Thread { own: false, resolved: true }.title(), "a review thread");
    assert_eq!(Area::Reading.title(), "here");
    assert!(!Area::Peeking.modal());
    assert!(Area::Search.modal());
    assert_eq!(Area::Selecting.screen(), Some(Screen::Review));
    assert_eq!(Area::Findings.screen(), Some(Screen::Findings));
    assert_eq!(Area::Composer.screen(), None);
    assert_eq!(Screen::FileList.title(), "the file list");
}

fn rows(tree: &[TreeEntry]) -> Vec<String> {
    tree.iter()
        .map(|e| match &e.kind {
            TreeKind::Dir { path } => format!("{}d:{path}", e.depth),
            TreeKind::File { file_idx } => format!("{}f:{file_idx}", e.depth),
        })
        .collect()
}

#[test]
fn the_tree_opens_each_directory_once_and_sorts_by_its_pieces() {
    let paths: Vec<String> = ["src/b.rs", "README.md", "src/a/x.rs", "src/a.rs", "lib/y.rs"].iter().map(|s| s.to_string()).collect();
    let tree = build_tree(&paths, &[]);
    assert_eq!(rows(&tree), ["0f:1", "0d:lib", "1f:4", "0d:src", "1d:src/a", "2f:2", "1f:3", "1f:0"]);
    let guides = tree_guides(&tree);
    assert_eq!(guides, ["├─", "├─", "│ └─", "└─", "  ├─", "  │ └─", "  ├─", "  └─"]);
}

#[test]
fn a_folded_directory_keeps_its_row_and_hides_what_is_beneath() {
    let paths: Vec<String> = ["src/a/x.rs", "src/a/b/y.rs", "src/z.rs"].iter().map(|s| s.to_string()).collect();
    let tree = build_tree(&paths, &["src/a".to_string()]);
    assert_eq!(rows(&tree), ["0d:src", "1d:src/a", "1f:2"]);
}

use differential_review::hints::{hint_at, hints_width, joined, plain, Hint};
use differential_review::text::Ink;

#[test]
fn a_footer_is_keys_with_separators_that_press_nothing() {
    let keys: Vec<Hint<char>> = vec![Hint::button("enter ", "jump", vec!['\n']), Hint::button("esc ", "close", vec!['e', 'c'])];
    let footer = joined(&keys);
    assert_eq!(footer.len(), 3);
    assert_eq!(footer[0].presses, vec!['\n']);
    assert!(footer[1].presses.is_empty());
    assert_eq!(footer[1].pieces, vec![("  ·  ".to_string(), Ink::Dim)]);
    assert_eq!(footer[2].pieces, vec![("esc ".to_string(), Ink::Key), ("close".to_string(), Ink::Text)]);
    assert!(joined::<char>(&[]).is_empty());
    assert_eq!(plain(&keys), "enter jump · esc close");
    assert_eq!(plain(&[Hint::<char>::note("  only words \t", Ink::Warn)]), "only words");
}

#[test]
fn a_click_lands_on_the_key_drawn_under_it() {
    let keys: Vec<Hint<u8>> = joined(&[Hint::button("y ", "publish", vec![1]), Hint::button("n ", "keep", vec![2])]);
    assert_eq!(hints_width(&keys), 9 + 5 + 6);
    assert_eq!(keys[0].width(), 9);
    assert!(hint_at(&keys, 10, 9).is_none(), "left of the footer");
    assert_eq!(hint_at(&keys, 10, 10).map(|h| h.presses.clone()), Some(vec![1]));
    assert_eq!(hint_at(&keys, 10, 18).map(|h| h.presses.clone()), Some(vec![1]));
    assert!(hint_at(&keys, 10, 19).is_some_and(|h| h.presses.is_empty()), "the separator");
    assert_eq!(hint_at(&keys, 10, 24).map(|h| h.presses.clone()), Some(vec![2]));
    assert!(hint_at(&keys, 10, 30).is_none(), "past the last key");
    let wide: Vec<Hint<u8>> = vec![Hint::note("ありがとう", Ink::Text)];
    assert_eq!(hints_width(&wide), 10, "two columns a character");
}

use differential_review::hints::{
    composer_footer, delete_comment_footer, findings_question, float_footer_presses, footer_presses, publish_footer,
};
use differential_review::panes::{content_line, Position, Rect};

fn words<P>(h: &Hint<P>) -> String {
    h.pieces.iter().map(|(t, _)| t.as_str()).collect()
}

#[test]
fn the_delete_question_counts_what_goes_and_what_stays() {
    let q = |local, kept| words(&findings_question::<char>(local, kept, vec!['y'], vec!['n'])[0]);
    assert_eq!(q(1, 0), "  delete this note?  ");
    assert_eq!(q(3, 0), "  delete all 3 notes?  ");
    assert_eq!(q(1, 2), "  delete this note? (2 on the request stay)  ");
    assert_eq!(q(4, 12), "  delete all 4 local notes? (12 on the request stay)  ");
    let footer = findings_question::<char>(2, 0, vec!['y'], vec!['n']);
    assert_eq!(footer.len(), 4);
    assert_eq!(footer[1].presses, ['y']);
    assert!(footer[2].presses.is_empty());
    assert_eq!(footer[3].presses, ['n']);
    assert_eq!(plain(&footer), "delete all 2 notes? · y · / · n");
}

#[test]
fn a_yes_question_names_what_any_other_key_keeps() {
    let p = publish_footer::<u8>(vec![1], vec![2]);
    assert_eq!(words(&p[0]), "  y publishes");
    assert_eq!(words(&p[1]), "  ·  any other key keeps them local");
    assert_eq!((p[0].presses.clone(), p[1].presses.clone()), (vec![1], vec![2]));
    let d = delete_comment_footer::<u8>(vec![1], vec![2]);
    assert_eq!(words(&d[0]), "  y deletes it there and here");
    assert_eq!(words(&d[1]), "  ·  any other key keeps it");
    let c = composer_footer::<u8>(vec![7], vec![9]);
    assert_eq!(c.iter().map(words).collect::<Vec<_>>(), ["  enter save", "  │  ", "shift+enter or \\↵ newline", "  │  ", "esc cancel"]);
    assert!(c[2].presses.is_empty(), "a click has no caret to put a newline at");
    assert_eq!((c[0].presses.clone(), c[4].presses.clone()), (vec![7], vec![9]));
}

#[test]
fn a_search_brought_back_comes_selected_and_compiled() {
    let s = Search::new("a.c".to_string(), Reading::Literal);
    assert!(s.picked);
    assert_eq!(s.query(), "a.c");
    assert_eq!(s.input.cursor(), 3);
    assert!(!s.bad_regexp());
    assert!(s.re.as_ref().is_some_and(|m| m.is_match("xa.cx") && !m.is_match("abc")));
    assert!(s.hit().is_none());

    let fresh = Search::new(String::new(), Reading::Regexp);
    assert!(!fresh.picked);
    assert!(!fresh.bad_regexp(), "an empty query is not a bad one");
    assert!(fresh.re.is_none());
}

#[test]
fn a_query_that_does_not_compile_is_a_bad_regexp_until_it_is_read_literally() {
    let mut s = Search::new("a(".to_string(), Reading::Regexp);
    assert!(s.bad_regexp());
    s.reading = s.reading.flip();
    s.retype();
    assert!(!s.bad_regexp());
    assert!(s.re.as_ref().is_some_and(|m| m.is_match("(a()")));
}

#[test]
fn the_search_selection_steps_inside_its_list_and_its_window() {
    let mut s = Search::new("x".to_string(), Reading::Literal);
    s.entries = (1..=5).map(|l| ranked(false, false, 0, l)).collect();
    s.step(2, true);
    s.step(2, true);
    assert_eq!((s.selected, s.scroll), (2, 1));
    assert_eq!(s.hit().map(|o| o.line), Some(3));
    for _ in 0..9 {
        s.step(2, true);
    }
    assert_eq!((s.selected, s.scroll), (4, 3), "held on the last hit");
    s.select(0, 2);
    assert_eq!((s.selected, s.scroll), (0, 0));
    s.step(2, false);
    assert_eq!(s.selected, 0);
    s.select(9, 2);
    assert!(s.hit().is_none());
}

fn at(x: u16, y: u16) -> Position {
    Position { x, y }
}

#[test]
fn a_click_on_a_centred_footer_presses_the_key_under_it() {
    // 12 + 5 + 25 + 5 + 10 = 57 columns, centred in 77 from column 10.
    let c = composer_footer::<u8>(vec![7], vec![9]);
    let row = Rect { x: 10, y: 20, width: 77, height: 1 };
    assert_eq!(footer_presses(&c, row, true, at(25, 20)), Some(vec![7]));
    assert_eq!(footer_presses(&c, row, true, at(40, 20)), None, "the newline hint only reads");
    assert_eq!(footer_presses(&c, row, true, at(34, 20)), None, "a rule is no button");
    assert_eq!(footer_presses(&c, row, true, at(70, 20)), Some(vec![9]));
    assert_eq!(footer_presses(&c, row, true, at(15, 20)), None, "left of the centred footer");
    assert_eq!(footer_presses(&c, row, true, at(25, 21)), None, "off the row");
    assert_eq!(footer_presses(&c, row, false, at(15, 20)), Some(vec![7]));
}

#[test]
fn a_float_cut_short_by_the_body_has_no_footer_to_click() {
    let c = composer_footer::<u8>(vec![7], vec![9]);
    let area = Rect { x: 0, y: 0, width: 40, height: 5 };
    assert_eq!(float_footer_presses(&c, area, 3, at(3, 3)), Some(vec![7]));
    assert_eq!(float_footer_presses(&c, area, 3, at(3, 2)), None, "above the footer row");
    assert_eq!(float_footer_presses(&c, area, 4, at(3, 3)), None, "clamped: the footer is not drawn");
}

#[test]
fn a_click_on_a_frame_is_on_no_line() {
    let area = Rect { x: 0, y: 0, width: 40, height: 5 };
    assert_eq!(content_line(area, at(5, 1)), Some(0));
    assert_eq!(content_line(area, at(5, 3)), Some(2));
    assert_eq!(content_line(area, at(0, 2)), None);
    assert_eq!(content_line(area, at(5, 4)), None);
    assert_eq!(content_line(area, at(39, 2)), None);
}

#[test]
fn a_row_on_the_footer_is_a_button_that_presses_its_keys() {
    let act = Keys::fixed("q · ctrl-c", vec!['q']).footer("quit", "quit — state is saved on every change");
    assert_eq!(act.key, "q · ctrl-c");
    assert_eq!(act.short, "q · ctrl-c");
    assert_eq!(act.footer.as_deref(), Some("quit"));
    let h = hint(&act);
    assert_eq!(words(&h), "q · ctrl-c quit");
    assert_eq!(h.pieces[0].1, Ink::Key);
    assert_eq!(h.presses, ['q']);

    let quiet = Keys { full: "j/k · down/up".into(), short: "j/k".into(), presses: vec!['j'] }.quiet("move over rows");
    assert_eq!(quiet.footer, None);
    assert_eq!(quiet.help, "move over rows");
    assert_eq!(words(&hint(&quiet)), "j/k ");
}

fn acts() -> Vec<Act<char>> {
    vec![
        Keys::fixed("enter", vec!['e']).footer("open", "open the group or file in the diff pane"),
        Keys::fixed("z", vec!['z']).quiet("unfold a skim remainder"),
        Keys::fixed("space", vec![' ']).footer("reviewed", "mark the whole group reviewed"),
    ]
}

#[test]
fn only_the_rows_with_short_words_are_buttons() {
    let own = modal_hints(&acts());
    assert_eq!(own.iter().map(words).collect::<Vec<_>>(), ["enter open", "space reviewed"]);
    assert_eq!((own[0].presses.clone(), own[1].presses.clone()), (vec!['e'], vec![' ']));
}

#[test]
fn a_modal_footer_leads_with_padding_and_separates_its_keys() {
    let f = modal_footer(&acts());
    assert_eq!(f.iter().map(words).collect::<Vec<_>>(), ["  ", "enter open", "  ·  ", "space reviewed"]);
    assert!(f[0].presses.is_empty() && f[2].presses.is_empty());
    assert_eq!(modal_footer::<char>(&[]).len(), 1);
}

#[test]
fn the_window_footer_ends_with_help_and_is_empty_where_help_cannot_open() {
    let f = footer_hints(&acts(), false, true, vec!['?']);
    assert_eq!(f.iter().map(words).collect::<Vec<_>>(), ["enter open", "space reviewed", "? help"]);
    assert_eq!(f[2].presses, ['?']);
    let under_a_modal = footer_hints(&acts(), true, true, vec!['?']);
    assert_eq!(under_a_modal.iter().map(words).collect::<Vec<_>>(), ["? help"]);
    assert!(footer_hints(&acts(), false, false, vec!['?']).is_empty());
}
